//! Walks a document along the segments of a path.
use vstd::prelude::*;

use crate::error::{ErrorKind, Fault};
use crate::tokenizer::{segments_view, Segment, Token};
use crate::value::{
    lemma_model_entries_first, lemma_model_entries_keys, lemma_model_entries_update_any,
    lemma_model_items, lemma_model_items_update_any, model, model_entries, model_items, Node, Value,
};

verus! {

/// What the walk from `n` along the segments of `path` from position `i` on finds: the node, or
/// `None` where a key or an index is absent, or the error of the first segment that does not fit
/// the node it meets. A negative index is absent.
pub open spec fn lookup(n: Node, path: Seq<Segment>, i: nat) -> Result<Option<Node>, Fault>
    decreases path.len() - i,
{
    if i >= path.len() {
        Ok(Some(n))
    } else {
        match path[i as int] {
            Segment::Identifier(k) => match n {
                Node::Table(m) => if m.contains_key(k) {
                    lookup(m[k], path, i + 1)
                } else {
                    Ok(None)
                },
                Node::Array(_) => Err(Fault::NoIdentifierInArray(k)),
                _ => Err(Fault::QueryingValueAsTable(k)),
            },
            Segment::Index(x) => match n {
                Node::Array(a) => if 0 <= x < a.len() {
                    lookup(a[x as int], path, i + 1)
                } else {
                    Ok(None)
                },
                Node::Table(_) => Err(Fault::NoIndexInTable(x)),
                _ => Err(Fault::QueryingValueAsArray(x)),
            },
        }
    }
}

/// `n` with the node that `lookup(n, path, i)` finds replaced by `new`.
pub open spec fn replace_at(n: Node, path: Seq<Segment>, i: nat, new: Node) -> Node
    decreases path.len() - i,
{
    if i >= path.len() {
        new
    } else {
        match (path[i as int], n) {
            (Segment::Identifier(k), Node::Table(m)) => if m.contains_key(k) {
                Node::Table(m.insert(k, replace_at(m[k], path, i + 1, new)))
            } else {
                n
            },
            (Segment::Index(x), Node::Array(a)) => if 0 <= x < a.len() {
                Node::Array(a.update(x as int, replace_at(a[x as int], path, i + 1, new)))
            } else {
                n
            },
            _ => n,
        }
    }
}

pub open spec fn found_model(r: Result<Option<&Value>, ErrorKind>) -> Result<Option<Node>, Fault> {
    match r {
        Ok(Some(v)) => Ok(Some(model(*v))),
        Ok(None) => Ok(None),
        Err(e) => Err(e@),
    }
}

/// The position of the first entry of `t` with key `k`.
pub fn find_entry(t: &Vec<(String, Value)>, k: &String) -> (r: Option<usize>)
    ensures
        match r {
            Some(j) => {
                &&& j < t@.len()
                &&& t@[j as int].0@ == k@
                &&& forall|i: int| 0 <= i < j ==> (#[trigger] t@[i]).0@ != k@
            },
            None => forall|i: int| 0 <= i < t@.len() ==> (#[trigger] t@[i]).0@ != k@,
        },
{
    let mut j: usize = 0;
    while j < t.len()
        invariant
            j <= t@.len(),
            forall|i: int| 0 <= i < j ==> (#[trigger] t@[i]).0@ != k@,
        decreases t@.len() - j,
    {
        if t[j].0 == *k {
            return Some(j);
        }
        j = j + 1;
    }
    None
}

/// What `find_entry` tells of the map that a table stands for.
pub proof fn lemma_found_entry(t: Seq<(String, Value)>, k: Seq<char>, r: Option<usize>)
    requires
        match r {
            Some(j) => {
                &&& j < t.len()
                &&& t[j as int].0@ == k
                &&& forall|i: int| 0 <= i < j ==> (#[trigger] t[i]).0@ != k
            },
            None => forall|i: int| 0 <= i < t.len() ==> (#[trigger] t[i]).0@ != k,
        },
    ensures
        match r {
            Some(j) => model_entries(t).contains_key(k) && model_entries(t)[k] == model(t[j as int].1),
            None => !model_entries(t).contains_key(k),
        },
{
    match r {
        Some(j) => {
            lemma_model_entries_first(t, j as int);
        },
        None => {
            lemma_model_entries_keys(t, k);
        },
    }
}

/// Finds the node that `tokens` lead to from `doc`, as `lookup` says.
pub fn resolve<'a>(doc: &'a Value, tokens: &Vec<Token>) -> (r: Result<Option<&'a Value>, ErrorKind>)
    ensures
        found_model(r) == lookup(model(*doc), segments_view(tokens@), 0),
{
    let ghost path = segments_view(tokens@);
    let mut cur: &'a Value = doc;
    let mut i: usize = 0;
    while i < tokens.len()
        invariant
            i <= tokens@.len(),
            path == segments_view(tokens@),
            lookup(model(*doc), path, 0) == lookup(model(*cur), path, i as nat),
        decreases tokens@.len() - i,
    {
        proof {
            assert(path[i as int] == tokens@[i as int]@);
        }
        match &tokens[i] {
            Token::Identifier { ident } => match cur {
                Value::Table(t) => {
                    let found = find_entry(t, ident);
                    proof {
                        lemma_found_entry(t@, ident@, found);
                    }
                    match found {
                        Some(j) => {
                            cur = &t[j].1;
                        },
                        None => {
                            return Ok(None);
                        },
                    }
                },
                Value::Array(_) => {
                    return Err(ErrorKind::NoIdentifierInArray(ident.clone()));
                },
                _ => {
                    return Err(ErrorKind::QueryingValueAsTable(ident.clone()));
                },
            },
            Token::Index { idx } => match cur {
                Value::Array(a) => {
                    proof {
                        lemma_model_items(a@);
                    }
                    if 0 <= *idx && (*idx as u64) < (a.len() as u64) {
                        cur = &a[*idx as usize];
                    } else {
                        return Ok(None);
                    }
                },
                Value::Table(_) => {
                    return Err(ErrorKind::NoIndexInTable(*idx));
                },
                _ => {
                    return Err(ErrorKind::QueryingValueAsArray(*idx));
                },
            },
        }
        i = i + 1;
    }
    Ok(Some(cur))
}

/// Finds the node that `tokens` lead to from position `i` on, for writing: the document then
/// holds, at that place, whatever the returned reference last held.
pub fn resolve_mut<'a>(doc: &'a mut Value, tokens: &Vec<Token>, i: usize) -> (r: Result<Option<&'a mut Value>, ErrorKind>)
    requires
        i <= tokens@.len(),
    ensures
        match r {
            Ok(Some(m)) => {
                &&& lookup(model(*old(doc)), segments_view(tokens@), i as nat) == Ok::<Option<Node>, Fault>(Some(model(*m)))
                &&& model(*final(doc)) == replace_at(model(*old(doc)), segments_view(tokens@), i as nat, model(*final(m)))
            },
            Ok(None) => {
                &&& lookup(model(*old(doc)), segments_view(tokens@), i as nat) == Ok::<Option<Node>, Fault>(None)
                &&& model(*final(doc)) == model(*old(doc))
            },
            Err(e) => {
                &&& lookup(model(*old(doc)), segments_view(tokens@), i as nat) == Err::<Option<Node>, Fault>(e@)
                &&& model(*final(doc)) == model(*old(doc))
            },
        },
    decreases tokens@.len() - i,
{
    let ghost path = segments_view(tokens@);
    if i >= tokens.len() {
        return Ok(Some(doc));
    }
    proof {
        assert(path[i as int] == tokens@[i as int]@);
    }
    match &tokens[i] {
        Token::Identifier { ident } => match doc {
            Value::Table(t) => {
                let found = find_entry(t, ident);
                proof {
                    lemma_found_entry(t@, ident@, found);
                }
                match found {
                    Some(j) => {
                        proof {
                            lemma_model_entries_update_any(t@, j as int);
                            assert(model_entries(t@).insert(ident@, model(t@[j as int].1)) =~= model_entries(t@));
                        }
                        let entry = &mut t[j];
                        resolve_mut(&mut entry.1, tokens, i + 1)
                    },
                    None => Ok(None),
                }
            },
            Value::Array(_) => Err(ErrorKind::NoIdentifierInArray(ident.clone())),
            _ => Err(ErrorKind::QueryingValueAsTable(ident.clone())),
        },
        Token::Index { idx } => match doc {
            Value::Array(a) => {
                proof {
                    lemma_model_items(a@);
                }
                if 0 <= *idx && (*idx as u64) < (a.len() as u64) {
                    let x = *idx as usize;
                    proof {
                        lemma_model_items_update_any(a@, x as int);
                        assert(model_items(a@).update(x as int, model(a@[x as int])) =~= model_items(a@));
                    }
                    resolve_mut(&mut a[x], tokens, i + 1)
                } else {
                    Ok(None)
                }
            },
            Value::Table(_) => Err(ErrorKind::NoIndexInTable(*idx)),
            _ => Err(ErrorKind::QueryingValueAsArray(*idx)),
        },
    }
}

} // verus!
