//! Writing a value at a path, creating what is missing on the way.
use vstd::prelude::*;

use crate::error::{ErrorKind, Fault};
use crate::read::read_path;
use crate::resolver::{find_entry, lemma_found_entry, lookup, replace_at};
use crate::tokenizer::{parse_path, segments_view, tokenize_with_seperator, Segment, Token};
use crate::value::{
    empty_array, empty_table, lemma_model_entries_push, lemma_model_entries_update,
    lemma_model_items, lemma_model_items_update_any, model, model_entries, model_items, model_opt,
    Node, Value,
};

verus! {

/// The empty container that a walk needs in order to go on with segment `s`.
pub open spec fn container_for(s: Segment) -> Node {
    match s {
        Segment::Index(_) => empty_array(),
        Segment::Identifier(_) => empty_table(),
    }
}

/// What writing `val` at the place that `path` from position `i` on names makes of `n`: the new
/// node and the node that was replaced, if any.
///
/// A missing key gets `val` where the path ends there, else the empty container that the next
/// segment needs. An index past the end, or negative, appends. An identifier applied to anything
/// but a table, or an index applied to anything but an array, is an error.
pub open spec fn insert_node(n: Node, path: Seq<Segment>, i: nat, val: Node) -> Result<(Node, Option<Node>), Fault>
    decreases path.len() - i,
{
    if i >= path.len() {
        Ok((val, Some(n)))
    } else {
        let last = i + 1 == path.len();
        match path[i as int] {
            Segment::Identifier(k) => match n {
                Node::Table(m) => if last {
                    Ok((Node::Table(m.insert(k, val)), if m.contains_key(k) { Some(m[k]) } else { None }))
                } else {
                    let child = if m.contains_key(k) {
                        m[k]
                    } else {
                        container_for(path[i + 1int])
                    };
                    match insert_node(child, path, i + 1, val) {
                        Ok((c, prev)) => Ok((Node::Table(m.insert(k, c)), prev)),
                        Err(e) => Err(e),
                    }
                },
                Node::Array(_) => Err(Fault::NoIdentifierInArray(k)),
                _ => Err(Fault::QueryingValueAsTable(k)),
            },
            Segment::Index(x) => match n {
                Node::Array(a) => if 0 <= x < a.len() {
                    if last {
                        Ok((Node::Array(a.update(x as int, val)), Some(a[x as int])))
                    } else {
                        match insert_node(a[x as int], path, i + 1, val) {
                            Ok((c, prev)) => Ok((Node::Array(a.update(x as int, c)), prev)),
                            Err(e) => Err(e),
                        }
                    }
                } else {
                    if last {
                        Ok((Node::Array(a.push(val)), None))
                    } else {
                        match insert_node(container_for(path[i + 1int]), path, i + 1, val) {
                            Ok((c, prev)) => Ok((Node::Array(a.push(c)), prev)),
                            Err(e) => Err(e),
                        }
                    }
                },
                Node::Table(_) => Err(Fault::NoIndexInTable(x)),
                _ => Err(Fault::QueryingValueAsArray(x)),
            },
        }
    }
}

/// What `insert_with_seperator(doc, q, sep, val)` makes of a document `n`.
pub open spec fn insert_path(n: Node, q: Seq<char>, sep: char, val: Node) -> Result<(Node, Option<Node>), Fault> {
    match parse_path(q, sep) {
        Err(e) => Err(e),
        Ok(path) => insert_node(n, path, 0, val),
    }
}

/// A container made for the next segment always takes the rest of the path.
pub proof fn lemma_insert_into_fresh(path: Seq<Segment>, i: nat, val: Node)
    requires
        i < path.len(),
    ensures
        insert_node(container_for(path[i as int]), path, i, val) is Ok,
    decreases path.len() - i,
{
    if i + 1 < path.len() {
        lemma_insert_into_fresh(path, i + 1, val);
    }
}

/// Writing at a place that a walk finds replaces what is there: the old node comes back, and the
/// walk then finds the new one.
pub proof fn lemma_insert_found(n: Node, path: Seq<Segment>, i: nat, val: Node)
    requires
        lookup(n, path, i) is Ok,
        lookup(n, path, i)->Ok_0 is Some,
    ensures
        insert_node(n, path, i, val) == Ok::<(Node, Option<Node>), Fault>((replace_at(n, path, i, val), lookup(n, path, i)->Ok_0)),
        lookup(replace_at(n, path, i, val), path, i) == Ok::<Option<Node>, Fault>(Some(val)),
    decreases path.len() - i,
{
    if i < path.len() {
        if i + 1 < path.len() {
            lemma_insert_found_step(n, path, i, val);
        } else {
            match (path[i as int], n) {
                (Segment::Identifier(k), Node::Table(m)) => {
                    assert(lookup(m[k], path, i + 1) == Ok::<Option<Node>, Fault>(Some(m[k])));
                    assert(replace_at(m[k], path, i + 1, val) == val);
                    assert(m.insert(k, val)[k] == val);
                    assert(lookup(val, path, i + 1) == Ok::<Option<Node>, Fault>(Some(val)));
                },
                (Segment::Index(x), Node::Array(a)) => {
                    assert(lookup(a[x as int], path, i + 1) == Ok::<Option<Node>, Fault>(Some(a[x as int])));
                    assert(replace_at(a[x as int], path, i + 1, val) == val);
                    assert(a.update(x as int, val)[x as int] == val);
                    assert(lookup(val, path, i + 1) == Ok::<Option<Node>, Fault>(Some(val)));
                },
                _ => {},
            }
        }
    }
}

proof fn lemma_insert_found_step(n: Node, path: Seq<Segment>, i: nat, val: Node)
    requires
        i + 1 < path.len(),
        lookup(n, path, i) is Ok,
        lookup(n, path, i)->Ok_0 is Some,
    ensures
        insert_node(n, path, i, val) == Ok::<(Node, Option<Node>), Fault>((replace_at(n, path, i, val), lookup(n, path, i)->Ok_0)),
        lookup(replace_at(n, path, i, val), path, i) == Ok::<Option<Node>, Fault>(Some(val)),
    decreases path.len() - i, 0nat,
{
    match (path[i as int], n) {
        (Segment::Identifier(k), Node::Table(m)) => {
            lemma_insert_found(m[k], path, i + 1, val);
            assert(m.insert(k, replace_at(m[k], path, i + 1, val))[k] == replace_at(m[k], path, i + 1, val));
        },
        (Segment::Index(x), Node::Array(a)) => {
            lemma_insert_found(a[x as int], path, i + 1, val);
            assert(a.update(x as int, replace_at(a[x as int], path, i + 1, val))[x as int] == replace_at(a[x as int], path, i + 1, val));
        },
        _ => {},
    }
}

/// Writing at a path where a value already stands gives that value back and leaves the new one
/// there.
pub proof fn lemma_insert_over_existing(n: Node, q: Seq<char>, sep: char, val: Node)
    requires
        read_path(n, q, sep) is Ok,
        read_path(n, q, sep)->Ok_0 is Some,
    ensures
        insert_path(n, q, sep, val) is Ok,
        insert_path(n, q, sep, val)->Ok_0.1 == read_path(n, q, sep)->Ok_0,
        read_path(insert_path(n, q, sep, val)->Ok_0.0, q, sep) == Ok::<Option<Node>, Fault>(Some(val)),
{
    let path = parse_path(q, sep)->Ok_0;
    lemma_insert_found(n, path, 0, val);
}

fn container_for_token(t: &Token) -> (r: Value)
    ensures
        model(r) == container_for(t@),
{
    match t {
        Token::Index { .. } => {
            let r = Value::Array(Vec::new());
            assert(model_items(Seq::<Value>::empty()) =~= Seq::<Node>::empty());
            r
        },
        Token::Identifier { .. } => {
            let r = Value::Table(Vec::new());
            assert(model_entries(Seq::<(String, Value)>::empty()) =~= Map::<Seq<char>, Node>::empty());
            r
        },
    }
}

/// Writes `value` at the place that `tokens` from position `i` on name, as `insert_node` says.
/// On an error the document is as it was.
fn insert_at(doc: &mut Value, tokens: &Vec<Token>, i: usize, value: Value) -> (r: Result<Option<Value>, ErrorKind>)
    requires
        i < tokens@.len(),
    ensures
        match r {
            Ok(prev) => insert_node(model(*old(doc)), segments_view(tokens@), i as nat, model(value))
                == Ok::<(Node, Option<Node>), Fault>((model(*final(doc)), model_opt(prev))),
            Err(e) => {
                &&& insert_node(model(*old(doc)), segments_view(tokens@), i as nat, model(value))
                    == Err::<(Node, Option<Node>), Fault>(e@)
                &&& model(*final(doc)) == model(*old(doc))
            },
        },
    decreases tokens@.len() - i,
{
    let ghost path = segments_view(tokens@);
    let ghost val = model(value);
    let last = i == tokens.len() - 1;
    proof {
        assert(path[i as int] == tokens@[i as int]@);
        if !last {
            assert(path[i + 1] == tokens@[i + 1]@);
        }
    }
    match &tokens[i] {
        Token::Identifier { ident } => match doc {
            Value::Table(t) => {
                let ghost t0 = t@;
                let found = find_entry(t, ident);
                proof {
                    lemma_found_entry(t@, ident@, found);
                }
                match found {
                    Some(j) => {
                        if last {
                            let mut value = value;
                            let entry = &mut t[j];
                            core::mem::swap(&mut entry.1, &mut value);
                            proof {
                                lemma_model_entries_update(t0, j as int, t@[j as int]);
                            }
                            Ok(Some(value))
                        } else {
                            let entry = &mut t[j];
                            let r = insert_at(&mut entry.1, tokens, i + 1, value);
                            proof {
                                lemma_model_entries_update(t0, j as int, t@[j as int]);
                                assert(model_entries(t0).insert(ident@, model(t0[j as int].1)) =~= model_entries(t0));
                            }
                            r
                        }
                    },
                    None => {
                        if last {
                            let k = ident.clone();
                            proof {
                                lemma_model_entries_push(t0, (k, value));
                            }
                            t.push((k, value));
                            Ok(None)
                        } else {
                            let k = ident.clone();
                            let c = container_for_token(&tokens[i + 1]);
                            proof {
                                lemma_model_entries_push(t0, (k, c));
                                lemma_insert_into_fresh(path, (i + 1) as nat, val);
                            }
                            t.push((k, c));
                            let ghost t1 = t@;
                            let n = t.len() - 1;
                            let entry = &mut t[n];
                            let r = insert_at(&mut entry.1, tokens, i + 1, value);
                            proof {
                                assert forall|p: int| 0 <= p < n implies (#[trigger] t1[p]).0@ != t1[n as int].0@ by {
                                    assert(t1[p] == t0[p]);
                                }
                                lemma_model_entries_update(t1, n as int, t@[n as int]);
                                assert(model_entries(t0).insert(ident@, model(c)).insert(ident@, model(t@[n as int].1))
                                    =~= model_entries(t0).insert(ident@, model(t@[n as int].1)));
                            }
                            r
                        }
                    },
                }
            },
            Value::Array(_) => Err(ErrorKind::NoIdentifierInArray(ident.clone())),
            _ => Err(ErrorKind::QueryingValueAsTable(ident.clone())),
        },
        Token::Index { idx } => match doc {
            Value::Array(a) => {
                let ghost a0 = a@;
                proof {
                    lemma_model_items(a@);
                }
                if 0 <= *idx && (*idx as u64) < (a.len() as u64) {
                    let x = *idx as usize;
                    proof {
                        lemma_model_items_update_any(a@, x as int);
                        assert(model_items(a@).update(x as int, model(a@[x as int])) =~= model_items(a@));
                    }
                    if last {
                        let mut value = value;
                        core::mem::swap(&mut a[x], &mut value);
                        proof {
                            assert(a@ == a0.update(x as int, a@[x as int]));
                        }
                        Ok(Some(value))
                    } else {
                        let r = insert_at(&mut a[x], tokens, i + 1, value);
                        proof {
                            assert(a@ == a0.update(x as int, a@[x as int]));
                        }
                        r
                    }
                } else {
                    if last {
                        a.push(value);
                        proof {
                            assert(a@.drop_last() =~= a0);
                        }
                        Ok(None)
                    } else {
                        let c = container_for_token(&tokens[i + 1]);
                        proof {
                            lemma_insert_into_fresh(path, (i + 1) as nat, val);
                        }
                        a.push(c);
                        let ghost a1 = a@;
                        proof {
                            assert(a1.drop_last() =~= a0);
                            lemma_model_items_update_any(a1, a0.len() as int);
                        }
                        let n = a.len() - 1;
                        let r = insert_at(&mut a[n], tokens, i + 1, value);
                        proof {
                            assert(a@ == a1.update(n as int, a@[n as int]));
                            assert(model_items(a0).push(model(c)).update(n as int, model(a@[n as int]))
                                =~= model_items(a0).push(model(a@[n as int])));
                        }
                        r
                    }
                }
            },
            Value::Table(_) => Err(ErrorKind::NoIndexInTable(*idx)),
            _ => Err(ErrorKind::QueryingValueAsArray(*idx)),
        },
    }
}

/// Writing into a document at a path.
pub trait TomlValueInsertExt<'doc> {
    /// Writes `value` at `query`, whose segments are separated by `sep`, creating the missing
    /// tables and arrays on the way; returns the value that was replaced, if any.
    fn insert_with_seperator(&mut self, query: &str, sep: char, value: Value) -> Result<Option<Value>, ErrorKind>;

    /// `insert_with_seperator` with `.` as the separator.
    fn insert(&mut self, query: &str, value: Value) -> Result<Option<Value>, ErrorKind>;
}

impl<'doc> TomlValueInsertExt<'doc> for Value {
    /// On an error the document is as it was.
    fn insert_with_seperator(&mut self, query: &str, sep: char, value: Value) -> (r: Result<Option<Value>, ErrorKind>)
        ensures
            match r {
                Ok(prev) => insert_path(model(*old(self)), query@, sep, model(value))
                    == Ok::<(Node, Option<Node>), Fault>((model(*final(self)), model_opt(prev))),
                Err(e) => {
                    &&& insert_path(model(*old(self)), query@, sep, model(value)) == Err::<(Node, Option<Node>), Fault>(e@)
                    &&& model(*final(self)) == model(*old(self))
                },
            },
    {
        match tokenize_with_seperator(query, sep) {
            Err(e) => Err(e),
            Ok(tokens) => {
                proof {
                    assert(parse_path(query@, sep) is Ok);
                    assert(query@.len() > 0);
                    crate::tokenizer::lemma_split_nonempty(query@, sep);
                    crate::tokenizer::lemma_segments_len(crate::tokenizer::split_path(query@, sep));
                }
                insert_at(self, &tokens, 0, value)
            },
        }
    }

    fn insert(&mut self, query: &str, value: Value) -> (r: Result<Option<Value>, ErrorKind>)
        ensures
            match r {
                Ok(prev) => insert_path(model(*old(self)), query@, '.', model(value))
                    == Ok::<(Node, Option<Node>), Fault>((model(*final(self)), model_opt(prev))),
                Err(e) => {
                    &&& insert_path(model(*old(self)), query@, '.', model(value)) == Err::<(Node, Option<Node>), Fault>(e@)
                    &&& model(*final(self)) == model(*old(self))
                },
            },
    {
        self.insert_with_seperator(query, '.', value)
    }
}

} // verus!
