//! Reading a document at a path, plainly, for writing, or as a value of a given type.
use vstd::prelude::*;

use crate::error::{ErrorKind, Fault};
use crate::resolver::{found_model, lookup, replace_at, resolve, resolve_mut};
use crate::tokenizer::{parse_path, tokenize_with_seperator};
use crate::value::{model, node_type, type_of, type_of_val, Node, Type, Value};

verus! {

/// What reading `n` at the path `q`, with segments separated by `sep`, finds.
pub open spec fn read_path(n: Node, q: Seq<char>, sep: char) -> Result<Option<Node>, Fault> {
    match parse_path(q, sep) {
        Err(e) => Err(e),
        Ok(path) => lookup(n, path, 0),
    }
}

/// `n` with the node at the path `q` replaced by `new`.
pub open spec fn write_path(n: Node, q: Seq<char>, sep: char, new: Node) -> Node {
    match parse_path(q, sep) {
        Err(_) => n,
        Ok(path) => replace_at(n, path, 0, new),
    }
}

/// What reading `n` at the path `q` (separated by `.`) as a value of type `t` gives: the node,
/// or `NotAvailable` where nothing is there, or `TypeError` where something else is.
pub open spec fn typed_read(n: Node, q: Seq<char>, t: Type) -> Result<Node, Fault> {
    match read_path(n, q, '.') {
        Err(e) => Err(e),
        Ok(None) => Err(Fault::NotAvailable(q)),
        Ok(Some(x)) => if node_type(x) == t {
            Ok(x)
        } else {
            Err(Fault::TypeError(t, node_type(x)))
        },
    }
}

/// Reading a document at a path.
pub trait TomlValueReadExt<'doc> {
    /// The node at `query`, whose segments are separated by `sep`; `None` where a key or an
    /// index on the way is absent.
    fn read_with_seperator(&'doc self, query: &str, sep: char) -> Result<Option<&'doc Value>, ErrorKind>;

    /// The node at `query` for writing.
    fn read_mut_with_seperator(&'doc mut self, query: &str, sep: char) -> Result<Option<&'doc mut Value>, ErrorKind>;

    /// `read_with_seperator` with `.` as the separator.
    fn read(&'doc self, query: &str) -> Result<Option<&'doc Value>, ErrorKind>;

    /// `read_mut_with_seperator` with `.` as the separator.
    fn read_mut(&'doc mut self, query: &str) -> Result<Option<&'doc mut Value>, ErrorKind>;
}

impl<'doc> TomlValueReadExt<'doc> for Value {
    fn read_with_seperator(&'doc self, query: &str, sep: char) -> (r: Result<Option<&'doc Value>, ErrorKind>)
        ensures
            found_model(r) == read_path(model(*self), query@, sep),
    {
        match tokenize_with_seperator(query, sep) {
            Err(e) => Err(e),
            Ok(tokens) => resolve(self, &tokens),
        }
    }

    /// Whatever the returned reference last holds stands at `query` afterwards; on `None` and on
    /// an error the document is as it was.
    fn read_mut_with_seperator(&'doc mut self, query: &str, sep: char) -> (r: Result<Option<&'doc mut Value>, ErrorKind>)
        ensures
            match r {
                Ok(Some(m)) => {
                    &&& read_path(model(*old(self)), query@, sep) == Ok::<Option<Node>, Fault>(Some(model(*m)))
                    &&& model(*final(self)) == write_path(model(*old(self)), query@, sep, model(*final(m)))
                },
                Ok(None) => {
                    &&& read_path(model(*old(self)), query@, sep) == Ok::<Option<Node>, Fault>(None)
                    &&& model(*final(self)) == model(*old(self))
                },
                Err(e) => {
                    &&& read_path(model(*old(self)), query@, sep) == Err::<Option<Node>, Fault>(e@)
                    &&& model(*final(self)) == model(*old(self))
                },
            },
    {
        match tokenize_with_seperator(query, sep) {
            Err(e) => Err(e),
            Ok(tokens) => resolve_mut(self, &tokens, 0),
        }
    }

    fn read(&'doc self, query: &str) -> (r: Result<Option<&'doc Value>, ErrorKind>)
        ensures
            found_model(r) == read_path(model(*self), query@, '.'),
    {
        self.read_with_seperator(query, '.')
    }

    fn read_mut(&'doc mut self, query: &str) -> (r: Result<Option<&'doc mut Value>, ErrorKind>)
        ensures
            match r {
                Ok(Some(m)) => {
                    &&& read_path(model(*old(self)), query@, '.') == Ok::<Option<Node>, Fault>(Some(model(*m)))
                    &&& model(*final(self)) == write_path(model(*old(self)), query@, '.', model(*final(m)))
                },
                Ok(None) => {
                    &&& read_path(model(*old(self)), query@, '.') == Ok::<Option<Node>, Fault>(None)
                    &&& model(*final(self)) == model(*old(self))
                },
                Err(e) => {
                    &&& read_path(model(*old(self)), query@, '.') == Err::<Option<Node>, Fault>(e@)
                    &&& model(*final(self)) == model(*old(self))
                },
            },
    {
        self.read_mut_with_seperator(query, '.')
    }
}

/// Reading a scalar of a given type at a path separated by `.`.
pub trait TomlValueReadTypeExt<'doc> {
    fn read_string(&'doc self, query: &str) -> Result<String, ErrorKind>;

    fn read_int(&'doc self, query: &str) -> Result<i64, ErrorKind>;

    /// The IEEE-754 binary64 bit pattern of the float.
    fn read_float(&'doc self, query: &str) -> Result<u64, ErrorKind>;

    fn read_bool(&'doc self, query: &str) -> Result<bool, ErrorKind>;
}

/// The error of a typed read that found `found`, not a value of type `t`.
fn typed_miss(query: &str, found: Option<&Value>, t: Type) -> (e: ErrorKind)
    ensures
        e@ == (match found {
            None => Fault::NotAvailable(query@),
            Some(v) => Fault::TypeError(t, type_of(*v)),
        }),
{
    match found {
        None => ErrorKind::NotAvailable(query.to_owned()),
        Some(v) => ErrorKind::TypeError(t, type_of_val(v)),
    }
}

impl<'doc> TomlValueReadTypeExt<'doc> for Value {
    fn read_string(&'doc self, query: &str) -> (r: Result<String, ErrorKind>)
        ensures
            match r {
                Ok(s) => typed_read(model(*self), query@, Type::String) == Ok::<Node, Fault>(Node::String(s@)),
                Err(e) => typed_read(model(*self), query@, Type::String) == Err::<Node, Fault>(e@),
            },
    {
        match self.read_with_seperator(query, '.') {
            Err(e) => Err(e),
            Ok(Some(Value::String(s))) => Ok(s.clone()),
            Ok(found) => Err(typed_miss(query, found, Type::String)),
        }
    }

    fn read_int(&'doc self, query: &str) -> (r: Result<i64, ErrorKind>)
        ensures
            match r {
                Ok(i) => typed_read(model(*self), query@, Type::Integer) == Ok::<Node, Fault>(Node::Integer(i)),
                Err(e) => typed_read(model(*self), query@, Type::Integer) == Err::<Node, Fault>(e@),
            },
    {
        match self.read_with_seperator(query, '.') {
            Err(e) => Err(e),
            Ok(Some(Value::Integer(i))) => Ok(*i),
            Ok(found) => Err(typed_miss(query, found, Type::Integer)),
        }
    }

    fn read_float(&'doc self, query: &str) -> (r: Result<u64, ErrorKind>)
        ensures
            match r {
                Ok(f) => typed_read(model(*self), query@, Type::Float) == Ok::<Node, Fault>(Node::Float(f)),
                Err(e) => typed_read(model(*self), query@, Type::Float) == Err::<Node, Fault>(e@),
            },
    {
        match self.read_with_seperator(query, '.') {
            Err(e) => Err(e),
            Ok(Some(Value::Float(f))) => Ok(*f),
            Ok(found) => Err(typed_miss(query, found, Type::Float)),
        }
    }

    fn read_bool(&'doc self, query: &str) -> (r: Result<bool, ErrorKind>)
        ensures
            match r {
                Ok(b) => typed_read(model(*self), query@, Type::Boolean) == Ok::<Node, Fault>(Node::Boolean(b)),
                Err(e) => typed_read(model(*self), query@, Type::Boolean) == Err::<Node, Fault>(e@),
            },
    {
        match self.read_with_seperator(query, '.') {
            Err(e) => Err(e),
            Ok(Some(Value::Boolean(b))) => Ok(*b),
            Ok(found) => Err(typed_miss(query, found, Type::Boolean)),
        }
    }
}

/// Checking the type of what a read gave: a value passes unchanged where its tag is the one
/// expected, absence passes too, an error stays, and a value of another tag becomes a
/// `TypeError` of the expected tag and the found one.
pub trait GetResultAsType {
    type Output;

    fn as_type(self, t: Type) -> Result<Self::Output, ErrorKind>;
}

impl GetResultAsType for Result<Value, ErrorKind> {
    type Output = Value;

    fn as_type(self, t: Type) -> (r: Result<Value, ErrorKind>)
        ensures
            r == (match self {
                Err(e) => Err(e),
                Ok(v) => if type_of(v) == t {
                    Ok(v)
                } else {
                    Err(ErrorKind::TypeError(t, type_of(v)))
                },
            }),
    {
        match self {
            Err(e) => Err(e),
            Ok(v) => if t.matches(&v) {
                Ok(v)
            } else {
                Err(ErrorKind::TypeError(t, type_of_val(&v)))
            },
        }
    }
}

impl<'a> GetResultAsType for Result<&'a Value, ErrorKind> {
    type Output = &'a Value;

    fn as_type(self, t: Type) -> (r: Result<&'a Value, ErrorKind>)
        ensures
            r == (match self {
                Err(e) => Err(e),
                Ok(v) => if type_of(*v) == t {
                    Ok(v)
                } else {
                    Err(ErrorKind::TypeError(t, type_of(*v)))
                },
            }),
    {
        match self {
            Err(e) => Err(e),
            Ok(v) => if t.matches(v) {
                Ok(v)
            } else {
                Err(ErrorKind::TypeError(t, type_of_val(v)))
            },
        }
    }
}

impl GetResultAsType for Result<Option<Value>, ErrorKind> {
    type Output = Option<Value>;

    fn as_type(self, t: Type) -> (r: Result<Option<Value>, ErrorKind>)
        ensures
            r == (match self {
                Err(e) => Err(e),
                Ok(None) => Ok(None),
                Ok(Some(v)) => if type_of(v) == t {
                    Ok(Some(v))
                } else {
                    Err(ErrorKind::TypeError(t, type_of(v)))
                },
            }),
    {
        match self {
            Err(e) => Err(e),
            Ok(None) => Ok(None),
            Ok(Some(v)) => if t.matches(&v) {
                Ok(Some(v))
            } else {
                Err(ErrorKind::TypeError(t, type_of_val(&v)))
            },
        }
    }
}

impl<'a> GetResultAsType for Result<Option<&'a Value>, ErrorKind> {
    type Output = Option<&'a Value>;

    fn as_type(self, t: Type) -> (r: Result<Option<&'a Value>, ErrorKind>)
        ensures
            r == (match self {
                Err(e) => Err(e),
                Ok(None) => Ok(None),
                Ok(Some(v)) => if type_of(*v) == t {
                    Ok(Some(v))
                } else {
                    Err(ErrorKind::TypeError(t, type_of(*v)))
                },
            }),
    {
        match self {
            Err(e) => Err(e),
            Ok(None) => Ok(None),
            Ok(Some(v)) => if t.matches(v) {
                Ok(Some(v))
            } else {
                Err(ErrorKind::TypeError(t, type_of_val(v)))
            },
        }
    }
}

} // verus!
