//! Converting a whole value into a native shape.
use vstd::prelude::*;

use crate::error::ErrorKind;
use crate::value::{type_of, type_of_val, Type, Value};

verus! {

/// A native shape that a value converts into.
pub trait FromValue: Sized {
    /// Whether converting `v` may give `r`. A conversion that says nothing of itself allows
    /// every outcome.
    open spec fn converts(v: Value, r: Result<Self, ErrorKind>) -> bool {
        true
    }

    fn from_value(v: Value) -> (r: Result<Self, ErrorKind>)
        ensures
            Self::converts(v, r),
    ;
}

impl FromValue for Value {
    open spec fn converts(v: Value, r: Result<Value, ErrorKind>) -> bool {
        r == Ok::<Value, ErrorKind>(v)
    }

    fn from_value(v: Value) -> (r: Result<Value, ErrorKind>) {
        Ok(v)
    }
}

impl FromValue for bool {
    open spec fn converts(v: Value, r: Result<bool, ErrorKind>) -> bool {
        r == match v {
            Value::Boolean(b) => Ok(b),
            _ => Err(ErrorKind::TypeError(Type::Boolean, type_of(v))),
        }
    }

    fn from_value(v: Value) -> (r: Result<bool, ErrorKind>) {
        match v {
            Value::Boolean(b) => Ok(b),
            _ => Err(ErrorKind::TypeError(Type::Boolean, type_of_val(&v))),
        }
    }
}

impl FromValue for i64 {
    open spec fn converts(v: Value, r: Result<i64, ErrorKind>) -> bool {
        r == match v {
            Value::Integer(i) => Ok(i),
            _ => Err(ErrorKind::TypeError(Type::Integer, type_of(v))),
        }
    }

    fn from_value(v: Value) -> (r: Result<i64, ErrorKind>) {
        match v {
            Value::Integer(i) => Ok(i),
            _ => Err(ErrorKind::TypeError(Type::Integer, type_of_val(&v))),
        }
    }
}

impl FromValue for String {
    open spec fn converts(v: Value, r: Result<String, ErrorKind>) -> bool {
        r == match v {
            Value::String(s) => Ok(s),
            _ => Err(ErrorKind::TypeError(Type::String, type_of(v))),
        }
    }

    fn from_value(v: Value) -> (r: Result<String, ErrorKind>) {
        match v {
            Value::String(s) => Ok(s),
            _ => Err(ErrorKind::TypeError(Type::String, type_of_val(&v))),
        }
    }
}

/// Whether `v` converts into some `T`.
pub open spec fn convertible<T: FromValue>(v: Value) -> bool {
    exists|x: T| T::converts(v, Ok(x))
}

/// Whether converting the items `s` one by one may give `r`: all of them, or the error of the
/// first that fails.
pub open spec fn items_convert<T: FromValue>(s: Seq<Value>, r: Result<Seq<T>, ErrorKind>) -> bool {
    match r {
        Ok(xs) => xs.len() == s.len() && forall|i: int| 0 <= i < s.len() ==> T::converts(#[trigger] s[i], Ok(xs[i])),
        Err(e) => exists|j: int|
            0 <= j < s.len() && T::converts(#[trigger] s[j], Err(e)) && forall|i: int|
                0 <= i < j ==> convertible::<T>(#[trigger] s[i]),
    }
}

impl<T: FromValue> FromValue for Vec<T> {
    open spec fn converts(v: Value, r: Result<Vec<T>, ErrorKind>) -> bool {
        match v {
            Value::Array(a) => items_convert::<T>(
                a@,
                match r {
                    Ok(xs) => Ok(xs@),
                    Err(e) => Err(e),
                },
            ),
            _ => r == Err::<Vec<T>, ErrorKind>(ErrorKind::TypeError(Type::Array, type_of(v))),
        }
    }

    fn from_value(v: Value) -> (r: Result<Vec<T>, ErrorKind>) {
        match v {
            Value::Array(a) => {
                let ghost items = a@;
                let mut a = a;
                let mut out: Vec<T> = Vec::new();
                let mut i: usize = 0;
                while i < a.len()
                    invariant
                        v is Array,
                        v->Array_0@ == items,
                        a@.len() == items.len(),
                        i <= a@.len(),
                        out@.len() == i,
                        forall|j: int| i <= j < a@.len() ==> a@[j] == items[j],
                        forall|j: int| 0 <= j < i ==> T::converts(#[trigger] items[j], Ok(out@[j])),
                    decreases a@.len() - i,
                {
                    let mut item = Value::Boolean(false);
                    core::mem::swap(&mut a[i], &mut item);
                    assert(item == items[i as int]);
                    match T::from_value(item) {
                        Ok(x) => {
                            out.push(x);
                        },
                        Err(e) => {
                            proof {
                                assert forall|j: int| 0 <= j < i implies convertible::<T>(#[trigger] items[j]) by {
                                    assert(T::converts(items[j], Ok(out@[j])));
                                }
                                assert(T::converts(items[i as int], Err(e)));
                            }
                            return Err(e);
                        },
                    }
                    i = i + 1;
                }
                Ok(out)
            },
            _ => Err(ErrorKind::TypeError(Type::Array, type_of_val(&v))),
        }
    }
}

/// A map from string keys, kept as its entries in the order of the table it came from.
pub struct StringMap<T> {
    pub entries: Vec<(String, T)>,
}

/// Whether converting the values of the entries `s` one by one may give `r`: entries with the
/// same keys, or the error of the first value that fails.
pub open spec fn entries_convert<T: FromValue>(s: Seq<(String, Value)>, r: Result<Seq<(String, T)>, ErrorKind>) -> bool {
    match r {
        Ok(xs) => xs.len() == s.len() && forall|i: int|
            0 <= i < s.len() ==> (#[trigger] xs[i]).0@ == s[i].0@ && T::converts(s[i].1, Ok(xs[i].1)),
        Err(e) => exists|j: int|
            0 <= j < s.len() && T::converts((#[trigger] s[j]).1, Err(e)) && forall|i: int|
                0 <= i < j ==> convertible::<T>((#[trigger] s[i]).1),
    }
}

impl<T: FromValue> FromValue for StringMap<T> {
    open spec fn converts(v: Value, r: Result<StringMap<T>, ErrorKind>) -> bool {
        match v {
            Value::Table(t) => entries_convert::<T>(
                t@,
                match r {
                    Ok(m) => Ok(m.entries@),
                    Err(e) => Err(e),
                },
            ),
            _ => r == Err::<StringMap<T>, ErrorKind>(ErrorKind::TypeError(Type::Table, type_of(v))),
        }
    }

    fn from_value(v: Value) -> (r: Result<StringMap<T>, ErrorKind>) {
        match v {
            Value::Table(t) => {
                let ghost entries = t@;
                let mut t = t;
                let mut out: Vec<(String, T)> = Vec::new();
                let mut i: usize = 0;
                while i < t.len()
                    invariant
                        v is Table,
                        v->Table_0@ == entries,
                        t@.len() == entries.len(),
                        i <= t@.len(),
                        out@.len() == i,
                        forall|j: int| i <= j < t@.len() ==> t@[j] == entries[j],
                        forall|j: int|
                            0 <= j < i ==> (#[trigger] out@[j]).0@ == entries[j].0@ && T::converts(entries[j].1, Ok(out@[j].1)),
                    decreases t@.len() - i,
                {
                    let mut entry = (String::new(), Value::Boolean(false));
                    core::mem::swap(&mut t[i], &mut entry);
                    assert(entry == entries[i as int]);
                    let (k, item) = entry;
                    match T::from_value(item) {
                        Ok(x) => {
                            out.push((k, x));
                        },
                        Err(e) => {
                            proof {
                                assert forall|j: int| 0 <= j < i implies convertible::<T>((#[trigger] entries[j]).1) by {
                                    assert(T::converts(entries[j].1, Ok(out@[j].1)));
                                }
                                assert(T::converts(entries[i as int].1, Err(e)));
                            }
                            return Err(e);
                        },
                    }
                    i = i + 1;
                }
                Ok(StringMap { entries: out })
            },
            _ => Err(ErrorKind::TypeError(Type::Table, type_of_val(&v))),
        }
    }
}

} // verus!
