use std::cell::Cell;

use toml_query::error::ErrorKind;
use toml_query::insert::TomlValueInsertExt;
use toml_query::query::{query_or_reset, Chain, Query, QueryExecutor, ResetExecutor};
use toml_query::read::TomlValueReadExt;
use toml_query::value::Value;

type Result<T> = ::std::result::Result<T, ()>;

#[test]
fn compile_test_1() {
    struct A;
    impl<P> Query<P, ()> for A {
        type Output = ();
        fn execute(&self, _t: &mut Value, _p: Option<P>) -> Result<Self::Output> {
            Ok(())
        }
    }

    let a = A;
    let b = A;
    let c = A;
    let d = A;
    let chain = a.chain(b).chain(c).chain(d);
    let mut value = Value::Boolean(true);
    let _res = chain.execute(&mut value, None as Option<()>).unwrap();
}

#[test]
fn compile_test_2() {
    struct A;
    impl<P> Query<P, ()> for A {
        type Output = ();
        fn execute(&self, _t: &mut Value, _p: Option<P>) -> Result<Self::Output> {
            Ok(())
        }
    }

    struct B;
    impl<P> Query<P, ()> for B {
        type Output = i32;
        fn execute(&self, _t: &mut Value, _p: Option<P>) -> Result<Self::Output> {
            Ok(1)
        }
    }

    struct C;
    impl<P> Query<P, ()> for C {
        type Output = f64;
        fn execute(&self, _t: &mut Value, _p: Option<P>) -> Result<Self::Output> {
            Ok(1.0)
        }
    }

    struct D;
    impl<P> Query<P, ()> for D {
        type Output = String;
        fn execute(&self, _t: &mut Value, _p: Option<P>) -> Result<Self::Output> {
            Ok(String::from("Foo"))
        }
    }

    let a = A;
    let b = B;
    let c = C;
    let d = D;
    let chain = a.chain(b).chain(c).chain(d);
    let mut value = Value::Boolean(true);
    let res: String = chain.execute(&mut value, None as Option<()>).unwrap();
    assert_eq!(res, "Foo");
}

#[test]
fn compile_test_3() {
    struct A;
    impl<P> Query<P, ()> for A {
        type Output = ();
        fn execute(&self, _t: &mut Value, _p: Option<P>) -> Result<Self::Output> {
            Ok(())
        }
    }

    struct B;
    impl<P> Query<P, ()> for B {
        type Output = u32;
        fn execute(&self, _t: &mut Value, _p: Option<P>) -> Result<Self::Output> {
            Ok(1)
        }
    }

    struct C;
    impl Query<u32, ()> for C {
        type Output = f64;
        fn execute(&self, _t: &mut Value, p: Option<u32>) -> Result<Self::Output> {
            Ok(f64::from(p.unwrap_or(1)))
        }
    }

    struct D;
    impl Query<f64, ()> for D {
        type Output = String;
        fn execute(&self, _t: &mut Value, p: Option<f64>) -> Result<Self::Output> {
            Ok(format!("f: {}", p.unwrap_or(1.0)))
        }
    }

    let a = A;
    let b = B;
    let c = C;
    let d = D;
    let chain = a.chain(b).chain(c).chain(d);
    let mut value = Value::Boolean(true);
    let res: String = chain.execute(&mut value, None as Option<()>).unwrap();
    assert_eq!(res, "f: 1");
}

#[test]
fn compile_test_4() {
    type Result<T> = ::std::result::Result<T, ErrorKind>;

    struct A;
    impl Query<(), ErrorKind> for A {
        type Output = Option<Value>;

        fn execute(&self, t: &mut Value, _p: Option<()>) -> Result<Self::Output> {
            t.read("foo").map(|o| o.map(Clone::clone))
        }
    }

    struct B;
    impl Query<Option<Value>, ErrorKind> for B {
        type Output = Option<(Value, Value)>;
        fn execute(&self, t: &mut Value, p: Option<Option<Value>>) -> Result<Self::Output> {
            let v2 = t.read("bar")?;

            match p {
                Some(Some(v1)) => match v2 {
                    Some(t) => Ok(Some((v1, t.clone()))),
                    None => Ok(None),
                },

                Some(None) => Ok(None),
                None => Ok(None),
            }
        }
    }

    // `foo = 1\nbar = 2`
    let mut toml: Value = Value::Table(vec![
        (String::from("foo"), Value::Integer(1)),
        (String::from("bar"), Value::Integer(2)),
    ]);
    let a = A;
    let b = B;
    let query = a.chain(b);
    let res: Result<Option<(Value, Value)>> = toml.query(&query);

    match res.unwrap() {
        Some((Value::Integer(1), Value::Integer(2))) => assert!(true),
        Some((_, _)) => assert!(false, "Wrong Value types"),
        None => assert!(false, "No result"),
    }
}

// Writes `value` at `path` and outputs the previous value.
struct Put {
    path: &'static str,
    value: i64,
    calls: Cell<u32>,
}

impl<P> Query<P, ErrorKind> for Put {
    type Output = Option<Value>;
    fn execute(&self, t: &mut Value, _p: Option<P>) -> std::result::Result<Self::Output, ErrorKind> {
        self.calls.set(self.calls.get() + 1);
        t.insert(self.path, Value::Integer(self.value))
    }
}

fn put(path: &'static str, value: i64) -> Put {
    Put { path, value, calls: Cell::new(0) }
}

fn two(a: Put, b: Put) -> Chain<Put, (), Put, ErrorKind> {
    <Put as Query<(), ErrorKind>>::chain(a, b)
}

// Appends the integer it is given to the array `log`, and outputs it plus one.
struct Step(i64);

impl Query<i64, ErrorKind> for Step {
    type Output = i64;
    fn execute(&self, t: &mut Value, p: Option<i64>) -> std::result::Result<i64, ErrorKind> {
        let n = p.unwrap_or(self.0);
        t.insert("log.[9999]", Value::Integer(n))?;
        Ok(n + 1)
    }
}

#[test]
fn chain_stops_at_the_first_error() {
    let chain = two(put("x.y", 1), put("z", 2));
    let mut doc = Value::Table(vec![(String::from("x"), Value::Integer(0))]);
    let before = doc.clone();
    let r = chain.execute(&mut doc, None as Option<()>);
    assert_eq!(r, Err(ErrorKind::QueryingValueAsTable(String::from("y"))));
    assert_eq!(chain.first.calls.get(), 1);
    assert_eq!(chain.second.calls.get(), 0);
    assert_eq!(doc, before);
}

#[test]
fn chain_associates() {
    let mut left_doc = Value::Table(vec![]);
    let mut right_doc = Value::Table(vec![]);
    let left = Step(10).chain(Step(0)).chain(Step(0));
    let right = Step(10).chain(Step(0).chain(Step(0)));
    let l = left.execute(&mut left_doc, None);
    let r = right.execute(&mut right_doc, None);
    assert_eq!(l, Ok(13));
    assert_eq!(l, r);
    assert_eq!(left_doc, right_doc);
    assert_eq!(
        left_doc.read("log").unwrap(),
        Some(&Value::Array(vec![Value::Integer(10), Value::Integer(11), Value::Integer(12)]))
    );
}

#[test]
fn reset_executor_restores_on_failure() {
    let mut doc = Value::Table(vec![(String::from("n"), Value::Integer(1))]);
    let before = doc.clone();
    {
        let mut exec = ResetExecutor::new(&mut doc);
        // the first step changes the document, the second fails
        let q = two(put("n", 2), put("n.[0]", 3));
        let r = exec.query(&q);
        assert_eq!(r, Err(ErrorKind::QueryingValueAsArray(0)));
    }
    assert_eq!(doc, before);
}

#[test]
fn reset_executor_keeps_success() {
    let mut doc = Value::Table(vec![]);
    {
        let mut exec = ResetExecutor::new(&mut doc);
        let r: std::result::Result<Option<Value>, ErrorKind> = exec.query::<Put, (), ErrorKind>(&put("a.b", 7));
        assert_eq!(r, Ok(None));
    }
    assert_eq!(doc.read("a.b").unwrap(), Some(&Value::Integer(7)));
}

#[test]
fn plain_executor_keeps_partial_work() {
    let mut doc = Value::Table(vec![(String::from("n"), Value::Integer(1))]);
    let q = two(put("n", 2), put("n.[0]", 3));
    let r = doc.query(&q);
    assert_eq!(r, Err(ErrorKind::QueryingValueAsArray(0)));
    assert_eq!(doc.read("n").unwrap(), Some(&Value::Integer(2)));
}

#[test]
fn query_or_reset_is_all_or_nothing() {
    let mut doc = Value::Table(vec![(String::from("n"), Value::Integer(1))]);
    let before = doc.clone();
    let r = query_or_reset(&mut doc, &two(put("m", 5), put("n.x", 3)));
    assert_eq!(r, Err(ErrorKind::QueryingValueAsTable(String::from("x"))));
    assert_eq!(doc, before);
    let r = query_or_reset(&mut doc, &two(put("m", 5), put("n", 3)));
    assert_eq!(r, Ok(Some(Value::Integer(1))));
    assert_eq!(doc.read("m").unwrap(), Some(&Value::Integer(5)));
    assert_eq!(doc.read("n").unwrap(), Some(&Value::Integer(3)));
}
