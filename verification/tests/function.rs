use ducc::{Ducc, Error, ErrorKind, Function, HostCallbacks, Invocation, Value};

/// A dispatcher that adds the `this` binding (when numeric) and the two
/// leading arguments.
struct Arith;

impl HostCallbacks for Arith {
    fn invoke(&mut self, ducc: &mut Ducc, _id: u64, inv: Invocation) -> Result<Value, Error> {
        let this: usize = ducc::FromValue::from_value(inv.this, ducc)?;
        let (a, b): (usize, usize) = inv.args.into(ducc)?;
        ducc::ToValue::to_value(this + a + b, ducc)
    }
}

/// A dispatcher whose function ignores its arguments and returns nothing.
struct Unit;

impl HostCallbacks for Unit {
    fn invoke(&mut self, ducc: &mut Ducc, _id: u64, inv: Invocation) -> Result<Value, Error> {
        ducc.drop_value(inv.this);
        ducc.drop_values(inv.args);
        Ok(Value::Undefined)
    }
}

#[test]
fn function_rust_function() {
    let mut ducc = Ducc::new();
    let mut cbs = Arith;
    let func = ducc.create_function(1);
    let value: i64 = func.call(&mut ducc, &mut cbs, (1i64, 2i64)).unwrap();
    assert_eq!(3, value);

    let g = ducc.globals();
    g.set(&mut ducc, &mut cbs, "add", func).unwrap();
    let func: Function = g.get(&mut ducc, &mut cbs, "add").unwrap();
    let value: i64 = func.call(&mut ducc, &mut cbs, (4i64, 5i64)).unwrap();
    assert_eq!(9, value);
}

#[test]
fn function_rust_closure() {
    let mut ducc = Ducc::new();
    let mut cbs = Arith;
    let func = ducc.create_function(2);
    let value: i64 = func.call(&mut ducc, &mut cbs, (1i64, 2i64)).unwrap();
    assert_eq!(3, value);
}

#[test]
fn function_double_drop_rust_function() {
    let mut ducc = Ducc::new();
    let func = ducc.create_function(3);
    let v1 = Value::Function(func);
    let v2 = ducc.clone_value(&v1);
    ducc.drop_value(v1);
    ducc.drop_value(v2);
    // Each handle releases only its own registry entry.
}

#[test]
fn function_return_unit() {
    let mut ducc = Ducc::new();
    let mut cbs = Unit;
    let func = ducc.create_function(4);
    let _: () = func.call(&mut ducc, &mut cbs, ()).unwrap();
    let _: () = func.call(&mut ducc, &mut cbs, (123i64,)).unwrap();
    let number_cast: usize = func.call(&mut ducc, &mut cbs, ()).unwrap();
    assert_eq!(number_cast, 0);
}

#[test]
fn function_number_this() {
    let mut ducc = Ducc::new();
    let mut cbs = Arith;
    let func = ducc.create_function(5);

    let value: i64 = func.call_method(&mut ducc, &mut cbs, 10i64, (20i64, 0i64)).unwrap();
    assert_eq!(30, value);
    let value: i64 = func.call(&mut ducc, &mut cbs, (1i64,)).unwrap();
    assert_eq!(1, value);
}

/// A dispatcher with mutable state whose function re-enters itself
/// through the global `f` unless told to stop.
struct Reenter {
    state: Option<Box<i64>>,
}

impl HostCallbacks for Reenter {
    fn invoke(&mut self, ducc: &mut Ducc, _id: u64, inv: Invocation) -> Result<Value, Error> {
        ducc.drop_value(inv.this);
        let (mutate,): (bool,) = inv.args.into(ducc)?;
        if mutate {
            self.state = None;
        } else {
            let _borrow = self.state.as_mut();
            let g = ducc.globals();
            let f: Function = g.get(ducc, &mut Recurse, "f")?;
            let _: () = f.call(ducc, &mut Recurse, (true,))?;
            panic!("mutable aliasing would have occurred");
        }
        Ok(Value::Undefined)
    }
}

/// Stand-in dispatcher used for the nested lookups in the re-entrancy
/// test; the nested call itself goes back through the engine's re-entry
/// flag before any host state is touched.
struct Recurse;

impl HostCallbacks for Recurse {
    fn invoke(&mut self, _ducc: &mut Ducc, _id: u64, _inv: Invocation) -> Result<Value, Error> {
        Err(Error::recursive_mut_callback())
    }
}

#[test]
fn function_rust_closure_mut_callback_error() {
    let mut ducc = Ducc::new();
    let mut cbs = Reenter { state: Some(Box::new(123)) };

    let f = ducc.create_function_mut(6);
    let g = ducc.globals();
    g.set(&mut ducc, &mut cbs, "f", f).unwrap();
    let f: Function = g.get(&mut ducc, &mut cbs, "f").unwrap();
    match f.call::<_, (), _>(&mut ducc, &mut cbs, (false,)) {
        Err(Error { kind: ErrorKind::RecursiveMutCallback, .. }) => {}
        other => panic!("incorrect result: {:?}", other),
    }
}

#[test]
fn host_error_round_trips_exactly() {
    struct Failing;
    impl HostCallbacks for Failing {
        fn invoke(&mut self, ducc: &mut Ducc, _id: u64, inv: Invocation) -> Result<Value, Error> {
            ducc.drop_value(inv.this);
            ducc.drop_values(inv.args);
            let e = Error::external("it broke");
            Err(ducc::ResultExt::js_err_context(e, "while testing"))
        }
    }
    let mut ducc = Ducc::new();
    let mut cbs = Failing;
    let func = ducc.create_function(7);
    let r: Result<Value, Error> = func.call(&mut ducc, &mut cbs, ());
    match r {
        Err(e) => {
            match e.kind {
                ErrorKind::ExternalError { message: Some(m), .. } => {
                    assert_eq!(m, "it broke");
                }
                other => panic!("lost the error's structure: {:?}", other),
            }
            assert_eq!(e.context, vec!["while testing".to_string()]);
        }
        Ok(_) => panic!("expected the callback's error"),
    }
}

#[test]
fn calling_compiled_unit_reports_missing_interpreter() {
    let mut ducc = Ducc::new();
    let mut cbs = Unit;
    let func = ducc.compile("(function(x, y) { return x + y; })", None).unwrap();
    let r: Result<Value, Error> = func.call(&mut ducc, &mut cbs, ());
    match r {
        Err(Error { kind: ErrorKind::RuntimeError { .. }, .. }) => {}
        other => panic!("expected a runtime error, got ok: {}", other.is_ok()),
    }
}

/// A dispatcher whose function stores its first argument on `this` under
/// the key `x` and returns the constructed object.
struct StoreX;

impl HostCallbacks for StoreX {
    fn invoke(&mut self, ducc: &mut Ducc, _id: u64, inv: Invocation) -> Result<Value, Error> {
        let this: ducc::Object = ducc::FromValue::from_value(inv.this, ducc)?;
        let mut args = inv.args.into_vec();
        let x = ducc::take_arg(&mut args);
        ducc.drop_values(ducc::Values::from_vec(args));
        this.set(ducc, &mut StoreX, "x", x).unwrap();
        ducc::ToValue::to_value(this, ducc)
    }
}

#[test]
fn call_new_constructs_object() {
    let mut ducc = Ducc::new();
    let mut cbs = StoreX;
    let func = ducc.create_function(1);
    let object: ducc::Object = func.call_new(&mut ducc, &mut cbs, (10i64,)).unwrap();
    assert_eq!(object.get::<_, i64, _>(&mut ducc, &mut cbs, "x").unwrap(), 10);
}

/// A dispatcher whose function ignores everything and returns a number.
struct GiveSeven;

impl HostCallbacks for GiveSeven {
    fn invoke(&mut self, ducc: &mut Ducc, _id: u64, inv: Invocation) -> Result<Value, Error> {
        ducc.drop_value(inv.this);
        ducc.drop_values(inv.args);
        ducc::ToValue::to_value(7i64, ducc)
    }
}

#[test]
fn call_new_primitive_return_yields_fresh_this() {
    let mut ducc = Ducc::new();
    let mut cbs = GiveSeven;
    let func = ducc.create_function(1);
    // The callee returns a number, which is not of object nature: the
    // construction yields the fresh `this` object instead.
    let v: Value = func.call_new(&mut ducc, &mut cbs, ()).unwrap();
    assert!(v.is_object());
    ducc.drop_value(v);
}

#[test]
fn error_context_displays_innermost_first() {
    let e = Error::external("it broke");
    let e = ducc::ResultExt::js_err_context(e, "inner");
    let e = ducc::ResultExt::js_err_context(e, "outer");
    let desc = e.into_runtime_error_desc();
    // Context accumulates as the error propagates outward and is
    // displayed innermost first, the host payload's own message last.
    assert_eq!(desc.message.unwrap(), "inner: outer: it broke");
}
