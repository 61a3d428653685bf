use ducc::{Ducc, NoCallbacks, Value};

#[test]
fn no_duktape_global() {
    let mut ducc = Ducc::new();
    let globals = ducc.globals();
    assert!(!globals.contains_key(&mut ducc, "Duktape").unwrap());
}

#[test]
fn timeout_deadline_predicate() {
    let mut ducc = Ducc::new();
    let udata = ducc.udata();
    udata.set_timeout(500);
    let now = std::time::SystemTime::now()
        .duration_since(std::time::SystemTime::UNIX_EPOCH)
        .unwrap()
        .as_millis() as u64;
    assert!(!udata.timeout_triggered(now));
    assert!(udata.timeout_triggered(now + 100_000));
    udata.clear_timeout();
    assert!(!udata.timeout_triggered(now + 100_000));
}

#[test]
fn exec_clears_settings() {
    let mut ducc = Ducc::new();
    let mut cbs = NoCallbacks;
    let settings = ducc::ExecSettings { cancel_fn: Some(7) };
    let r: Result<Value, _> = ducc.exec("for (;;) {}", None, settings, &mut cbs);
    // Script execution needs the engine's interpreter, which is not part
    // of this library: the call reports an error, and the one-shot
    // settings are cleared again.
    assert!(r.is_err());
}

#[test]
fn value_round_trip_primitives() {
    let mut ducc = Ducc::new();
    ducc.push_value(Value::Boolean(true));
    let v = ducc.pop_value();
    assert_eq!(v.as_boolean(), Some(true));

    ducc.push_value(Value::Number(ducc::Number::Int(42)));
    let v = ducc.pop_value();
    match v.as_number() {
        Some(ducc::Number::Int(42)) => {}
        other => panic!("wrong round trip: {:?}", other),
    }

    ducc.push_value(Value::Null);
    assert!(ducc.pop_value().is_null());
    ducc.push_value(Value::Undefined);
    assert!(ducc.pop_value().is_undefined());
}

#[test]
fn value_round_trip_reference_identity() {
    let mut ducc = Ducc::new();
    let o = ducc.create_object();
    o.set(&mut ducc, &mut NoCallbacks, "tag", 7i64).unwrap();
    ducc.push_value(Value::Object(o));
    let v = ducc.pop_value();
    // The popped handle designates the same heap cell: the property
    // written through the first handle is visible through the second.
    match v {
        Value::Object(o2) => {
            let got: i64 = o2.get(&mut ducc, &mut NoCallbacks, "tag").unwrap();
            assert_eq!(got, 7);
        }
        other => panic!("expected an object back, got {}", other.is_undefined()),
    }
}

#[test]
fn clone_then_drop_keeps_the_other() {
    let mut ducc = Ducc::new();
    let s = ducc.create_string("shared").unwrap();
    let v1 = Value::String(s);
    let v2 = ducc.clone_value(&v1);
    ducc.drop_value(v1);
    match v2 {
        Value::String(s2) => {
            assert_eq!(s2.to_string(&ducc).unwrap(), "shared");
        }
        other => panic!("expected a string, got another kind (undefined: {})", other.is_undefined()),
    }
}

#[test]
fn coerce_number_hex_strings() {
    let mut ducc = Ducc::new();
    let s = ducc.create_string("0x10").unwrap();
    assert_eq!(ducc.coerce_number(Value::String(s)).unwrap(), ducc::Number::Int(16));
    let s = ducc.create_string(" 0X1f ").unwrap();
    assert_eq!(ducc.coerce_number(Value::String(s)).unwrap(), ducc::Number::Int(31));
    // A sign before the prefix is not a number, as the engine has it.
    let s = ducc.create_string("+0x10").unwrap();
    assert_eq!(ducc.coerce_number(Value::String(s)).unwrap(), ducc::Number::NaN);
    let s = ducc.create_string("0x").unwrap();
    assert_eq!(ducc.coerce_number(Value::String(s)).unwrap(), ducc::Number::NaN);
    let s = ducc.create_string("0x1g").unwrap();
    assert_eq!(ducc.coerce_number(Value::String(s)).unwrap(), ducc::Number::NaN);
}

#[test]
fn conversion_error_classifies_as_type_error() {
    let e = ducc::Error::to_js_conversion("f64", "number");
    assert!(matches!(e.kind, ducc::ErrorKind::ToJsConversionError { .. }));
    let desc = e.into_runtime_error_desc();
    assert!(matches!(desc.code, ducc::RuntimeErrorCode::TypeError));
    assert_eq!(desc.name, "TypeError");
}
