use ducc::{Ducc, Error, HostCallbacks, Invocation, NoCallbacks, Value};

struct Plain;

impl HostCallbacks for Plain {
    fn invoke(&mut self, ducc: &mut Ducc, _id: u64, inv: Invocation) -> Result<Value, Error> {
        ducc.drop_value(inv.this);
        ducc.drop_values(inv.args);
        Ok(Value::Undefined)
    }
}

#[test]
fn object_len() {
    let mut ducc = Ducc::new();
    let object = ducc.create_object();
    assert_eq!(object.len(&mut ducc, &mut NoCallbacks).unwrap(), 0);
}

#[test]
fn object_set_get() {
    let mut ducc = Ducc::new();
    let mut cbs = Plain;

    let object = ducc.create_object();
    object.set(&mut ducc, &mut cbs, "a", 123i64).unwrap();
    object.set(&mut ducc, &mut cbs, 123i64, "a").unwrap();
    let parent = ducc.create_object();
    parent.set(&mut ducc, &mut cbs, "obj", object).unwrap();
    let object: ducc::Object = parent.get(&mut ducc, &mut cbs, "obj").unwrap();
    assert_eq!(object.get::<_, i64, _>(&mut ducc, &mut cbs, "a").unwrap(), 123);
    assert_eq!(object.get::<_, String, _>(&mut ducc, &mut cbs, "a").unwrap(), "123");
    assert_eq!(object.get::<_, String, _>(&mut ducc, &mut cbs, "123").unwrap(), "a");
    assert_eq!(object.get::<_, String, _>(&mut ducc, &mut cbs, 123i64).unwrap(), "a");
}

#[test]
fn removing_keys_is_idempotent() {
    let mut ducc = Ducc::new();
    let mut cbs = Plain;
    let object = ducc.create_object();
    object.set(&mut ducc, &mut cbs, "gone", 1i64).unwrap();
    assert!(object.contains_key(&mut ducc, "gone").unwrap());
    object.remove(&mut ducc, "gone").unwrap();
    assert!(!object.contains_key(&mut ducc, "gone").unwrap());
    // Removing keys that don't exist does nothing:
    object.remove(&mut ducc, "gone").unwrap();
    assert!(!object.contains_key(&mut ducc, "gone").unwrap());
}

struct AddBase;

impl HostCallbacks for AddBase {
    fn invoke(&mut self, ducc: &mut Ducc, _id: u64, inv: Invocation) -> Result<Value, Error> {
        let this: ducc::Object = ducc::FromValue::from_value(inv.this, ducc)?;
        let (acc,): (usize,) = inv.args.into(ducc)?;
        let base: usize = this.get(ducc, &mut AddBase, "base").unwrap();
        ducc::ToValue::to_value(base + acc, ducc)
    }
}

#[test]
fn object_call_prop() {
    let mut ducc = Ducc::new();
    let mut cbs = AddBase;
    let object = ducc.create_object();
    object.set(&mut ducc, &mut cbs, "base", 123i64).unwrap();
    let add = ducc.create_function(1);
    object.set(&mut ducc, &mut cbs, "add", add).unwrap();
    let number: i64 = object.call_prop(&mut ducc, &mut cbs, "add", (456i64,)).unwrap();
    assert_eq!(number, 579);
}

#[test]
fn coercion_exact_values() {
    let mut ducc = Ducc::new();
    assert!(!ducc.coerce_boolean(Value::Undefined));
    assert!(!ducc.coerce_boolean(Value::Null));
    assert!(ducc.coerce_boolean(Value::Number(ducc::Number::Int(1))));
    assert!(!ducc.coerce_boolean(Value::Number(ducc::Number::Int(0))));
    assert!(!ducc.coerce_boolean(Value::Number(ducc::Number::NaN)));
    let s = ducc.create_string("").unwrap();
    assert!(!ducc.coerce_boolean(Value::String(s)));
    let s = ducc.create_string("x").unwrap();
    assert!(ducc.coerce_boolean(Value::String(s)));

    let s = ducc.create_string("  -42  ").unwrap();
    assert_eq!(ducc.coerce_number(Value::String(s)).unwrap(), ducc::Number::Int(-42));
    let s = ducc.create_string("oops").unwrap();
    assert_eq!(ducc.coerce_number(Value::String(s)).unwrap(), ducc::Number::NaN);
    let s = ducc.create_string("").unwrap();
    assert_eq!(ducc.coerce_number(Value::String(s)).unwrap(), ducc::Number::Int(0));
    assert_eq!(ducc.coerce_number(Value::Null).unwrap(), ducc::Number::Int(0));
    assert_eq!(ducc.coerce_number(Value::Undefined).unwrap(), ducc::Number::NaN);

    let n = ducc.coerce_string(Value::Number(ducc::Number::Int(-7))).unwrap();
    assert_eq!(n.to_string(&ducc).unwrap(), "-7");
    let n = ducc.coerce_string(Value::Undefined).unwrap();
    assert_eq!(n.to_string(&ducc).unwrap(), "undefined");
    let n = ducc.coerce_string(Value::Boolean(true)).unwrap();
    assert_eq!(n.to_string(&ducc).unwrap(), "true");
}

#[test]
fn array_text_joins_elements() {
    let mut ducc = Ducc::new();
    let a = ducc.create_array();
    a.push(&mut ducc, 1i64).unwrap();
    a.push(&mut ducc, 2i64).unwrap();
    a.push(&mut ducc, 3i64).unwrap();
    let s = ducc.coerce_string(Value::Array(a)).unwrap();
    assert_eq!(s.to_string(&ducc).unwrap(), "1,2,3");
}

#[test]
fn object_properties() {
    let mut ducc = Ducc::new();
    let mut cbs = Plain;

    let object = ducc.create_object();
    object.set(&mut ducc, &mut cbs, "a", 123i64).unwrap();
    object.set(&mut ducc, &mut cbs, 4i64, Value::Undefined).unwrap();
    object.set(&mut ducc, &mut cbs, 123i64, "456").unwrap();

    let mut props = object.properties(&ducc);
    let mut list: Vec<(String, usize)> = Vec::new();
    while let Some(step) = props.next(&mut ducc, &mut cbs) {
        let (k, v) = step.unwrap();
        let k: String = ducc::FromValue::from_value(k, &mut ducc).unwrap();
        let v: usize = ducc::FromValue::from_value(v, &mut ducc).unwrap();
        list.push((k, v));
    }
    assert_eq!(
        list,
        vec![("4".to_string(), 0), ("123".to_string(), 456), ("a".to_string(), 123)]
    );
}

struct GetSet;

impl HostCallbacks for GetSet {
    fn invoke(&mut self, ducc: &mut Ducc, id: u64, inv: Invocation) -> Result<Value, Error> {
        match id {
            1 => {
                ducc.drop_value(inv.this);
                ducc.drop_values(inv.args);
                ducc::ToValue::to_value(24i64, ducc)
            }
            2 => {
                ducc.drop_value(inv.this);
                let (a,): (i64,) = inv.args.into(ducc)?;
                let g = ducc.globals();
                g.set(ducc, &mut Plain, "c_value", a).unwrap();
                Ok(Value::Undefined)
            }
            _ => {
                ducc.drop_value(inv.this);
                ducc.drop_values(inv.args);
                Ok(Value::Undefined)
            }
        }
    }
}

#[test]
fn define_prop() {
    let mut ducc = Ducc::new();
    let mut cbs = GetSet;
    let object = ducc.create_object();

    let val = ducc::ToValue::to_value(123i64, &mut ducc).unwrap();
    object
        .define_prop(&mut ducc, "a", ducc::PropertyDescriptor::new().writable(true).value(val))
        .unwrap();
    assert_eq!(object.get::<_, i64, _>(&mut ducc, &mut cbs, "a").unwrap(), 123);

    let get = ducc.create_function(1);
    object
        .define_prop(&mut ducc, "b", ducc::PropertyDescriptor::new().getter(get))
        .unwrap();
    assert_eq!(object.get::<_, i64, _>(&mut ducc, &mut cbs, "b").unwrap(), 24);

    let set = ducc.create_function(2);
    object
        .define_prop(&mut ducc, "c", ducc::PropertyDescriptor::new().setter(set))
        .unwrap();
    object.set(&mut ducc, &mut cbs, "c", 24i64).unwrap();
    let g = ducc.globals();
    assert_eq!(g.get::<_, i64, _>(&mut ducc, &mut cbs, "c_value").unwrap(), 24);
}

#[test]
fn define_prop_error() {
    let mut ducc = Ducc::new();
    let object = ducc.create_object();
    let func = ducc.create_function(1);
    let desc = ducc::PropertyDescriptor::new().writable(true).getter(func);
    let err = object.define_prop(&mut ducc, "a", desc).unwrap_err();
    assert_eq!(vec!["invalid descriptor".to_string()], err.context);
}

#[test]
fn create_object_from_pairs() {
    let mut ducc = Ducc::new();
    let mut cbs = Plain;
    let pairs = vec![("a", 1i64), ("b", 2i64)];
    let object = ducc.create_object_from(&mut cbs, pairs).unwrap();
    assert_eq!(object.get::<_, i64, _>(&mut ducc, &mut cbs, "a").unwrap(), 1);
    assert_eq!(object.get::<_, i64, _>(&mut ducc, &mut cbs, "b").unwrap(), 2);
    assert!(!object.contains_key(&mut ducc, "c").unwrap());
}

#[test]
fn call_prop_not_a_function() {
    let mut ducc = Ducc::new();
    let mut cbs = Plain;
    let object = ducc.create_object();
    object.set(&mut ducc, &mut cbs, "base", 123i64).unwrap();
    let err = object
        .call_prop::<_, _, i64, _>(&mut ducc, &mut cbs, "base", (456i64,))
        .unwrap_err();
    assert!(matches!(err.kind, ducc::ErrorKind::NotAFunction));
    let err = object
        .call_prop::<_, _, i64, _>(&mut ducc, &mut cbs, "absent", (456i64,))
        .unwrap_err();
    assert!(matches!(err.kind, ducc::ErrorKind::NotAFunction));
}

#[test]
fn define_prop_writable_with_accessor_is_invalid() {
    let mut ducc = Ducc::new();
    let object = ducc.create_object();
    let getter = ducc.create_function(1);
    let setter = ducc.create_function(2);
    let desc = ducc::PropertyDescriptor::new().writable(false).getter_setter(getter, setter);
    let err = object.define_prop(&mut ducc, "a", desc).unwrap_err();
    assert_eq!(vec!["invalid descriptor".to_string()], err.context);
}
