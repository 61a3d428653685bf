use ducc::{Ducc, FromValue, FromValues, ToValue, ToValues, Value, Values, Variadic};

#[test]
fn option() {
    let mut ducc = Ducc::new();

    let none_val = None::<usize>.to_value(&mut ducc).unwrap();
    assert!(none_val.is_null());
    let num_val = Some(123usize).to_value(&mut ducc).unwrap();
    assert!(num_val.is_number());

    let none: Option<usize> = FromValue::from_value(none_val, &mut ducc).unwrap();
    assert_eq!(none, None::<usize>);
    let undefined: Option<usize> = FromValue::from_value(Value::Undefined, &mut ducc).unwrap();
    assert_eq!(undefined, None::<usize>);
    let num_val = Some(123usize).to_value(&mut ducc).unwrap();
    let some_num: Option<usize> = FromValue::from_value(num_val, &mut ducc).unwrap();
    assert_eq!(some_num, Some(123));
    let num_val = Some(123usize).to_value(&mut ducc).unwrap();
    let num: usize = FromValue::from_value(num_val, &mut ducc).unwrap();
    assert_eq!(num, 123);
    let none_val = None::<usize>.to_value(&mut ducc).unwrap();
    let num_zero: usize = FromValue::from_value(none_val, &mut ducc).unwrap();
    assert_eq!(num_zero, 0);
}

#[test]
fn variadic() {
    let mut ducc = Ducc::new();
    let values = (true, false, true).to_values(&mut ducc).unwrap();

    let var: Variadic<bool> = FromValues::from_values(values, &mut ducc).unwrap();
    assert_eq!(var.into_vec(), vec![true, false, true]);

    let values = (true, Variadic::from_vec(vec![false, true])).to_values(&mut ducc).unwrap();
    let var: Variadic<bool> = FromValues::from_values(values, &mut ducc).unwrap();
    assert_eq!(var.into_vec(), vec![true, false, true]);
}

#[test]
fn tuple() {
    let mut ducc = Ducc::new();

    let values = (true, false, true).to_values(&mut ducc).unwrap();
    let out: (bool, bool, bool) = FromValues::from_values(values, &mut ducc).unwrap();
    assert_eq!((true, false, true), out);

    let values = (true, false, true).to_values(&mut ducc).unwrap();
    let out: (bool, bool) = FromValues::from_values(values, &mut ducc).unwrap();
    assert_eq!((true, false), out);

    let values = (true, false, true).to_values(&mut ducc).unwrap();
    let (a, b, c, d, e): (bool, bool, bool, Value, Value) =
        FromValues::from_values(values, &mut ducc).unwrap();
    assert_eq!((true, false, true), (a, b, c));
    assert!(d.is_undefined());
    assert!(e.is_undefined());

    let values = (true, false, true).to_values(&mut ducc).unwrap();
    let (a, var): (bool, Variadic<bool>) = FromValues::from_values(values, &mut ducc).unwrap();
    assert_eq!(true, a);
    assert_eq!(var.into_vec(), vec![false, true]);

    let values = (true, false, true).to_values(&mut ducc).unwrap();
    let (a, b, c, d, var): (bool, bool, bool, bool, Variadic<bool>) =
        FromValues::from_values(values, &mut ducc).unwrap();
    assert_eq!((true, false, true, false), (a, b, c, d));
    assert_eq!(var.into_vec(), Vec::<bool>::new());
}

#[test]
fn values_and_variadic_basics() {
    let mut ducc = Ducc::new();
    let empty = Values::new();
    assert_eq!(empty.len(), 0);
    let vs = Values::from_vec(vec![Value::Boolean(true), Value::Null]);
    assert_eq!(vs.len(), 2);
    assert!(vs.get(0).unwrap().is_boolean());
    assert!(vs.get(2).is_none());
    let b: bool = vs.from(&mut ducc, 0).unwrap();
    assert!(b);
    let tail: Vec<Value> = vs.into_vec();
    assert_eq!(tail.len(), 2);

    let none: Variadic<bool> = Variadic::new();
    assert_eq!(none.into_vec().len(), 0);

    let n = ducc::Number::NaN;
    assert!(n.is_nan());
    assert_eq!(n.as_i64(), None);
    let n = ducc::Number::Int(9);
    assert!(!n.is_nan());
    assert_eq!(n.as_i64(), Some(9));
}

#[test]
fn vec() {
    let vec = vec![1i64, 2i64, 3i64];
    let mut ducc = Ducc::new();
    let array = ducc.create_array_from(vec).unwrap();
    let list: Vec<i64> = array.into_vec(&mut ducc).unwrap();
    assert_eq!(list, vec![1i64, 2i64, 3i64]);
}

#[test]
fn vec_of_strings_round_trips() {
    let mut ducc = Ducc::new();
    let array = ducc.create_array_from(vec!["a", "b", "c"]).unwrap();
    let list: Vec<String> = array.into_vec(&mut ducc).unwrap();
    assert_eq!(list, vec!["a".to_string(), "b".to_string(), "c".to_string()]);
}
