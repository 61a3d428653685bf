use ducc::{Ducc, FromValue, Value};

#[test]
fn array_set_get() {
    let mut ducc = Ducc::new();

    let array = ducc.create_array();
    array.set(&mut ducc, 0, 123i64).unwrap();
    array.set(&mut ducc, 2, 456i64).unwrap();
    assert_eq!(array.get::<String>(&mut ducc, 0).unwrap(), "123");
    assert!(array.get::<Value>(&mut ducc, 1).unwrap().is_undefined());
    assert_eq!(array.get::<String>(&mut ducc, 2).unwrap(), "456");
    assert!(array.get::<Value>(&mut ducc, 3).unwrap().is_undefined());
}

#[test]
fn array_len() {
    let mut ducc = Ducc::new();

    let array = ducc.create_array();
    assert_eq!(array.len(&ducc).unwrap(), 0);
    array.set(&mut ducc, 0, 123i64).unwrap();
    assert_eq!(array.len(&ducc).unwrap(), 1);
    array.set(&mut ducc, 2, 456i64).unwrap();
    assert_eq!(array.len(&ducc).unwrap(), 3);
}

#[test]
fn push() {
    let mut ducc = Ducc::new();

    let array = ducc.create_array();
    array.push(&mut ducc, 0i64).unwrap();
    array.push(&mut ducc, 1i64).unwrap();
    array.set(&mut ducc, 3, 3i64).unwrap();
    array.push(&mut ducc, 4i64).unwrap();
    assert_eq!(array.get::<usize>(&mut ducc, 0).unwrap(), 0);
    assert_eq!(array.get::<usize>(&mut ducc, 1).unwrap(), 1);
    assert!(array.get::<Value>(&mut ducc, 2).unwrap().is_undefined());
    assert_eq!(array.get::<usize>(&mut ducc, 3).unwrap(), 3);
    assert_eq!(array.get::<usize>(&mut ducc, 4).unwrap(), 4);
    assert_eq!(array.len(&ducc).unwrap(), 5);
}

#[test]
fn elements() {
    let mut ducc = Ducc::new();

    let array = ducc.create_array();
    array.push(&mut ducc, 0i64).unwrap();
    array.push(&mut ducc, 1i64).unwrap();
    array.set(&mut ducc, 3, 3i64).unwrap();
    array.push(&mut ducc, 4i64).unwrap();

    let mut els = array.elements();
    let mut list: Vec<usize> = Vec::new();
    while let Some(step) = els.next(&mut ducc) {
        let v = step.unwrap();
        list.push(usize::from_value(v, &mut ducc).unwrap());
    }
    assert_eq!(list, vec![0, 1, 0, 3, 4]);
}

#[test]
fn push_value_appends_exactly() {
    let mut ducc = Ducc::new();
    let array = ducc.create_array();
    array.push_value(&mut ducc, ducc::Value::Number(ducc::Number::Int(7))).unwrap();
    array.push_value(&mut ducc, ducc::Value::Number(ducc::Number::Int(8))).unwrap();
    assert_eq!(array.len(&ducc).unwrap(), 2);
    assert_eq!(array.get::<i64>(&mut ducc, 0).unwrap(), 7);
    assert_eq!(array.get::<i64>(&mut ducc, 1).unwrap(), 8);
}
