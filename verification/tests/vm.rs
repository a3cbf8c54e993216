use qalam::value::{Arity, Object, Value};
use qalam::vm::{absolute_index, Frame, Vm};

fn text_of(v: &Value) -> String {
    match v {
        Value::Object(Object::String(s)) => s.clone(),
        _ => panic!("not a string value"),
    }
}

#[test]
fn fixed_arity_accepts_exact_count() {
    assert!(Vm::check_arity(Arity::Fixed(2), 2).is_ok());
    let err = Vm::check_arity(Arity::Fixed(2), 3).unwrap_err();
    assert_eq!(text_of(&err), "توقعت عدد 2 من المدخلات ولكن حصلت على 3 بدلاً من ذللك");
    assert!(Vm::check_arity(Arity::Fixed(0), 1).is_err());
}

#[test]
fn variadic_arity_accepts_at_least() {
    assert!(Vm::check_arity(Arity::Variadic(1), 1).is_ok());
    assert!(Vm::check_arity(Arity::Variadic(1), 5).is_ok());
    let err = Vm::check_arity(Arity::Variadic(2), 1).unwrap_err();
    assert_eq!(text_of(&err), "توقعت على الأقل عدد 2 من المدخلات ولكن حصلت على 1 بدلاً من ذلك");
}

#[test]
fn indices_count_from_either_end() {
    assert_eq!(absolute_index(0, 3), Ok(0));
    assert_eq!(absolute_index(2, 3), Ok(2));
    assert_eq!(absolute_index(3, 3), Err(()));
    assert_eq!(absolute_index(-1, 3), Ok(2));
    assert_eq!(absolute_index(-3, 3), Ok(0));
    assert_eq!(absolute_index(-4, 3), Err(()));
    assert_eq!(absolute_index(0, 0), Err(()));
}

fn machine_with(values: Vec<Value>) -> (Vm, Frame) {
    let mut vm = Vm::new(&vec!["print".to_string(), "len".to_string()]);
    let frame = Frame::new_native(0, 0, None);
    for v in values {
        frame.push(&mut vm, v);
    }
    (vm, frame)
}

#[test]
fn native_arguments_by_kind() {
    let (vm, frame) = machine_with(vec![
        Value::new_string("abc".to_string()),
        Value::new_string("x".to_string()),
        Value::Object(Object::List(7)),
        Value::Object(Object::Object(4)),
        Value::Object(Object::File(2)),
        Value::Nil,
    ]);
    assert_eq!(frame.nth_string(&vm, 0).unwrap(), "abc");
    assert_eq!(frame.nth_char(&vm, 1).unwrap(), 'x');
    assert_eq!(frame.nth_list(&vm, 2).unwrap(), 7);
    assert_eq!(frame.nth_object(&vm, 3).unwrap(), 4);
    assert_eq!(frame.nth_file(&vm, 4).unwrap(), 2);
    assert!(matches!(frame.nth(&vm, 5), Value::Nil));
}

#[test]
fn native_argument_errors_name_the_argument() {
    let (vm, frame) = machine_with(vec![Value::Nil, Value::new_string("ab".to_string())]);
    assert_eq!(text_of(&frame.nth_string(&vm, 0).unwrap_err()), "يجب أن يكون المدخل 0 نص");
    assert_eq!(
        text_of(&frame.nth_char(&vm, 1).unwrap_err()),
        "يجب أن يكون المدخل 1 نص ذي حرف واحد"
    );
    assert_eq!(text_of(&frame.nth_list(&vm, 0).unwrap_err()), "يجب أن يكون المدخل 0 قائمة");
    assert_eq!(text_of(&frame.nth_object(&vm, 1).unwrap_err()), "يجب أن يكون المدخل 1 مجموعة");
    assert_eq!(text_of(&frame.nth_file(&vm, 0).unwrap_err()), "يجب أن يكون المدخل 0 ملف");
}

#[test]
fn arguments_start_at_the_frame_slot() {
    let (vm, _) = machine_with(vec![Value::Bool(true), Value::new_string("q".to_string())]);
    let frame = Frame::new_native(1, 1, None);
    assert_eq!(frame.nth_char(&vm, 0).unwrap(), 'q');
}

#[test]
fn stack_push_and_pop() {
    let (mut vm, frame) = machine_with(vec![Value::Bool(true)]);
    frame.push(&mut vm, Value::Number(3.5f64.to_bits()));
    match frame.pop(&mut vm) {
        Value::Number(bits) => assert_eq!(f64::from_bits(bits), 3.5),
        _ => panic!("expected a number"),
    }
    assert!(matches!(frame.pop(&mut vm), Value::Bool(true)));
}

#[test]
fn creation_time_is_not_in_the_future() {
    let (vm, frame) = machine_with(vec![]);
    assert!(*frame.get_creation_time(&vm) <= std::time::SystemTime::now());
}

#[test]
fn cloned_values_keep_their_contents() {
    let v = Value::new_string("نص".to_string());
    assert_eq!(text_of(&v.clone()), "نص");
}
