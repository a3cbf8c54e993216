use qalam::chunk::{Chunk, Instruction};
use qalam::token::{Token, TokenType};
use qalam::value::{Arity, Function, Object, Value};
use qalam::vm::step::{Semantics, Step};
use qalam::vm::{Backtrace, Frame, Vm};

const POP: u8 = 0;
const CONSTANT8: u8 = 1;
const CONSTANT16: u8 = 2;
const MULTIPLY: u8 = 6;
const DIVIDE: u8 = 7;
const REMAINDER: u8 = 8;
const EQUAL: u8 = 10;
const JUMP: u8 = 15;
const LOOP: u8 = 18;
const DEFINE_GLOBAL: u8 = 19;
const GET_GLOBAL: u8 = 21;
const GET_LOCAL: u8 = 22;
const SET_LOCAL: u8 = 23;
const CLOSURE: u8 = 28;
const CALL: u8 = 29;
const GET_UP_VALUE: u8 = 30;
const SET_UP_VALUE: u8 = 31;
const CLOSE_UP_VALUE: u8 = 32;
const RETURN: u8 = 33;
const APPEND_HANDLER: u8 = 34;
const POP_HANDLER: u8 = 35;
const THROW: u8 = 36;

type Native = fn(&Frame, &mut Vm, usize) -> Result<Value, Value>;

fn num(x: f64) -> Value {
    Value::Number(x.to_bits())
}

fn text(s: &str) -> Value {
    Value::new_string(s.to_string())
}

fn number_of(v: &Value) -> f64 {
    match v {
        Value::Number(b) => f64::from_bits(*b),
        _ => panic!("not a number"),
    }
}

fn text_of(v: &Value) -> String {
    match v {
        Value::Object(Object::String(s)) => s.clone(),
        _ => panic!("not a string"),
    }
}

fn function(name: &str, arity: u8, code: Vec<u8>, constants: Vec<Value>, line: usize) -> Function {
    let tokens = (0..code.len())
        .map(|i| Token { typ: TokenType::Identifier, start: i, length: 1, line, col: i + 1 })
        .collect();
    Function {
        name: Some(name.to_string()),
        arity: Arity::Fixed(arity),
        chunk: Chunk { code, constants, tokens },
        path: Some("/مشروع/رئيسي.ق".to_string()),
    }
}

fn semantics(vm: &Vm, instr: Instruction) -> Semantics {
    let top = |d: usize| vm.top(d).unwrap();
    let numbers = || match (top(1), top(0)) {
        (Value::Number(a), Value::Number(b)) => Some((f64::from_bits(*a), f64::from_bits(*b))),
        _ => None,
    };
    match instr {
        Instruction::Add => Semantics::Outcome(numbers().map(|(a, b)| num(a + b))),
        Instruction::Multiply => Semantics::Outcome(numbers().map(|(a, b)| num(a * b))),
        Instruction::Divide => Semantics::Outcome(numbers().map(|(a, b)| num(a / b))),
        Instruction::Remainder => Semantics::Outcome(numbers().map(|(a, b)| num(a % b))),
        Instruction::Equal => {
            Semantics::Outcome(Some(Value::Bool(numbers().map_or(false, |(a, b)| a == b))))
        }
        Instruction::DefineGlobal | Instruction::GetGlobal => Semantics::Name(text_of(top(0))),
        _ => Semantics::Nothing,
    }
}

fn run_frame(
    frame: &mut Frame,
    vm: &mut Vm,
    argc: usize,
    natives: &[Native],
) -> Result<Option<Value>, (Value, Backtrace)> {
    if let Some(i) = frame.native_index() {
        return natives[i](frame, vm, argc).map(Some).map_err(|v| (v, Backtrace::new()));
    }
    while let Some(instr) = frame.instruction(vm) {
        assert!(frame.admitted(vm), "{instr:?} cannot run here");
        let input = semantics(vm, instr);
        match frame.step(vm, input)? {
            Step::Next => {}
            Step::Return(v) => return Ok(Some(v)),
            Step::Call(mut callee, slot, argc) => {
                let outcome = run_frame(&mut callee, vm, argc, natives);
                assert!(!matches!(outcome, Ok(None)));
                assert!(frame.finish_admitted(vm));
                frame.op_call_finish(vm, slot, outcome)?;
            }
        }
    }
    Ok(None)
}

/// Runs `main` after registering `others` (the first gets function index
/// 0, and so on).
fn run(
    names: &[&str],
    natives: &[Native],
    others: Vec<Function>,
    main: Function,
) -> Result<Option<Value>, (Value, Backtrace)> {
    let mut vm = Vm::new(&names.iter().map(|s| s.to_string()).collect());
    for f in others {
        vm.alloc_function(f);
    }
    let mut frame = vm.start(main);
    let res = run_frame(&mut frame, &mut vm, 0, natives);
    if vm.top_is_free() {
        vm.end_program();
    }
    res
}

fn fails(res: Result<Option<Value>, (Value, Backtrace)>) -> (String, String) {
    match res {
        Err((v, bt)) => (text_of(&v), bt.text()),
        Ok(_) => panic!("expected an error"),
    }
}

#[test]
fn a_call_returns_in_place_of_the_callee() {
    // f(x) = x * x; main: f(3)
    let f = function("مربع", 1, vec![GET_LOCAL, 1, GET_LOCAL, 1, MULTIPLY, RETURN], vec![], 2);
    let main = function(
        "رئيسي",
        0,
        vec![CONSTANT8, 0, CLOSURE, 0, CONSTANT8, 1, CALL, 1, RETURN],
        vec![Value::Object(Object::Function(0)), num(3.0)],
        1,
    );
    let v = run(&[], &[], vec![f], main).ok().unwrap().unwrap();
    assert_eq!(number_of(&v), 9.0);
}

#[test]
fn a_call_with_the_wrong_count_is_refused_at_the_caller() {
    let f = function("مربع", 1, vec![GET_LOCAL, 1, RETURN], vec![], 2);
    let main = function(
        "رئيسي",
        0,
        vec![CONSTANT8, 0, CLOSURE, 0, CALL, 0, RETURN],
        vec![Value::Object(Object::Function(0))],
        1,
    );
    let (message, backtrace) = fails(run(&[], &[], vec![f], main));
    assert_eq!(message, "توقعت عدد 1 من المدخلات ولكن حصلت على 0 بدلاً من ذللك");
    assert_eq!(backtrace, "في رئيسي 1:5\n");
}

fn twice(frame: &Frame, vm: &mut Vm, _argc: usize) -> Result<Value, Value> {
    let bits = frame.nth_number(vm, 1)?;
    Ok(num(2.0 * f64::from_bits(bits)))
}

#[test]
fn natives_are_called_with_their_arguments() {
    let main = function(
        "رئيسي",
        0,
        vec![CONSTANT8, 0, GET_GLOBAL, CONSTANT8, 1, CALL, 1, RETURN],
        vec![text("ضعف"), num(21.0)],
        1,
    );
    let v = run(&["ضعف"], &[twice], vec![], main).ok().unwrap().unwrap();
    assert_eq!(number_of(&v), 42.0);
    let main = function(
        "رئيسي",
        0,
        vec![CONSTANT8, 0, GET_GLOBAL, CONSTANT8, 1, CALL, 1, RETURN],
        vec![text("ضعف"), text("x")],
        1,
    );
    let (message, backtrace) = fails(run(&["ضعف"], &[twice], vec![], main));
    assert_eq!(message, "يجب أن يكون المدخل 1 عدداً");
    assert_eq!(backtrace, "في رئيسي 1:6\n");
}

#[test]
fn a_handler_catches_a_throw() {
    // try { throw 7 } resumes at the handler with 7 on the stack
    let main = function(
        "رئيسي",
        0,
        vec![APPEND_HANDLER, 6, 0, CONSTANT8, 0, THROW, RETURN],
        vec![num(7.0)],
        1,
    );
    let v = run(&[], &[], vec![], main).ok().unwrap().unwrap();
    assert_eq!(number_of(&v), 7.0);
}

#[test]
fn an_uncaught_throw_leaves_with_a_backtrace() {
    let main = function("رئيسي", 0, vec![CONSTANT8, 0, THROW], vec![text("خلل")], 1);
    let (message, backtrace) = fails(run(&[], &[], vec![], main));
    assert_eq!(message, "خلل");
    assert_eq!(backtrace, "في رئيسي 1:3\n");
}

#[test]
fn a_popped_handler_catches_nothing() {
    let main = function(
        "رئيسي",
        0,
        vec![APPEND_HANDLER, 7, 0, POP_HANDLER, CONSTANT8, 0, THROW, RETURN],
        vec![text("خلل")],
        1,
    );
    let (message, _) = fails(run(&[], &[], vec![], main));
    assert_eq!(message, "خلل");
}

#[test]
fn an_error_in_a_callee_is_caught_by_the_caller() {
    let g = function("فاشل", 0, vec![CONSTANT8, 0, THROW], vec![text("خلل")], 2);
    let main = function(
        "رئيسي",
        0,
        vec![APPEND_HANDLER, 9, 0, CONSTANT8, 0, CLOSURE, 0, CALL, 0, RETURN],
        vec![Value::Object(Object::Function(0))],
        1,
    );
    let v = run(&[], &[], vec![g], main).ok().unwrap().unwrap();
    assert_eq!(text_of(&v), "خلل");
}

#[test]
fn an_uncaught_error_gathers_every_frame() {
    let g = function("فاشل", 0, vec![CONSTANT8, 0, THROW], vec![text("خلل")], 2);
    let main = function(
        "رئيسي",
        0,
        vec![CONSTANT8, 0, CLOSURE, 0, CALL, 0, RETURN],
        vec![Value::Object(Object::Function(0))],
        1,
    );
    let (message, backtrace) = fails(run(&[], &[], vec![g], main));
    assert_eq!(message, "خلل");
    assert_eq!(backtrace, "في فاشل 2:3\nفي رئيسي 1:5\n");
}

#[test]
fn closures_read_and_write_a_captured_local() {
    // local = 1; h captures it, sets it to 5 and returns it; main then reads the local
    let h = function(
        "مغلق",
        0,
        vec![CONSTANT8, 0, SET_UP_VALUE, 0, POP, GET_UP_VALUE, 0, RETURN],
        vec![num(5.0)],
        2,
    );
    let main = function(
        "رئيسي",
        0,
        vec![CONSTANT8, 0, CONSTANT8, 1, CLOSURE, 1, 1, 1, CALL, 0, POP, GET_LOCAL, 1, RETURN],
        vec![num(1.0), Value::Object(Object::Function(0))],
        1,
    );
    let v = run(&[], &[], vec![h], main).ok().unwrap().unwrap();
    assert_eq!(number_of(&v), 5.0);
}

#[test]
fn a_closed_variable_outlives_its_slot() {
    let h = function("مغلق", 0, vec![GET_UP_VALUE, 0, RETURN], vec![], 2);
    let main = function(
        "رئيسي",
        0,
        vec![
            CONSTANT8, 0, CONSTANT8, 1, CLOSURE, 1, 1, 1, CONSTANT8, 2, DEFINE_GLOBAL, // k = closure
            CLOSE_UP_VALUE, // the local leaves the stack
            CONSTANT8, 2, GET_GLOBAL, CALL, 0, RETURN,
        ],
        vec![num(4.0), Value::Object(Object::Function(0)), text("k")],
        1,
    );
    let v = run(&[], &[], vec![h], main).ok().unwrap().unwrap();
    assert_eq!(number_of(&v), 4.0);
}

#[test]
fn jumps_and_loops_move_the_pointer() {
    let main = function(
        "رئيسي",
        0,
        vec![JUMP, 0, 5, CONSTANT8, 0, CONSTANT8, 1, RETURN],
        vec![num(1.0), num(2.0)],
        1,
    );
    assert_eq!(number_of(&run(&[], &[], vec![], main).ok().unwrap().unwrap()), 2.0);
    let main = function(
        "رئيسي",
        0,
        vec![JUMP, 0, 6, CONSTANT8, 1, RETURN, LOOP, 0, 3],
        vec![num(1.0), num(2.0)],
        1,
    );
    assert_eq!(number_of(&run(&[], &[], vec![], main).ok().unwrap().unwrap()), 2.0);
}

#[test]
fn wide_constants_and_locals() {
    let main = function("رئيسي", 0, vec![CONSTANT16, 0, 1, RETURN], vec![num(1.0), num(8.0)], 1);
    assert_eq!(number_of(&run(&[], &[], vec![], main).ok().unwrap().unwrap()), 8.0);
    let main = function(
        "رئيسي",
        0,
        vec![CONSTANT8, 0, CONSTANT8, 1, SET_LOCAL, 1, POP, GET_LOCAL, 1, RETURN],
        vec![num(1.0), num(2.0)],
        1,
    );
    assert_eq!(number_of(&run(&[], &[], vec![], main).ok().unwrap().unwrap()), 2.0);
}

#[test]
fn refusals_of_the_other_operations() {
    for (op, message) in [
        (MULTIPLY, "لا يقبل المعاملان الضرب في بعضهما"),
        (DIVIDE, "لا يقبل المعاملان القسمة على بعضهما"),
        (REMAINDER, "لا يقبل المعاملان القسمة على بعضهما"),
    ] {
        let main = function(
            "رئيسي",
            0,
            vec![CONSTANT8, 0, CONSTANT8, 1, op, RETURN],
            vec![text("a"), num(2.0)],
            1,
        );
        assert_eq!(fails(run(&[], &[], vec![], main)).0, message);
    }
    let main = function(
        "رئيسي",
        0,
        vec![CONSTANT8, 0, CONSTANT8, 0, EQUAL, RETURN],
        vec![num(2.0)],
        1,
    );
    assert!(matches!(run(&[], &[], vec![], main), Ok(Some(Value::Bool(true)))));
}

#[test]
fn the_program_closure_leaves_the_stack() {
    let mut vm = Vm::new(&vec![]);
    let _frame = vm.start(function("رئيسي", 0, vec![RETURN], vec![], 1));
    assert!(vm.top(0).is_some());
    assert!(vm.top_is_free());
    vm.end_program();
    assert!(vm.top(0).is_none());
}

#[test]
fn the_creation_time_stays_while_a_program_runs() {
    let mut vm = Vm::new(&vec![]);
    let before = *Frame::new_native(0, 0, None).get_creation_time(&vm);
    let mut frame = vm.start(function("رئيسي", 0, vec![CONSTANT8, 0, RETURN], vec![num(1.0)], 1));
    let _ = run_frame(&mut frame, &mut vm, 0, &[]);
    assert_eq!(*frame.get_creation_time(&vm), before);
}

#[test]
fn a_machine_keeps_the_time_it_was_made_at() {
    let t = std::time::SystemTime::UNIX_EPOCH + std::time::Duration::from_secs(1000);
    let mut vm = Vm::new_at(&vec![], t);
    let mut frame = vm.start(function("رئيسي", 0, vec![CONSTANT8, 0, RETURN], vec![num(1.0)], 1));
    let _ = run_frame(&mut frame, &mut vm, 0, &[]);
    assert_eq!(*frame.get_creation_time(&vm), t);
    assert_eq!(*Frame::new_native(0, 0, None).get_creation_time(&vm), t);
}
