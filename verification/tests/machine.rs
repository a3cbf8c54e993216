use qalam::chunk::{Chunk, Instruction};
use qalam::number::{positive_whole_u32, whole_i32};
use qalam::token::{Token, TokenType};
use qalam::value::{Arity, Function, Object, Value};
use qalam::vm::step::{Semantics, Step};
use qalam::vm::{Backtrace, Frame, Vm};

const POP: u8 = 0;
const CONSTANT8: u8 = 1;
const NEGATE: u8 = 3;
const ADD: u8 = 4;
const SUBTRACT: u8 = 5;
const NOT: u8 = 9;
const GREATER: u8 = 11;
const JUMP_IF_FALSE: u8 = 16;
const DEFINE_GLOBAL: u8 = 19;
const SET_GLOBAL: u8 = 20;
const GET_GLOBAL: u8 = 21;
const BUILD_LIST: u8 = 24;
const BUILD_OBJECT: u8 = 25;
const GET: u8 = 26;
const SET_ITEM: u8 = 27;
const RETURN: u8 = 33;

fn num(x: f64) -> Value {
    Value::Number(x.to_bits())
}

fn text(s: &str) -> Value {
    Value::new_string(s.to_string())
}

fn number_of(v: &Value) -> f64 {
    match v {
        Value::Number(b) => f64::from_bits(*b),
        _ => panic!("not a number"),
    }
}

fn text_of(v: &Value) -> String {
    match v {
        Value::Object(Object::String(s)) => s.clone(),
        _ => panic!("not a string"),
    }
}

/// A program of `code` over `constants`, each byte compiled from a token
/// at line 1 and a column equal to its position plus one.
fn program(code: Vec<u8>, constants: Vec<Value>) -> Function {
    let tokens = (0..code.len())
        .map(|i| Token { typ: TokenType::Identifier, start: i, length: 1, line: 1, col: i + 1 })
        .collect();
    Function {
        name: Some("رئيسي".to_string()),
        arity: Arity::Fixed(0),
        chunk: Chunk { code, constants, tokens },
        path: None,
    }
}

/// The semantics a test needs: numbers add, compare and are truthy unless
/// zero; names are string values.
fn semantics(vm: &Vm, instr: Instruction, frame: &Frame) -> Semantics {
    let top = |d: usize| vm.top(d).unwrap();
    match instr {
        Instruction::Add => Semantics::Outcome(Some(num(number_of(top(1)) + number_of(top(0))))),
        Instruction::Subtract => match (top(1), top(0)) {
            (Value::Number(a), Value::Number(b)) => {
                Semantics::Outcome(Some(num(f64::from_bits(*a) - f64::from_bits(*b))))
            }
            _ => Semantics::Outcome(None),
        },
        Instruction::Not => Semantics::Outcome(Some(Value::Bool(matches!(top(0), Value::Nil)))),
        Instruction::Greater => Semantics::Holds(match (top(1), top(0)) {
            (Value::Number(a), Value::Number(b)) => f64::from_bits(*a) > f64::from_bits(*b),
            _ => false,
        }),
        Instruction::JumpIfFalse | Instruction::JumpIfTrue => {
            Semantics::Holds(!matches!(top(0), Value::Nil | Value::Bool(false)))
        }
        Instruction::DefineGlobal | Instruction::SetGlobal | Instruction::GetGlobal => {
            Semantics::Name(text_of(top(0)))
        }
        Instruction::BuildObject => {
            let n = frame.operand_byte(vm).unwrap() as usize;
            Semantics::Names((0..n).map(|k| text_of(top(2 * k + 1))).collect())
        }
        _ => Semantics::Nothing,
    }
}

fn run(vm: &mut Vm, function: Function) -> Result<Option<Value>, (Value, Backtrace)> {
    let mut frame = vm.start(function);
    loop {
        let instr = match frame.instruction(vm) {
            Some(i) => i,
            None => return Ok(None),
        };
        assert!(frame.admitted(vm), "the instruction cannot run here");
        let input = semantics(vm, instr, &frame);
        match frame.step(vm, input)? {
            Step::Next => {}
            Step::Return(v) => return Ok(Some(v)),
            Step::Call(..) => panic!("no calls here"),
        }
    }
}

fn result_of(code: Vec<u8>, constants: Vec<Value>) -> Value {
    let mut vm = Vm::new(&vec![]);
    run(&mut vm, program(code, constants)).ok().unwrap().unwrap()
}

fn error_of(code: Vec<u8>, constants: Vec<Value>) -> (String, String) {
    let mut vm = Vm::new(&vec![]);
    match run(&mut vm, program(code, constants)) {
        Err((value, backtrace)) => (text_of(&value), backtrace.text()),
        Ok(_) => panic!("expected an error"),
    }
}

#[test]
fn negate_flips_the_sign() {
    let v = result_of(vec![CONSTANT8, 0, NEGATE, RETURN], vec![num(5.0)]);
    assert_eq!(number_of(&v), -5.0);
    let v = result_of(vec![CONSTANT8, 0, NEGATE, NEGATE, RETURN], vec![num(-2.25)]);
    assert_eq!(number_of(&v), -2.25);
}

#[test]
fn negate_refuses_a_string_and_reports_where() {
    let (message, backtrace) = error_of(vec![CONSTANT8, 0, NEGATE, RETURN], vec![text("س")]);
    assert_eq!(message, "يجب أن يكون المعامل رقماً");
    assert_eq!(backtrace, "في رئيسي 1:3\n");
}

#[test]
fn binary_outcomes_and_refusals() {
    let v = result_of(vec![CONSTANT8, 0, CONSTANT8, 1, ADD, RETURN], vec![num(2.0), num(3.5)]);
    assert_eq!(number_of(&v), 5.5);
    let (message, _) =
        error_of(vec![CONSTANT8, 0, CONSTANT8, 1, SUBTRACT, RETURN], vec![text("a"), num(1.0)]);
    assert_eq!(message, "لا يقبل المعاملان الطرح من بعضهما");
}

#[test]
fn comparisons_need_numbers() {
    let v = result_of(vec![CONSTANT8, 0, CONSTANT8, 1, GREATER, RETURN], vec![num(4.0), num(3.0)]);
    assert!(matches!(v, Value::Bool(true)));
    let (message, backtrace) =
        error_of(vec![CONSTANT8, 0, CONSTANT8, 1, GREATER, RETURN], vec![num(4.0), Value::Nil]);
    assert_eq!(message, "يجب أن يكون المعاملان أرقاماً");
    assert_eq!(backtrace, "في رئيسي 1:5\n");
}

#[test]
fn not_takes_the_semantics_result() {
    let v = result_of(vec![CONSTANT8, 0, NOT, RETURN], vec![Value::Nil]);
    assert!(matches!(v, Value::Bool(true)));
}

#[test]
fn jump_if_false_skips_on_a_falsy_value() {
    // [c0] JumpIfFalse +5 -> lands on the second constant; otherwise the first is returned.
    let code = vec![CONSTANT8, 0, JUMP_IF_FALSE, 0, 4, RETURN, CONSTANT8, 1, RETURN];
    let v = result_of(code.clone(), vec![Value::Bool(false), num(9.0)]);
    assert_eq!(number_of(&v), 9.0);
    let v = result_of(code, vec![Value::Bool(true), num(9.0)]);
    assert!(matches!(v, Value::Bool(true)));
}

#[test]
fn globals_define_read_and_refuse() {
    // x = 7; read x
    let code = vec![CONSTANT8, 0, CONSTANT8, 1, DEFINE_GLOBAL, CONSTANT8, 1, GET_GLOBAL, RETURN];
    let v = result_of(code, vec![num(7.0), text("x")]);
    assert_eq!(number_of(&v), 7.0);
    // defining x twice
    let code = vec![
        CONSTANT8, 0, CONSTANT8, 1, DEFINE_GLOBAL, CONSTANT8, 0, CONSTANT8, 1, DEFINE_GLOBAL,
        RETURN,
    ];
    let (message, backtrace) = error_of(code, vec![num(7.0), text("x")]);
    assert_eq!(message, "يوجد متغير بهذا الاسم");
    assert_eq!(backtrace, "في رئيسي 1:10\n");
    // reading and setting an undefined name
    let (message, _) = error_of(vec![CONSTANT8, 0, GET_GLOBAL, RETURN], vec![text("y")]);
    assert_eq!(message, "لا يوجد متغير بهذا الاسم");
    let (message, _) =
        error_of(vec![CONSTANT8, 1, CONSTANT8, 0, SET_GLOBAL, RETURN], vec![text("y"), num(1.0)]);
    assert_eq!(message, "لا يوجد متغير بهذا الاسم");
}

#[test]
fn set_global_keeps_the_value_on_the_stack() {
    let code = vec![
        CONSTANT8, 0, CONSTANT8, 1, DEFINE_GLOBAL, CONSTANT8, 2, CONSTANT8, 1, SET_GLOBAL, POP,
        CONSTANT8, 1, GET_GLOBAL, RETURN,
    ];
    let v = result_of(code, vec![num(1.0), text("x"), num(2.0)]);
    assert_eq!(number_of(&v), 2.0);
}

#[test]
fn natives_are_defined_globals() {
    let mut vm = Vm::new(&vec!["اطبع".to_string()]);
    let v = run(&mut vm, program(vec![CONSTANT8, 0, GET_GLOBAL, RETURN], vec![text("اطبع")]));
    assert!(matches!(v, Ok(Some(Value::Object(Object::Native(0))))));
}

#[test]
fn lists_index_from_either_end() {
    // [10, 20, 30][-1] and [10, 20, 30][0]
    let base = vec![CONSTANT8, 0, CONSTANT8, 1, CONSTANT8, 2, BUILD_LIST, 3];
    let constants = vec![num(10.0), num(20.0), num(30.0), num(-1.0), num(0.0), num(3.0), num(0.5)];
    let mut code = base.clone();
    code.extend([CONSTANT8, 3, GET, RETURN]);
    assert_eq!(number_of(&result_of(code, constants.clone())), 30.0);
    let mut code = base.clone();
    code.extend([CONSTANT8, 4, GET, RETURN]);
    assert_eq!(number_of(&result_of(code, constants.clone())), 10.0);
    let mut code = base.clone();
    code.extend([CONSTANT8, 5, GET, RETURN]);
    assert_eq!(error_of(code, constants.clone()).0, "لا يوجد عنصر بهذا الرقم");
    let mut code = base;
    code.extend([CONSTANT8, 6, GET, RETURN]);
    assert_eq!(error_of(code, constants).0, "يجب أن يكون رقم العنصر عدداً صحيحاً");
}

#[test]
fn strings_give_their_characters() {
    let code = vec![CONSTANT8, 0, CONSTANT8, 1, GET, RETURN];
    let v = result_of(code.clone(), vec![text("سلام"), num(1.0)]);
    assert_eq!(text_of(&v), "ل");
    let v = result_of(code.clone(), vec![text("سلام"), num(-1.0)]);
    assert_eq!(text_of(&v), "م");
    assert_eq!(error_of(code, vec![text("سلام"), num(4.0)]).0, "لا يوجد عنصر بهذا الرقم");
}

#[test]
fn other_values_hold_no_items() {
    let code = vec![CONSTANT8, 0, CONSTANT8, 1, GET, RETURN];
    assert_eq!(error_of(code, vec![num(1.0), num(0.0)]).0, "يجب أن يكون المتغير نص أو قائمة أو كائن");
    let code = vec![CONSTANT8, 0, CONSTANT8, 0, CONSTANT8, 1, SET_ITEM, RETURN];
    assert_eq!(error_of(code, vec![text("ab"), num(0.0)]).0, "يجب أن يكون المتغير قائمة أو كائن");
}

#[test]
fn a_stored_item_is_read_back() {
    let mut vm = Vm::new(&vec![]);
    let code = vec![
        CONSTANT8, 0, CONSTANT8, 1, BUILD_LIST, 2, CONSTANT8, 4, DEFINE_GLOBAL, // l = [1, 2]
        CONSTANT8, 2, CONSTANT8, 4, GET_GLOBAL, CONSTANT8, 3, SET_ITEM, POP, // l[-2] = 5
        CONSTANT8, 4, GET_GLOBAL, CONSTANT8, 5, GET, RETURN, // l[0]
    ];
    let constants = vec![num(1.0), num(2.0), num(5.0), num(-2.0), text("l"), num(0.0)];
    let v = run(&mut vm, program(code, constants)).ok().unwrap().unwrap();
    assert_eq!(number_of(&v), 5.0);
}

#[test]
fn objects_take_the_first_of_repeated_names() {
    // {a: 1, a: 2}.a
    let code = vec![
        CONSTANT8, 0, CONSTANT8, 1, CONSTANT8, 0, CONSTANT8, 2, BUILD_OBJECT, 2, CONSTANT8, 0, GET,
        RETURN,
    ];
    let v = result_of(code, vec![text("a"), num(1.0), num(2.0)]);
    assert_eq!(number_of(&v), 1.0);
}

#[test]
fn objects_store_and_refuse_properties() {
    let mut vm = Vm::new(&vec![]);
    let code = vec![
        BUILD_OBJECT, 0, CONSTANT8, 0, DEFINE_GLOBAL, // o = {}
        CONSTANT8, 1, CONSTANT8, 0, GET_GLOBAL, CONSTANT8, 2, SET_ITEM, POP, // o.b = 3
        CONSTANT8, 0, GET_GLOBAL, CONSTANT8, 2, GET, RETURN,
    ];
    let v = run(&mut vm, program(code, vec![text("o"), num(3.0), text("b")])).ok().unwrap().unwrap();
    assert_eq!(number_of(&v), 3.0);
    let code = vec![BUILD_OBJECT, 0, CONSTANT8, 0, GET, RETURN];
    assert_eq!(error_of(code, vec![text("c")]).0, "لا يوجد قيمة بهذا الاسم");
    let code = vec![BUILD_OBJECT, 0, CONSTANT8, 0, GET, RETURN];
    assert_eq!(error_of(code, vec![num(1.0)]).0, "يجب أن يكون اسم الخاصية نصاً");
}

#[test]
fn instructions_that_cannot_run_are_not_admitted() {
    let mut vm = Vm::new(&vec![]);
    let frame = vm.start(program(vec![POP, POP, RETURN], vec![]));
    // one value (the program's closure) is on the stack: Pop is fine, Add is not
    assert!(frame.admitted(&vm));
    let mut vm = Vm::new(&vec![]);
    let frame = vm.start(program(vec![ADD, RETURN], vec![]));
    assert!(!frame.admitted(&vm));
    let mut vm = Vm::new(&vec![]);
    let frame = vm.start(program(vec![CONSTANT8, 3, RETURN], vec![num(1.0)]));
    assert!(!frame.admitted(&vm));
}

#[test]
fn whole_numbers_as_integers() {
    assert_eq!(whole_i32(3.0f64.to_bits()), Some(3));
    assert_eq!(whole_i32((-7.0f64).to_bits()), Some(-7));
    assert_eq!(whole_i32((-0.0f64).to_bits()), Some(0));
    assert_eq!(whole_i32(1e10f64.to_bits()), Some(i32::MAX));
    assert_eq!(whole_i32((-1e10f64).to_bits()), Some(i32::MIN));
    assert_eq!(whole_i32(4503599627370497.0f64.to_bits()), Some(i32::MAX));
    assert_eq!(whole_i32(2.5f64.to_bits()), None);
    assert_eq!(whole_i32(0.5f64.to_bits()), None);
    assert_eq!(whole_i32(f64::NAN.to_bits()), None);
    assert_eq!(whole_i32(f64::INFINITY.to_bits()), None);
    assert_eq!(whole_i32(f64::MIN_POSITIVE.to_bits()), None);
    assert_eq!(positive_whole_u32(5.0f64.to_bits()), Some(5));
    assert_eq!(positive_whole_u32(1e12f64.to_bits()), Some(u32::MAX));
    assert_eq!(positive_whole_u32(0.0f64.to_bits()), None);
    assert_eq!(positive_whole_u32((-3.0f64).to_bits()), None);
}

#[test]
fn native_number_arguments() {
    let mut vm = Vm::new(&vec![]);
    let frame = Frame::new_native(0, 0, None);
    for v in [num(12.0), num(1.5), num(-4.0), Value::Nil, num(0.0)] {
        frame.push(&mut vm, v);
    }
    assert_eq!(frame.nth_i32(&vm, 0).ok(), Some(12));
    assert_eq!(text_of(&frame.nth_i32(&vm, 1).unwrap_err()), "يجب أن يكون المدخل 1 عدداً صحيحاً");
    assert_eq!(frame.nth_i32(&vm, 2).ok(), Some(-4));
    assert_eq!(frame.nth_u32(&vm, 0).ok(), Some(12));
    assert_eq!(
        text_of(&frame.nth_u32(&vm, 2).unwrap_err()),
        "يجب أن يكون المدخل 2 عدداً صحيحاً موجباً"
    );
    assert_eq!(
        text_of(&frame.nth_u32(&vm, 4).unwrap_err()),
        "يجب أن يكون المدخل 4 عدداً صحيحاً موجباً"
    );
    assert_eq!(frame.nth_number(&vm, 1).ok(), Some(1.5f64.to_bits()));
    assert_eq!(text_of(&frame.nth_number(&vm, 3).unwrap_err()), "يجب أن يكون المدخل 3 عدداً");
    assert_eq!(text_of(&frame.nth_path(&vm, 3).unwrap_err()), "يجب أن يكون المدخل 3 مسار");
}

#[test]
fn an_empty_backtrace_has_no_lines() {
    assert_eq!(Backtrace::new().text(), "");
}
