use vstd::prelude::*;

use crate::chunk::{spec_combine, Instruction};
use crate::value::{truthy, ObjectView, UpValueView, Value, ValueView};
use crate::vm::ops::{
    below, built_object, current, get_outcome, next, raised_at, refusal, set_outcome, Place,
    SIGN_BIT,
};
use crate::vm::step::{Semantics, Step};
use crate::vm::{
    after_closing, arity_accepts, arity_message, capture, count_texts, moved_ip, open_at,
    path_view, stays_open, Backtrace, Frame, Vm,
};

verus! {

/// The text that names a global, as the value semantics gives it.
pub open spec fn input_name(input: Semantics) -> Seq<char> {
    match input {
        Semantics::Name(n) => n@,
        _ => Seq::empty(),
    }
}

/// The texts of the names of an object's pairs, top pair first.
pub open spec fn input_names(input: Semantics) -> Seq<String> {
    match input {
        Semantics::Names(n) => n@,
        _ => Seq::empty(),
    }
}

/// Whether a comparison holds, or a value is truthy, as the value
/// semantics says.
pub open spec fn input_holds(input: Semantics) -> bool {
    match input {
        Semantics::Holds(b) => b,
        _ => false,
    }
}

/// The joining of two values, where both are strings.
pub open spec fn joined(a: ValueView, b: ValueView) -> Option<ValueView> {
    match (a, b) {
        (ValueView::Object(ObjectView::String(x)), ValueView::Object(ObjectView::String(y))) => Some(
            ValueView::Object(ObjectView::String(x + y)),
        ),
        _ => None,
    }
}

/// `input` is what the value semantics says of the operands of the
/// frame's current instruction. Where no arithmetic on doubles is
/// involved, it is tied to the operands: the name of a global (or of an
/// object's property) held as a string is that string, `Not` and the
/// conditional jumps read the truthiness of the top value, `Equal` of two
/// values that are not both numbers says whether they are the same, and
/// `Add` of two strings joins them.
pub open spec fn suits(frame: Frame, vm: Vm, input: Semantics) -> bool {
    let s = vm.stack_view();
    let len = s.len();
    let count = frame.operand(&vm, 1);
    match current(frame, vm) {
        Instruction::Add => input matches Semantics::Outcome(Some(v)) && (joined(s[len - 2], s[len - 1])
            is Some ==> joined(s[len - 2], s[len - 1]) == Some(v@)),
        Instruction::Equal => input matches Semantics::Outcome(Some(v)) && v@ is Bool && (!(s[len
            - 2] is Number && s[len - 1] is Number) ==> v@ == ValueView::Bool(s[len - 2] == s[len
            - 1])),
        Instruction::Not => input matches Semantics::Outcome(Some(v)) && v@ == ValueView::Bool(
            !truthy(s.last()),
        ),
        Instruction::Subtract | Instruction::Multiply | Instruction::Divide | Instruction::Remainder =>
            input is Outcome,
        Instruction::Greater | Instruction::GreaterEqual | Instruction::Less | Instruction::LessEqual =>
            input is Holds,
        Instruction::JumpIfFalse | Instruction::JumpIfTrue => input matches Semantics::Holds(b) && b
            == truthy(s.last()),
        Instruction::DefineGlobal | Instruction::SetGlobal | Instruction::GetGlobal => input matches Semantics::Name(n) && (s.last() matches ValueView::Object(ObjectView::String(t)) ==> n@ == t),
        Instruction::BuildObject => input matches Semantics::Names(names) && names@.len() == count
            && forall|k: int|
            0 <= k < count ==> (s[len - 2 * k - 2] matches ValueView::Object(ObjectView::String(t))
                ==> #[trigger] names@[k]@ == t),
        _ => true,
    }
}

/// The step went on to the next instruction, `width` bytes on, leaving
/// `stack` and every heap as it was.
pub open spec fn went_on(
    f0: Frame,
    vm0: Vm,
    f1: Frame,
    vm1: Vm,
    r: Result<Step, (Value, Backtrace)>,
    stack: Seq<ValueView>,
    width: int,
) -> bool {
    &&& r matches Ok(Step::Next)
    &&& vm1.stack_view() == stack
    &&& vm1.same_heaps(vm0)
    &&& f1 == next(f0, width)
}

/// The step raised `message` at the current instruction, leaving `stack`,
/// every heap and the frame as they were.
pub open spec fn refused(
    f0: Frame,
    vm0: Vm,
    f1: Frame,
    vm1: Vm,
    r: Result<Step, (Value, Backtrace)>,
    message: Seq<char>,
    stack: Seq<ValueView>,
) -> bool {
    &&& r matches Err(e) && raised_at(e, vm0, f0, message)
    &&& vm1.stack_view() == stack
    &&& vm1.same_heaps(vm0)
    &&& f1 == f0
}

/// What `Closure` does: the function on top of the stack is replaced by a
/// new closure over the captured variables (locals of the frame get open
/// cells, reused where one is already open at that slot; the others are
/// those of the enclosing closure), and the pointer moves past the pairs.
pub open spec fn closure_made(f0: Frame, vm0: Vm, f1: Frame, vm1: Vm) -> bool {
    let count = f0.operand(&vm0, 1) as int;
    let c = vm0.closure_count() as usize;
    let ids = vm1.captured_of(c);
    let old_cells = vm0.cells();
    let new_cells = vm1.cells();
    &&& vm1.stack_view() == vm0.stack_view().drop_last().push(ValueView::Object(ObjectView::Closure(c)))
    &&& vm1.closure_count() == vm0.closure_count() + 1
    &&& vm0.stack_view().last() == ValueView::Object(ObjectView::Function(vm1.function_of(c)))
    &&& ids.len() == count
    &&& forall|k: int|
        0 <= k < count ==> {
            let (local, i) = #[trigger] capture(f0.code(&vm0), f0.spec_ip(), k);
            &&& local ==> new_cells[ids[k] as int] == UpValueView::Open((f0.spec_slots() + i) as usize)
                && vm1.open_cells().contains(ids[k])
            &&& !local ==> ids[k] == vm0.captured_of(f0->enclosing_up_values.unwrap())[i as int]
        }
    &&& new_cells.len() >= old_cells.len()
    &&& new_cells.take(old_cells.len() as int) == old_cells
    &&& forall|id: int|
        old_cells.len() <= id < new_cells.len() ==> (#[trigger] new_cells[id] matches UpValueView::Open(j)
            && !open_at(old_cells, vm0.open_cells(), j) && forall|id2: int|
            old_cells.len() <= id2 < id ==> new_cells[id2] != new_cells[id])
    &&& vm1.open_cells() == vm0.open_cells() + Seq::new(
        (new_cells.len() - old_cells.len()) as nat,
        |m: int| (old_cells.len() + m) as usize,
    )
    &&& forall|d: usize|
        d < vm0.closure_count() ==> vm1.function_of(d) == vm0.function_of(d) && vm1.captured_of(d)
            == vm0.captured_of(d) && vm1.code_of(d) == vm0.code_of(d) && vm1.tokens_of(d)
            == vm0.tokens_of(d) && vm1.name_of(d) == vm0.name_of(d) && vm1.path_of(d)
            == vm0.path_of(d) && vm1.constants_of(d) == vm0.constants_of(d)
    &&& vm1.function_count() == vm0.function_count()
    &&& vm1.globals_view() == vm0.globals_view()
    &&& vm1.lists_view() == vm0.lists_view()
    &&& vm1.objects_view() == vm0.objects_view()
    &&& vm1.creation_time() == vm0.creation_time()
    &&& f1 == f0.at_ip((f0.spec_ip() + 2 + 2 * count) as usize)
}

/// What `Call` starts: a frame for the callee (a closure whose arity suits
/// the count, or a native), or the arity error.
pub open spec fn call_started(f0: Frame, vm0: Vm, r: Result<Step, (Value, Backtrace)>) -> bool {
    let argc = f0.operand(&vm0, 1) as usize;
    let slot = (vm0.stack_view().len() - argc - 1) as usize;
    match vm0.stack_view()[slot as int] {
        ValueView::Object(ObjectView::Closure(c)) => if arity_accepts(
            vm0.arity_of(vm0.function_of(c)),
            argc,
        ) {
            r matches Ok(Step::Call(f, s, a)) && s == slot && a == argc && f.wf(&vm0)
                && f.spec_closure() == c && f.spec_ip() == 0 && f.spec_slots() == slot
                && !f.spec_is_native() && f->enclosing_up_values == Some(f0.spec_closure())
                && f.handlers_view().len() == 0
        } else {
            r matches Err((v, bt)) && (exists|expected: String, got: String|
                #[trigger] count_texts(vm0.arity_of(vm0.function_of(c)), argc, expected, got)
                    && v@ == ValueView::Object(
                    ObjectView::String(
                        arity_message(vm0.arity_of(vm0.function_of(c)), expected@, got@),
                    ),
                )) && bt.entries() == seq![
                (vm0.tokens_of(f0.spec_closure())[f0.spec_ip() as int], vm0.name_of(f0.spec_closure())),
            ]
        },
        ValueView::Object(ObjectView::Native(n)) => r matches Ok(Step::Call(f, s, a)) && s == slot
            && a == argc && f.spec_is_native() && f->native == n && f.spec_slots() == slot && path_view(
            f->path,
        ) == vm0.path_of(f0.spec_closure()),
        _ => false,
    }
}

/// What `Throw` does: with a handler, the innermost one is removed, the
/// stack is cut to its height (closing the cells above) with the thrown
/// value on top, and the frame resumes at its target; without one, the
/// value leaves as the error.
pub open spec fn thrown(f0: Frame, vm0: Vm, f1: Frame, vm1: Vm, r: Result<Step, (Value, Backtrace)>) -> bool {
    &&& vm1.globals_view() == vm0.globals_view()
    &&& vm1.same_closures(vm0)
    &&& vm1.creation_time() == vm0.creation_time()
    &&& f1.spec_closure() == f0.spec_closure()
    &&& f1.spec_slots() == f0.spec_slots()
    &&& !f1.spec_is_native()
    &&& if f0.handlers_view().len() > 0 {
        let h = f0.handlers_view().last();
        let rest = vm0.stack_view().drop_last();
        &&& r matches Ok(Step::Next)
        &&& f1.handlers_view() == f0.handlers_view().drop_last()
        &&& vm1.stack_view() == (if h.height() < rest.len() {
            rest.take(h.height() as int)
        } else {
            rest
        }).push(vm0.stack_view().last())
        &&& vm1.open_cells() == vm0.open_cells().filter(stays_open(vm0.cells(), h.height()))
        &&& forall|id: int|
            0 <= id < vm0.cells().len() ==> #[trigger] vm1.cells()[id] == after_closing(
                vm0.cells(),
                vm0.open_cells(),
                rest,
                h.height(),
                id,
            )
        &&& f1.spec_ip() == moved_ip(f0.spec_ip(), ((h.target() - f0.spec_ip()) as i32) as int)
    } else {
        &&& r matches Err((v, bt)) && v@ == vm0.stack_view().last() && bt.entries() == seq![
            (vm0.tokens_of(f0.spec_closure())[f0.spec_ip() as int], vm0.name_of(f0.spec_closure())),
        ]
        &&& vm1.stack_view() == vm0.stack_view().drop_last()
        &&& f1.handlers_view() == f0.handlers_view()
        &&& f1.spec_ip() == f0.spec_ip()
    }
}

/// What executing the frame's current instruction did, instruction by
/// instruction, given what the value semantics said of its operands:
/// `f0` and `vm0` before, `f1` and `vm1` after, `r` the outcome.
pub open spec fn stepped(
    f0: Frame,
    vm0: Vm,
    input: Semantics,
    f1: Frame,
    vm1: Vm,
    r: Result<Step, (Value, Backtrace)>,
) -> bool {
    let s = vm0.stack_view();
    let len = s.len();
    let c = f0.spec_closure();
    let ip = f0.spec_ip();
    let op1 = f0.operand(&vm0, 1);
    let offset = spec_combine(op1, f0.operand(&vm0, 2));
    let unchanged = vm1 == vm0 && r matches Ok(Step::Next);
    match current(f0, vm0) {
        Instruction::Pop => went_on(f0, vm0, f1, vm1, r, s.drop_last(), 1),
        Instruction::Constant8 => went_on(f0, vm0, f1, vm1, r, s.push(vm0.constants_of(c)[op1 as int]), 2),
        Instruction::Constant16 => went_on(f0, vm0, f1, vm1, r, s.push(vm0.constants_of(c)[offset as int]), 3),
        Instruction::Negate => match s.last() {
            ValueView::Number(n) => went_on(f0, vm0, f1, vm1, r, below(s, 1).push(ValueView::Number(n ^ SIGN_BIT)), 1),
            _ => refused(f0, vm0, f1, vm1, r, "يجب أن يكون المعامل رقماً"@, below(s, 1)),
        },
        Instruction::Add
        | Instruction::Subtract
        | Instruction::Multiply
        | Instruction::Divide
        | Instruction::Remainder
        | Instruction::Equal => match input {
            Semantics::Outcome(Some(v)) => went_on(f0, vm0, f1, vm1, r, below(s, 2).push(v@), 1),
            _ => refused(f0, vm0, f1, vm1, r, refusal(current(f0, vm0)), below(s, 2)),
        },
        Instruction::Not => went_on(f0, vm0, f1, vm1, r, below(s, 1).push(match input {
            Semantics::Outcome(Some(v)) => v@,
            _ => ValueView::Nil,
        }), 1),
        Instruction::Greater | Instruction::GreaterEqual | Instruction::Less | Instruction::LessEqual =>
            if s[len - 2] is Number && s[len - 1] is Number {
            went_on(f0, vm0, f1, vm1, r, below(s, 2).push(ValueView::Bool(input_holds(input))), 1)
        } else {
            refused(f0, vm0, f1, vm1, r, "يجب أن يكون المعاملان أرقاماً"@, below(s, 2))
        },
        Instruction::Jump => unchanged && f1 == f0.at_ip((ip + offset) as usize),
        Instruction::JumpIfFalse => unchanged && f1 == (if input_holds(input) {
            next(f0, 3)
        } else {
            next(f0, offset as int)
        }),
        Instruction::JumpIfTrue => unchanged && f1 == (if input_holds(input) {
            next(f0, offset as int)
        } else {
            next(f0, 3)
        }),
        Instruction::Loop => unchanged && f1 == f0.at_ip(moved_ip(ip, -offset)),
        Instruction::DefineGlobal => {
            let name = input_name(input);
            &&& vm1.same_heaps_but_globals(vm0)
            &&& vm1.stack_view() == below(s, 2)
            &&& if vm0.globals_view().contains_key(name) {
                &&& r matches Err(e) && raised_at(e, vm0, f0, "يوجد متغير بهذا الاسم"@)
                &&& vm1.globals_view() == vm0.globals_view()
                &&& f1 == f0
            } else {
                &&& r matches Ok(Step::Next)
                &&& vm1.globals_view() == vm0.globals_view().insert(name, s[len - 2])
                &&& f1 == next(f0, 1)
            }
        },
        Instruction::SetGlobal => {
            let name = input_name(input);
            &&& vm1.same_heaps_but_globals(vm0)
            &&& vm1.stack_view() == below(s, 1)
            &&& if vm0.globals_view().contains_key(name) {
                &&& r matches Ok(Step::Next)
                &&& vm1.globals_view() == vm0.globals_view().insert(name, s[len - 2])
                &&& f1 == next(f0, 1)
            } else {
                &&& r matches Err(e) && raised_at(e, vm0, f0, "لا يوجد متغير بهذا الاسم"@)
                &&& vm1.globals_view() == vm0.globals_view()
                &&& f1 == f0
            }
        },
        Instruction::GetGlobal => {
            let name = input_name(input);
            if vm0.globals_view().contains_key(name) {
                went_on(f0, vm0, f1, vm1, r, below(s, 1).push(vm0.globals_view()[name]), 1)
            } else {
                refused(f0, vm0, f1, vm1, r, "لا يوجد متغير بهذا الاسم"@, below(s, 1))
            }
        },
        Instruction::GetLocal => went_on(f0, vm0, f1, vm1, r, s.push(s[f0.spec_slots() + op1]), 2),
        Instruction::SetLocal => went_on(f0, vm0, f1, vm1, r, s.update(f0.spec_slots() + op1, s.last()), 2),
        Instruction::BuildList => {
            let start = len - op1;
            &&& r matches Ok(Step::Next)
            &&& vm1.stack_view() == s.take(start).push(ValueView::Object(ObjectView::List(vm0.lists_view().len() as usize)))
            &&& vm1.lists_view() == vm0.lists_view().push(s.subrange(start, len as int))
            &&& vm1.globals_view() == vm0.globals_view()
            &&& vm1.cells() == vm0.cells()
            &&& vm1.open_cells() == vm0.open_cells()
            &&& vm1.objects_view() == vm0.objects_view()
            &&& vm1.same_closures(vm0)
            &&& vm1.creation_time() == vm0.creation_time()
            &&& f1 == next(f0, 2)
        },
        Instruction::BuildObject => {
            &&& r matches Ok(Step::Next)
            &&& vm1.stack_view() == below(s, 2 * op1).push(ValueView::Object(ObjectView::Object(vm0.objects_view().len() as usize)))
            &&& vm1.objects_view() == vm0.objects_view().push(built_object(input_names(input), s, op1 as nat))
            &&& vm1.globals_view() == vm0.globals_view()
            &&& vm1.cells() == vm0.cells()
            &&& vm1.open_cells() == vm0.open_cells()
            &&& vm1.lists_view() == vm0.lists_view()
            &&& vm1.same_closures(vm0)
            &&& vm1.creation_time() == vm0.creation_time()
            &&& f1 == next(f0, 2)
        },
        Instruction::Get => match get_outcome(vm0, s[len - 2], s[len - 1]) {
            Ok(v) => went_on(f0, vm0, f1, vm1, r, below(s, 2).push(v), 1),
            Err(m) => refused(f0, vm0, f1, vm1, r, m, below(s, 2)),
        },
        Instruction::SetItem => {
            let value = s[len - 3];
            &&& vm1.same_closures(vm0)
            &&& vm1.creation_time() == vm0.creation_time()
            &&& vm1.globals_view() == vm0.globals_view()
            &&& vm1.cells() == vm0.cells()
            &&& vm1.open_cells() == vm0.open_cells()
            &&& vm1.stack_view() == below(s, 2)
            &&& match set_outcome(vm0, s[len - 2], s[len - 1]) {
                Ok(Place::Property(o, k)) => {
                    &&& r matches Ok(Step::Next)
                    &&& vm1.objects_view() == vm0.objects_view().update(o as int, vm0.objects_view()[o as int].insert(k, value))
                    &&& vm1.lists_view() == vm0.lists_view()
                    &&& f1 == next(f0, 1)
                },
                Ok(Place::Item(l, j)) => {
                    &&& r matches Ok(Step::Next)
                    &&& vm1.lists_view() == vm0.lists_view().update(l as int, vm0.lists_view()[l as int].update(j as int, value))
                    &&& vm1.objects_view() == vm0.objects_view()
                    &&& f1 == next(f0, 1)
                },
                Err(m) => {
                    &&& r matches Err(e) && raised_at(e, vm0, f0, m)
                    &&& vm1.lists_view() == vm0.lists_view()
                    &&& vm1.objects_view() == vm0.objects_view()
                    &&& f1 == f0
                },
            }
        },
        Instruction::Closure => r matches Ok(Step::Next) && closure_made(f0, vm0, f1, vm1),
        Instruction::Call => vm1 == vm0 && f1 == f0 && call_started(f0, vm0, r),
        Instruction::GetUpValue => {
            let id = vm0.captured_of(c)[op1 as int];
            went_on(f0, vm0, f1, vm1, r, s.push(match vm0.cells()[id as int] {
                UpValueView::Open(i) => s[i as int],
                UpValueView::Closed(v) => v,
            }), 2)
        },
        Instruction::SetUpValue => {
            let id = vm0.captured_of(c)[op1 as int];
            &&& r matches Ok(Step::Next)
            &&& match vm0.cells()[id as int] {
                UpValueView::Open(i) => vm1.stack_view() == s.update(i as int, s.last()) && vm1.cells()
                    == vm0.cells(),
                UpValueView::Closed(_) => vm1.stack_view() == s && vm1.cells() == vm0.cells().update(
                    id as int,
                    UpValueView::Closed(s.last()),
                ),
            }
            &&& vm1.open_cells() == vm0.open_cells()
            &&& vm1.globals_view() == vm0.globals_view()
            &&& vm1.lists_view() == vm0.lists_view()
            &&& vm1.objects_view() == vm0.objects_view()
            &&& vm1.same_closures(vm0)
            &&& vm1.creation_time() == vm0.creation_time()
            &&& f1 == next(f0, 2)
        },
        Instruction::CloseUpValue => {
            &&& r matches Ok(Step::Next)
            &&& vm1.stack_view() == s.drop_last()
            &&& vm1.open_cells() == vm0.open_cells().filter(stays_open(vm0.cells(), (len - 1) as usize))
            &&& vm1.cells().len() == vm0.cells().len()
            &&& forall|id: int|
                0 <= id < vm0.cells().len() ==> #[trigger] vm1.cells()[id] == after_closing(
                    vm0.cells(),
                    vm0.open_cells(),
                    s,
                    (len - 1) as usize,
                    id,
                )
            &&& vm1.globals_view() == vm0.globals_view()
            &&& vm1.same_closures(vm0)
            &&& vm1.lists_view() == vm0.lists_view()
            &&& vm1.objects_view() == vm0.objects_view()
            &&& vm1.creation_time() == vm0.creation_time()
            &&& f1 == next(f0, 1)
        },
        Instruction::Return => {
            &&& r matches Ok(Step::Return(v)) && v@ == s.last()
            &&& vm1.stack_view() == s.drop_last()
            &&& vm1.same_heaps(vm0)
            &&& f1 == f0
        },
        Instruction::AppendHandler => {
            &&& unchanged
            &&& f1.handlers_view().len() == f0.handlers_view().len() + 1
            &&& f1.handlers_view().drop_last() == f0.handlers_view()
            &&& f1.handlers_view().last().height() == len
            &&& f1.handlers_view().last().target() == ip + op1
            &&& f1.spec_ip() == ip + 3
            &&& f1.spec_closure() == c
            &&& f1.spec_slots() == f0.spec_slots()
            &&& f1->enclosing_up_values == f0->enclosing_up_values
            &&& !f1.spec_is_native()
        },
        Instruction::PopHandler => {
            &&& unchanged
            &&& f1.handlers_view() == (if f0.handlers_view().len() > 0 {
                f0.handlers_view().drop_last()
            } else {
                f0.handlers_view()
            })
            &&& f1.spec_ip() == ip + 1
            &&& f1.spec_closure() == c
            &&& f1.spec_slots() == f0.spec_slots()
            &&& f1->enclosing_up_values == f0->enclosing_up_values
            &&& !f1.spec_is_native()
        },
        Instruction::Throw => thrown(f0, vm0, f1, vm1, r),
        Instruction::Unknown => true,
    }
}

} // verus!
