use vstd::prelude::*;

use crate::chunk::{decode, Instruction};
use crate::value::{ObjectView, Value, ValueView};
use crate::vm::effects::{stepped, suits};
use crate::vm::guard::{admits, handler_ok};
use crate::vm::ops::{current, get_outcome, set_outcome};
use crate::vm::{arity_accepts, Backtrace, Frame, Vm};

verus! {

/// What the value semantics says of the values that an instruction works
/// on: the outcome of an operation (`None` where the operands do not suit
/// it), whether a comparison holds or a value is truthy, or the texts of
/// names.
pub enum Semantics {
    Nothing,
    Outcome(Option<Value>),
    Holds(bool),
    Name(String),
    Names(Vec<String>),
}

/// The current instruction fails, given what the value semantics says of
/// its operands: a negated value that is not a number, an operation whose
/// operands do not suit it, a comparison of values that are not both
/// numbers, a global defined twice or used undefined, a `Get` or `SetItem`
/// that finds nothing to read or write, a throw with no handler, or a call
/// of a closure with a count of arguments that its arity refuses.
pub open spec fn step_fails(frame: Frame, vm: Vm, input: Semantics) -> bool {
    let s = vm.stack_view();
    let len = s.len();
    match current(frame, vm) {
        Instruction::Negate => !(s.last() is Number),
        Instruction::Add
        | Instruction::Subtract
        | Instruction::Multiply
        | Instruction::Divide
        | Instruction::Remainder
        | Instruction::Equal => input matches Semantics::Outcome(None),
        Instruction::Greater
        | Instruction::GreaterEqual
        | Instruction::Less
        | Instruction::LessEqual => !(s[len - 2] is Number && s[len - 1] is Number),
        Instruction::DefineGlobal => input matches Semantics::Name(n) && vm.globals_view().contains_key(
            n@,
        ),
        Instruction::SetGlobal | Instruction::GetGlobal => input matches Semantics::Name(n)
            && !vm.globals_view().contains_key(n@),
        Instruction::Get => get_outcome(vm, s[len - 2], s[len - 1]) is Err,
        Instruction::SetItem => set_outcome(vm, s[len - 2], s[len - 1]) is Err,
        Instruction::Throw => frame.handlers_view().len() == 0,
        Instruction::Call => match s[len - frame.operand(&vm, 1) - 1] {
            ValueView::Object(ObjectView::Closure(c)) => !arity_accepts(
                vm.arity_of(vm.function_of(c)),
                frame.operand(&vm, 1) as usize,
            ),
            _ => false,
        },
        _ => false,
    }
}

/// What an executed instruction leaves the running frame to do: go on, run
/// a call (the callee's frame, its first slot, and the number of
/// arguments) before finishing it, or return a value.
pub enum Step {
    Next,
    Call(Frame, usize, usize),
    Return(Value),
}

impl Frame {
    /// Executes the current instruction, with what the value semantics
    /// says of its operands. An instruction that fails gives the error and
    /// its backtrace.
    pub fn step(&mut self, vm: &mut Vm, input: Semantics) -> (r: Result<Step, (Value, Backtrace)>)
        requires
            admits(*old(self), *old(vm)),
            suits(*old(self), *old(vm), input),
        ensures
            final(vm).inv(),
            stepped(*old(self), *old(vm), input, *final(self), *final(vm), r),
            final(vm).creation_time() == old(vm).creation_time(),
            final(vm).closure_count() >= old(vm).closure_count(),
            !final(self).spec_is_native(),
            final(self).spec_closure() == old(self).spec_closure(),
            final(self).runs(final(vm)),
            r matches Ok(Step::Call(f, s, _)) ==> f.wf(final(vm)) && f.spec_slots() == s,
            r is Err <==> step_fails(*old(self), *old(vm), input),
            r is Ok ==> ((r matches Ok(Step::Return(_))) <==> current(*old(self), *old(vm)) is Return),
            r is Ok ==> ((r matches Ok(Step::Call(..))) <==> current(*old(self), *old(vm)) is Call),
            r matches Ok(Step::Return(v)) ==> v@ == old(vm).stack_view().last(),
            r matches Ok(Step::Call(_, s, a)) ==> a == old(self).operand(old(vm), 1) && s
                == old(vm).stack_view().len() - a - 1,
            r matches Err(e) ==> e.1.entries() == seq![
                (
                    old(vm).tokens_of(old(self).spec_closure())[old(self).spec_ip() as int],
                    old(vm).name_of(old(self).spec_closure()),
                ),
            ],
            current(*old(self), *old(vm)) is Throw ==> (r matches Err(e) ==> e.0@
                == old(vm).stack_view().last()),
    {
        let instr = match self.cur_instr(vm) {
            Some(i) => i,
            None => Instruction::Unknown,
        };
        match instr {
            Instruction::Pop => self.op_pop(vm),
            Instruction::Constant8 => self.op_constant8(vm),
            Instruction::Constant16 => self.op_constant16(vm),
            Instruction::Negate => {
                self.op_negate(vm)?;
            },
            Instruction::Add
            | Instruction::Subtract
            | Instruction::Multiply
            | Instruction::Divide
            | Instruction::Remainder
            | Instruction::Equal => {
                let result = match input {
                    Semantics::Outcome(o) => o,
                    _ => None,
                };
                self.op_binary(vm, result)?;
            },
            Instruction::Not => {
                let result = match input {
                    Semantics::Outcome(Some(v)) => v,
                    _ => Value::Nil,
                };
                self.op_not(vm, result);
            },
            Instruction::Greater | Instruction::GreaterEqual | Instruction::Less | Instruction::LessEqual => {
                let holds = match input {
                    Semantics::Holds(b) => b,
                    _ => false,
                };
                self.op_compare(vm, holds)?;
            },
            Instruction::Jump => self.op_jump(vm),
            Instruction::JumpIfFalse => {
                let truthy = match input {
                    Semantics::Holds(b) => b,
                    _ => false,
                };
                self.op_jump_if_false(vm, truthy);
            },
            Instruction::JumpIfTrue => {
                let truthy = match input {
                    Semantics::Holds(b) => b,
                    _ => false,
                };
                self.op_jump_if_true(vm, truthy);
            },
            Instruction::Loop => self.op_loop(vm),
            Instruction::DefineGlobal => {
                let name = match input {
                    Semantics::Name(n) => n,
                    _ => String::new(),
                };
                self.op_define_global(vm, name)?;
            },
            Instruction::SetGlobal => {
                let name = match input {
                    Semantics::Name(n) => n,
                    _ => String::new(),
                };
                self.op_set_global(vm, name)?;
            },
            Instruction::GetGlobal => {
                let name = match input {
                    Semantics::Name(n) => n,
                    _ => String::new(),
                };
                self.op_get_global(vm, name)?;
            },
            Instruction::GetLocal => self.op_get_local(vm),
            Instruction::SetLocal => self.op_set_local(vm),
            Instruction::BuildList => self.op_build_list(vm),
            Instruction::BuildObject => {
                let names = match input {
                    Semantics::Names(n) => n,
                    _ => Vec::new(),
                };
                self.op_build_object(vm, &names);
            },
            Instruction::Get => {
                self.op_get(vm)?;
            },
            Instruction::SetItem => {
                self.op_set_item(vm)?;
            },
            Instruction::Closure => self.op_closure(vm),
            Instruction::Call => {
                proof {
                    vm.lemma_code_len(self.spec_closure());
                    let argc = self.operand(vm, 1) as usize;
                    let slot = (vm.stack_view().len() - argc - 1) as usize;
                    assert(slot as int == vm.stack_view().len() - self.operand(vm, 1) - 1);
                }
                let (frame, slot, argc) = self.op_call_setup(vm)?;
                return Ok(Step::Call(frame, slot, argc));
            },
            Instruction::GetUpValue => self.op_get_up_value(vm),
            Instruction::SetUpValue => self.op_set_up_value(vm),
            Instruction::CloseUpValue => self.op_close_up_value(vm),
            Instruction::Return => {
                return Ok(Step::Return(self.op_return(vm)));
            },
            Instruction::AppendHandler => self.op_append_handler(vm),
            Instruction::PopHandler => self.op_pop_handler(vm),
            Instruction::Throw => {
                self.op_throw(vm)?;
            },
            Instruction::Unknown => {},
        }
        Ok(Step::Next)
    }

    /// Whether a call made by the current `Call` instruction can be
    /// finished on the frame and machine as they are: the frame runs a
    /// closure of the machine, the next instruction pointer fits in `i32`,
    /// and an error could be caught or reported here.
    pub fn finish_admitted(&self, vm: &Vm) -> (b: bool)
        requires
            vm.inv(),
        ensures
            b == (self.runs(vm) && self.spec_ip() + 2 <= i32::MAX && handler_ok(*self, *vm)),
    {
        proof {
            assert(vm.closures@.len() == vm.closures.len());
        }
        !self.is_native() && self.get_closure() < vm.closures.len() && self.get_ip() <= 0x7fff_fffd
            && self.check_handler(vm)
    }
}

} // verus!
