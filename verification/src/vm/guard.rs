use vstd::prelude::*;

use crate::chunk::{decode, spec_combine, Instruction};
use crate::value::{Object, ObjectView, UpValue, UpValueView, Value, ValueView};
use crate::vm::ops::{index_of_key, indexable, ready};
use crate::vm::{capture, Frame, Vm};

verus! {

/// The instruction and its operands (`width` bytes in all) are in the code,
/// and the next instruction pointer fits in `i32`.
pub open spec fn fits(frame: Frame, vm: Vm, width: int) -> bool {
    &&& frame.spec_ip() + width <= i32::MAX
    &&& frame.spec_ip() + width - 1 < frame.code(&vm).len()
}

/// The stack holds at least `pops` values, and no open cell points at one
/// of the top `pops`.
pub open spec fn can_pop(vm: Vm, pops: int) -> bool {
    &&& vm.stack_view().len() >= pops
    &&& vm.open_cells_below(vm.stack_view().len() - pops)
}

/// The captured variable named by the operand exists, and while open it
/// points into the stack.
pub open spec fn up_value_ok(frame: Frame, vm: Vm) -> bool {
    let captured = vm.captured_of(frame.spec_closure());
    &&& frame.operand(&vm, 1) < captured.len()
    &&& captured[frame.operand(&vm, 1) as int] < vm.cells().len()
    &&& vm.cells()[captured[frame.operand(&vm, 1) as int] as int] matches UpValueView::Open(i)
        ==> i < vm.stack_view().len()
}

/// The innermost handler, if any, lies at or after the instruction pointer,
/// and the jump to it fits in `i32`; with no handler, the instruction has a
/// token to report an error at.
pub open spec fn handler_ok(frame: Frame, vm: Vm) -> bool {
    let ip = frame.spec_ip();
    if frame.handlers_view().len() > 0 {
        let h = frame.handlers_view().last();
        &&& h.target() >= ip
        &&& i32::MIN <= (ip as i32) + ((h.target() - ip) as i32) <= i32::MAX
    } else {
        ip < vm.tokens_of(frame.spec_closure()).len()
    }
}

/// Each variable that `Closure` captures is a local below the function on
/// top of the stack, or a variable that the enclosing closure captured.
pub open spec fn captures_ok(frame: Frame, vm: Vm) -> bool {
    forall|k: int|
        0 <= k < frame.operand(&vm, 1) ==> {
            let (local, i) = #[trigger] capture(frame.code(&vm), frame.spec_ip(), k);
            &&& local ==> frame.spec_slots() + i < vm.stack_view().len() - 1
            &&& !local ==> (frame->enclosing_up_values matches Some(e) && e < vm.closure_count()
                && i < vm.captured_of(e).len())
        }
}

/// The value that `Call` calls is a closure of the machine or a native.
pub open spec fn callee_ok(frame: Frame, vm: Vm) -> bool {
    let s = vm.stack_view();
    let callee = s[s.len() - frame.operand(&vm, 1) - 1];
    ||| callee matches ValueView::Object(ObjectView::Closure(c)) && c < vm.closure_count()
    ||| callee matches ValueView::Object(ObjectView::Native(_))
}

/// What the operation of the frame's current instruction needs of the
/// frame and the machine: the frame runs a closure of the machine and has
/// an instruction at its pointer, whose operands, stack values, cells and
/// handlers are as that operation takes them.
pub open spec fn admits(frame: Frame, vm: Vm) -> bool {
    let s = vm.stack_view();
    let len = s.len();
    let ip = frame.spec_ip();
    &&& frame.runs(&vm)
    &&& ip < frame.code(&vm).len()
    &&& match decode(frame.code(&vm)[ip as int]) {
        Instruction::Pop => fits(frame, vm, 1) && can_pop(vm, 1),
        Instruction::Constant8 => fits(frame, vm, 2) && frame.operand(&vm, 1) < vm.constants_of(
            frame.spec_closure(),
        ).len(),
        Instruction::Constant16 => fits(frame, vm, 3) && spec_combine(
            frame.operand(&vm, 1),
            frame.operand(&vm, 2),
        ) < vm.constants_of(frame.spec_closure()).len(),
        Instruction::Negate | Instruction::Not => ready(frame, vm, 1) && can_pop(vm, 1),
        Instruction::Add
        | Instruction::Subtract
        | Instruction::Multiply
        | Instruction::Divide
        | Instruction::Remainder
        | Instruction::Equal
        | Instruction::Greater
        | Instruction::GreaterEqual
        | Instruction::Less
        | Instruction::LessEqual
        | Instruction::DefineGlobal => ready(frame, vm, 1) && can_pop(vm, 2),
        Instruction::Jump => ip + 65535 <= i32::MAX && fits(frame, vm, 3),
        Instruction::JumpIfFalse | Instruction::JumpIfTrue => ip + 65535 <= i32::MAX && fits(
            frame,
            vm,
            3,
        ) && len > 0,
        Instruction::Loop => ip <= i32::MAX && ip + 2 < frame.code(&vm).len(),
        Instruction::SetGlobal => ready(frame, vm, 1) && len >= 2 && can_pop(vm, 1),
        Instruction::GetGlobal => ready(frame, vm, 1) && can_pop(vm, 1),
        Instruction::GetLocal | Instruction::SetLocal => fits(frame, vm, 2) && frame.spec_slots()
            + frame.operand(&vm, 1) < len,
        Instruction::BuildList => fits(frame, vm, 2) && can_pop(vm, frame.operand(&vm, 1) as int),
        Instruction::BuildObject => fits(frame, vm, 2) && can_pop(
            vm,
            2 * frame.operand(&vm, 1),
        ),
        Instruction::Get => ready(frame, vm, 1) && can_pop(vm, 2) && indexable(
            vm,
            s[len - 2],
            s[len - 1],
        ),
        Instruction::SetItem => ready(frame, vm, 1) && len >= 3 && can_pop(vm, 2) && indexable(
            vm,
            s[len - 2],
            s[len - 1],
        ),
        Instruction::Closure => {
            &&& fits(frame, vm, 2)
            &&& fits(frame, vm, 2 + 2 * frame.operand(&vm, 1))
            &&& can_pop(vm, 1)
            &&& s.last() matches ValueView::Object(ObjectView::Function(f)) && f < vm.function_count()
            &&& captures_ok(frame, vm)
        },
        Instruction::Call => {
            &&& fits(frame, vm, 2)
            &&& ip < vm.tokens_of(frame.spec_closure()).len()
            &&& frame.operand(&vm, 1) + 1 <= len
            &&& callee_ok(frame, vm)
            &&& handler_ok(frame, vm)
        },
        Instruction::GetUpValue => fits(frame, vm, 2) && up_value_ok(frame, vm),
        Instruction::SetUpValue => fits(frame, vm, 2) && len > 0 && up_value_ok(frame, vm),
        Instruction::CloseUpValue => fits(frame, vm, 1) && len > 0,
        Instruction::Return => can_pop(vm, 1),
        Instruction::AppendHandler => fits(frame, vm, 3),
        Instruction::PopHandler => fits(frame, vm, 1),
        Instruction::Throw => can_pop(vm, 1) && len > 0 && handler_ok(frame, vm),
        Instruction::Unknown => false,
    }
}

/// Whether no open cell points at stack index `n` or above.
fn cells_below(vm: &Vm, n: usize) -> (b: bool)
    requires
        vm.inv(),
    ensures
        b == vm.open_cells_below(n as int),
{
    let count = vm.open_up_values.len();
    for k in 0..count
        invariant
            count == vm.open_up_values@.len(),
            vm.inv(),
            forall|j: int|
                0 <= j < k ==> (vm.up_values@[#[trigger] vm.open_up_values@[j] as int] matches UpValue::Open(
                    i,
                ) && i < n),
    {
        let id = vm.open_up_values[k];
        match &vm.up_values[id] {
            UpValue::Open(i) => {
                if *i >= n {
                    return false;
                }
            },
            UpValue::Closed(_) => {
                return false;
            },
        }
    }
    true
}

/// Whether the containers that `obj` may name are in the heaps with
/// lengths that fit in `i32`, and a key read as an index is not `i32::MIN`.
fn check_indexable(vm: &Vm, obj: &Value, key: &Value) -> (b: bool)
    requires
        vm.inv(),
    ensures
        b == indexable(*vm, obj@, key@),
{
    let key_ok = match key {
        Value::Number(n) => match crate::number::whole_i32(*n) {
            Some(i) => i != i32::MIN,
            None => true,
        },
        _ => true,
    };
    assert(key_ok == (index_of_key(key@) != Some(i32::MIN)));
    if !key_ok {
        return false;
    }
    match obj {
        Value::Object(Object::Object(o)) => {
            proof {
                assert(vm.objects@.len() == vm.objects.len());
            }
            *o < vm.objects.len()
        },
        Value::Object(Object::List(l)) => {
            proof {
                assert(vm.lists@.len() == vm.lists.len());
            }
            *l < vm.lists.len() && vm.list_len(*l) <= 0x7fff_ffff
        },
        Value::Object(Object::String(t)) => t.as_str().unicode_len() <= 0x7fff_ffff,
        _ => true,
    }
}

impl Frame {
    /// The code byte at `at` of the running closure, if the code is that
    /// long.
    fn byte_at(&self, vm: &Vm, at: usize) -> (r: Option<u8>)
        requires
            vm.inv(),
            self.wf(vm),
            !self.spec_is_native(),
        ensures
            r == (if at < self.code(vm).len() {
                Some(self.code(vm)[at as int])
            } else {
                None
            }),
    {
        vm.functions[vm.closures[self.get_closure()].function].chunk.get_byte(at)
    }

    /// Whether the instruction and its operands (`width` bytes) are in the
    /// code and the next instruction pointer fits in `i32`.
    fn check_fits(&self, vm: &Vm, width: usize) -> (b: bool)
        requires
            vm.inv(),
            self.wf(vm),
            !self.spec_is_native(),
            1 <= width <= 0x1_0000,
        ensures
            b == fits(*self, *vm, width as int),
    {
        let ip = self.get_ip();
        if ip > 0x7fff_ffff - width {
            return false;
        }
        self.byte_at(vm, ip + width - 1).is_some()
    }
}

/// Whether the stack holds at least `pops` values and no open cell points
/// at one of the top `pops`.
fn check_pop(vm: &Vm, pops: usize) -> (b: bool)
    requires
        vm.inv(),
    ensures
        b == can_pop(*vm, pops as int),
{
    proof {
        assert(vm.stack@.len() == vm.stack.len());
    }
    let len = vm.stack.len();
    len >= pops && cells_below(vm, len - pops)
}

impl Frame {
    /// Whether the instruction (of `width` bytes) may raise an error here:
    /// it fits, and it has a token.
    fn check_ready(&self, vm: &Vm, width: usize) -> (b: bool)
        requires
            vm.inv(),
            self.wf(vm),
            !self.spec_is_native(),
            1 <= width <= 0x1_0000,
        ensures
            b == ready(*self, *vm, width as int),
    {
        let chunk = &vm.functions[vm.closures[self.get_closure()].function].chunk;
        proof {
            assert(chunk.tokens@.len() == chunk.tokens.len());
        }
        self.check_fits(vm, width) && self.get_ip() < chunk.tokens.len()
    }

    /// Whether the innermost handler (if any) lies at or after the
    /// instruction pointer with the jump to it fitting in `i32`, or, with
    /// none, the instruction has a token.
    pub(crate) fn check_handler(&self, vm: &Vm) -> (b: bool)
        requires
            vm.inv(),
            self.wf(vm),
            !self.spec_is_native(),
        ensures
            b == handler_ok(*self, *vm),
    {
        let ip = self.get_ip();
        match self {
            Frame::Closure { handlers, closure, .. } => {
                let n = handlers.len();
                if n > 0 {
                    let target = handlers[n - 1].ip;
                    if target < ip {
                        return false;
                    }
                    #[verifier::truncate]
                    let a: i32 = ip as i32;
                    #[verifier::truncate]
                    let d: i32 = (target - ip) as i32;
                    let sum: i64 = a as i64 + d as i64;
                    sum >= -0x8000_0000 && sum <= 0x7fff_ffff
                } else {
                    let chunk = &vm.functions[vm.closures[*closure].function].chunk;
                    proof {
                        assert(chunk.tokens@.len() == chunk.tokens.len());
                    }
                    ip < chunk.tokens.len()
                }
            },
            Frame::Native { .. } => false,
        }
    }

    /// Whether the captured variable named by the operand byte exists and,
    /// while open, points into the stack.
    fn check_up_value(&self, vm: &Vm) -> (b: bool)
        requires
            vm.inv(),
            self.wf(vm),
            !self.spec_is_native(),
            self.spec_ip() + 1 < self.code(vm).len(),
        ensures
            b == up_value_ok(*self, *vm),
    {
        let k = self.read_byte(vm);
        let captured = &vm.closures[self.get_closure()].up_values;
        proof {
            assert(captured@.len() == captured.len());
            assert(vm.up_values@.len() == vm.up_values.len());
            assert(vm.stack@.len() == vm.stack.len());
        }
        if k >= captured.len() {
            return false;
        }
        let id = captured[k];
        if id >= vm.up_values.len() {
            return false;
        }
        match &vm.up_values[id] {
            UpValue::Open(i) => *i < vm.stack.len(),
            UpValue::Closed(_) => true,
        }
    }

    /// Whether each variable that `Closure` captures is a local below the
    /// function on top of the stack or one the enclosing closure captured.
    fn check_captures(&self, vm: &Vm) -> (b: bool)
        requires
            vm.inv(),
            self.wf(vm),
            !self.spec_is_native(),
            fits(*self, *vm, 2 + 2 * self.operand(vm, 1)),
            vm.stack_view().len() > 0,
        ensures
            b == captures_ok(*self, *vm),
    {
        proof {
            assert(vm.stack@.len() == vm.stack.len());
            assert(vm.closures@.len() == vm.closures.len());
        }
        let count = self.read_byte(vm);
        let ip = self.get_ip();
        let slots = self.get_slots();
        let len = vm.stack.len();
        for k in 0..count
            invariant
                count == self.operand(vm, 1),
                ip == self.spec_ip(),
                slots == self.spec_slots(),
                len == vm.stack_view().len(),
                len > 0,
                vm.inv(),
                self.wf(vm),
                !self.spec_is_native(),
                fits(*self, *vm, 2 + 2 * self.operand(vm, 1)),
                vm.closures@.len() == vm.closures.len(),
                forall|j: int|
                    0 <= j < k ==> {
                        let (local, i) = #[trigger] capture(self.code(vm), self.spec_ip(), j);
                        &&& local ==> self.spec_slots() + i < vm.stack_view().len() - 1
                        &&& !local ==> (self->enclosing_up_values matches Some(e) && e
                            < vm.closure_count() && i < vm.captured_of(e).len())
                    },
        {
            let first = self.byte_at(vm, ip + 2 + 2 * k);
            let second = self.byte_at(vm, ip + 3 + 2 * k);
            let local = match first {
                Some(b) => b != 0,
                None => false,
            };
            let i = match second {
                Some(b) => b as usize,
                None => 0,
            };
            assert(capture(self.code(vm), self.spec_ip(), k as int) == (local, i));
            if local {
                if slots >= len - 1 || i >= len - 1 - slots {
                    return false;
                }
            } else {
                match self.get_enclosing_up_values() {
                    Some(e) => {
                        if e >= vm.closures.len() {
                            return false;
                        }
                        proof {
                            assert(vm.closures@[e as int].up_values@.len() == vm.closures[e as int].up_values.len());
                        }
                        if i >= vm.closures[e].up_values.len() {
                            return false;
                        }
                    },
                    None => {
                        return false;
                    },
                }
            }
        }
        true
    }

    /// Whether the operation of the current instruction can run on the
    /// frame and machine as they are (see `admits`).
    pub fn admitted(&self, vm: &Vm) -> (b: bool)
        requires
            vm.inv(),
        ensures
            b == admits(*self, *vm),
    {
        proof {
            assert(vm.stack@.len() == vm.stack.len());
            assert(vm.closures@.len() == vm.closures.len());
            assert(vm.functions@.len() == vm.functions.len());
        }
        if self.is_native() {
            return false;
        }
        if self.get_closure() >= vm.closures.len() {
            return false;
        }
        let ip = self.get_ip();
        let instr = match self.cur_instr(vm) {
            Some(i) => i,
            None => {
                return false;
            },
        };
        let len = vm.stack.len();
        let chunk = &vm.functions[vm.closures[self.get_closure()].function].chunk;
        proof {
            assert(chunk.constants@.len() == chunk.constants.len());
        }
        match instr {
            Instruction::Pop => self.check_fits(vm, 1) && check_pop(vm, 1),
            Instruction::Constant8 => self.check_fits(vm, 2) && self.read_byte(vm) < chunk.constants.len(),
            Instruction::Constant16 => self.check_fits(vm, 3) && self.read_2bytes(vm) < chunk.constants.len(),
            Instruction::Negate | Instruction::Not => self.check_ready(vm, 1) && check_pop(vm, 1),
            Instruction::Add
            | Instruction::Subtract
            | Instruction::Multiply
            | Instruction::Divide
            | Instruction::Remainder
            | Instruction::Equal
            | Instruction::Greater
            | Instruction::GreaterEqual
            | Instruction::Less
            | Instruction::LessEqual
            | Instruction::DefineGlobal => self.check_ready(vm, 1) && check_pop(vm, 2),
            Instruction::Jump => ip <= 0x7fff_ffff - 65535 && self.check_fits(vm, 3),
            Instruction::JumpIfFalse | Instruction::JumpIfTrue => ip <= 0x7fff_ffff - 65535
                && self.check_fits(vm, 3) && len > 0,
            Instruction::Loop => ip <= 0x7fff_ffff && self.byte_at(vm, ip + 2).is_some(),
            Instruction::SetGlobal => self.check_ready(vm, 1) && len >= 2 && check_pop(vm, 1),
            Instruction::GetGlobal => self.check_ready(vm, 1) && check_pop(vm, 1),
            Instruction::GetLocal | Instruction::SetLocal => self.check_fits(vm, 2) && self.get_slots()
                < len && self.read_byte(vm) < len - self.get_slots(),
            Instruction::BuildList => self.check_fits(vm, 2) && check_pop(vm, self.read_byte(vm)),
            Instruction::BuildObject => self.check_fits(vm, 2) && check_pop(vm, 2 * self.read_byte(vm)),
            Instruction::Get => self.check_ready(vm, 1) && check_pop(vm, 2) && check_indexable(
                vm,
                &vm.stack[len - 2],
                &vm.stack[len - 1],
            ),
            Instruction::SetItem => self.check_ready(vm, 1) && len >= 3 && check_pop(vm, 2)
                && check_indexable(vm, &vm.stack[len - 2], &vm.stack[len - 1]),
            Instruction::Closure => {
                if !self.check_fits(vm, 2) {
                    return false;
                }
                let count = self.read_byte(vm);
                if !self.check_fits(vm, 2 + 2 * count) || !check_pop(vm, 1) {
                    return false;
                }
                let function_ok = match &vm.stack[len - 1] {
                    Value::Object(Object::Function(f)) => *f < vm.functions.len(),
                    _ => false,
                };
                function_ok && self.check_captures(vm)
            },
            Instruction::Call => {
                if !self.check_fits(vm, 2) || ip >= chunk.tokens.len() {
                    return false;
                }
                proof {
                    assert(chunk.tokens@.len() == chunk.tokens.len());
                }
                let argc = self.read_byte(vm);
                if argc + 1 > len {
                    return false;
                }
                let callee_fits = match &vm.stack[len - argc - 1] {
                    Value::Object(Object::Closure(c)) => *c < vm.closures.len(),
                    Value::Object(Object::Native(_)) => true,
                    _ => false,
                };
                callee_fits && self.check_handler(vm)
            },
            Instruction::GetUpValue => self.check_fits(vm, 2) && self.check_up_value(vm),
            Instruction::SetUpValue => self.check_fits(vm, 2) && len > 0 && self.check_up_value(vm),
            Instruction::CloseUpValue => self.check_fits(vm, 1) && len > 0,
            Instruction::Return => check_pop(vm, 1),
            Instruction::AppendHandler => self.check_fits(vm, 3),
            Instruction::PopHandler => self.check_fits(vm, 1),
            Instruction::Throw => check_pop(vm, 1) && len > 0 && self.check_handler(vm),
            Instruction::Unknown => false,
        }
    }
}

impl Frame {
    /// The instruction at the instruction pointer, if the frame runs a
    /// closure of the machine and its code goes that far.
    pub fn instruction(&self, vm: &Vm) -> (r: Option<Instruction>)
        requires
            vm.inv(),
        ensures
            r == (if self.runs(vm) && self.spec_ip() < self.code(vm).len() {
                Some(decode(self.code(vm)[self.spec_ip() as int]))
            } else {
                None
            }),
    {
        proof {
            assert(vm.closures@.len() == vm.closures.len());
        }
        if self.is_native() || self.get_closure() >= vm.closures.len() {
            return None;
        }
        self.cur_instr(vm)
    }

    /// The operand byte after the current instruction, if the frame runs a
    /// closure of the machine and its code goes that far.
    pub fn operand_byte(&self, vm: &Vm) -> (r: Option<u8>)
        requires
            vm.inv(),
        ensures
            r == (if self.runs(vm) && self.spec_ip() + 1 < self.code(vm).len() {
                Some(self.operand(vm, 1))
            } else {
                None
            }),
    {
        proof {
            assert(vm.closures@.len() == vm.closures.len());
        }
        if self.is_native() || self.get_closure() >= vm.closures.len() {
            return None;
        }
        proof {
            vm.lemma_code_len(self.spec_closure());
        }
        if self.get_ip() == usize::MAX {
            return None;
        }
        self.byte_at(vm, self.get_ip() + 1)
    }

    /// The native that the frame runs, if it runs one.
    pub fn native_index(&self) -> (r: Option<usize>)
        ensures
            r == (if self.spec_is_native() {
                Some(self->native)
            } else {
                None
            }),
    {
        if self.is_native() {
            Some(self.get_native())
        } else {
            None
        }
    }
}

impl Vm {
    /// The value `distance` places below the top of the stack, if the stack
    /// is that deep.
    pub fn top(&self, distance: usize) -> (r: Option<&Value>)
        ensures
            distance < self.stack_view().len() ==> (r matches Some(v) && v@ == self.stack_view()[self.stack_view().len() - 1 - distance]),
            distance >= self.stack_view().len() ==> r is None,
    {
        proof {
            assert(self.stack@.len() == self.stack.len());
        }
        let n = self.stack.len();
        if distance < n {
            Some(&self.stack[n - 1 - distance])
        } else {
            None
        }
    }
}

} // verus!
