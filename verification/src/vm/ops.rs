use vstd::prelude::*;

use crate::chunk::{decode, spec_combine, Instruction};
use crate::number::{clamp_i32, is_whole, truncated, whole_i32};
use crate::value::{Object, ObjectView, Value, ValueView};
use crate::vm::globals::{table_view, unique_names, Globals};
use crate::vm::{absolute_index, spec_absolute_index, Backtrace, Frame, Vm};
use vstd::string::StringExecFns;

verus! {

/// The sign bit of a double: negating a number flips it.
pub const SIGN_BIT: u64 = 0x8000_0000_0000_0000;

/// The instruction at the frame's instruction pointer.
pub open spec fn current(frame: Frame, vm: Vm) -> Instruction {
    decode(frame.code(&vm)[frame.spec_ip() as int])
}

/// `e` is the error raised with `message` at the frame's current
/// instruction: the message as a string value, and a backtrace of that
/// instruction's token and the running function's name.
pub open spec fn raised_at(e: (Value, Backtrace), vm: Vm, frame: Frame, message: Seq<char>) -> bool {
    &&& e.0@ == ValueView::Object(ObjectView::String(message))
    &&& e.1.entries() == seq![
        (vm.tokens_of(frame.spec_closure())[frame.spec_ip() as int], vm.name_of(frame.spec_closure())),
    ]
}

/// The frame can execute an instruction of `width` bytes that may raise an
/// error: it runs a closure, the instruction and its operands are in the
/// code, the instruction has a token, and the next instruction pointer fits
/// in `i32`.
pub open spec fn ready(frame: Frame, vm: Vm, width: int) -> bool {
    &&& frame.runs(&vm)
    &&& frame.spec_ip() + width <= i32::MAX
    &&& frame.spec_ip() + width - 1 < frame.code(&vm).len()
    &&& frame.spec_ip() < vm.tokens_of(frame.spec_closure()).len()
}

/// The frame after an instruction of `width` bytes.
pub open spec fn next(frame: Frame, width: int) -> Frame {
    frame.at_ip((frame.spec_ip() + width) as usize)
}

/// The binary operations whose operands the value semantics may refuse.
pub open spec fn may_refuse(i: Instruction) -> bool {
    ||| i is Subtract
    ||| i is Multiply
    ||| i is Divide
    ||| i is Remainder
}

/// The operations that take the two top values and put one value back.
pub open spec fn is_binary(i: Instruction) -> bool {
    may_refuse(i) || i is Add || i is Equal
}

/// What a binary operation says when it refuses its operands.
pub open spec fn refusal(i: Instruction) -> Seq<char> {
    match i {
        Instruction::Subtract => "لا يقبل المعاملان الطرح من بعضهما"@,
        Instruction::Multiply => "لا يقبل المعاملان الضرب في بعضهما"@,
        _ => "لا يقبل المعاملان القسمة على بعضهما"@,
    }
}

/// The stack without its top `n` values.
pub open spec fn below(stack: Seq<ValueView>, n: int) -> Seq<ValueView> {
    stack.take(stack.len() - n)
}

impl Frame {
    /// `Negate`: the top value, which must be a number, is replaced by its
    /// negation (its sign bit flipped). Any other value is an error.
    pub fn op_negate(&mut self, vm: &mut Vm) -> (r: Result<(), (Value, Backtrace)>)
        requires
            ready(*old(self), *old(vm), 1),
            old(vm).stack_view().len() > 0,
            old(vm).open_cells_below(old(vm).stack_view().len() - 1),
        ensures
            final(vm).inv(),
            final(vm).same_heaps(*old(vm)),
            match old(vm).stack_view().last() {
                ValueView::Number(n) => {
                    &&& r is Ok
                    &&& final(vm).stack_view() == below(old(vm).stack_view(), 1).push(
                        ValueView::Number(n ^ SIGN_BIT),
                    )
                    &&& *final(self) == next(*old(self), 1)
                },
                _ => {
                    &&& r matches Err(e) && raised_at(e, *old(vm), *old(self), "يجب أن يكون المعامل رقماً"@)
                    &&& final(vm).stack_view() == below(old(vm).stack_view(), 1)
                    &&& *final(self) == *old(self)
                },
            },
    {
        let popped = self.pop(vm);
        match popped {
            Value::Number(n) => {
                self.push(vm, Value::Number(n ^ SIGN_BIT));
                self.move_ip(1);
                Ok(())
            },
            _ => Err(self.string_to_err(vm, String::from_str("يجب أن يكون المعامل رقماً"))),
        }
    }

    /// `Not`: the top value is replaced by `result`, its logical negation
    /// under the value semantics.
    pub fn op_not(&mut self, vm: &mut Vm, result: Value)
        requires
            ready(*old(self), *old(vm), 1),
            old(vm).stack_view().len() > 0,
            old(vm).open_cells_below(old(vm).stack_view().len() - 1),
        ensures
            final(vm).inv(),
            final(vm).same_heaps(*old(vm)),
            final(vm).stack_view() == below(old(vm).stack_view(), 1).push(result@),
            *final(self) == next(*old(self), 1),
    {
        self.pop(vm);
        self.push(vm, result);
        self.move_ip(1);
    }

    /// `Add`, `Subtract`, `Multiply`, `Divide`, `Remainder` and `Equal`:
    /// the two top values are replaced by `result`, the outcome of the
    /// operation under the value semantics; `None` there means the operands
    /// do not suit it, which is an error (addition and equality suit any
    /// operands).
    pub fn op_binary(&mut self, vm: &mut Vm, result: Option<Value>) -> (r: Result<(), (Value, Backtrace)>)
        requires
            ready(*old(self), *old(vm), 1),
            is_binary(current(*old(self), *old(vm))),
            !may_refuse(current(*old(self), *old(vm))) ==> result is Some,
            old(vm).stack_view().len() >= 2,
            old(vm).open_cells_below(old(vm).stack_view().len() - 2),
        ensures
            final(vm).inv(),
            final(vm).same_heaps(*old(vm)),
            match result {
                Some(v) => {
                    &&& r is Ok
                    &&& final(vm).stack_view() == below(old(vm).stack_view(), 2).push(v@)
                    &&& *final(self) == next(*old(self), 1)
                },
                None => {
                    &&& r matches Err(e) && raised_at(e, *old(vm), *old(self), refusal(current(*old(self), *old(vm))))
                    &&& final(vm).stack_view() == below(old(vm).stack_view(), 2)
                    &&& *final(self) == *old(self)
                },
            },
    {
        let instr = match self.cur_instr(vm) {
            Some(i) => i,
            None => Instruction::Unknown,
        };
        self.pop(vm);
        self.pop(vm);
        proof {
            assert(vm.stack_view() =~= below(old(vm).stack_view(), 2));
        }
        match result {
            Some(v) => {
                self.push(vm, v);
                self.move_ip(1);
                Ok(())
            },
            None => {
                let message = match instr {
                    Instruction::Subtract => String::from_str("لا يقبل المعاملان الطرح من بعضهما"),
                    Instruction::Multiply => String::from_str("لا يقبل المعاملان الضرب في بعضهما"),
                    _ => String::from_str("لا يقبل المعاملان القسمة على بعضهما"),
                };
                Err(self.string_to_err(vm, message))
            },
        }
    }

    /// `Greater`, `GreaterEqual`, `Less` and `LessEqual`: the two top
    /// values, which must both be numbers, are replaced by whether the
    /// comparison `holds` of them. Other operands are an error.
    pub fn op_compare(&mut self, vm: &mut Vm, holds: bool) -> (r: Result<(), (Value, Backtrace)>)
        requires
            ready(*old(self), *old(vm), 1),
            old(vm).stack_view().len() >= 2,
            old(vm).open_cells_below(old(vm).stack_view().len() - 2),
        ensures
            final(vm).inv(),
            final(vm).same_heaps(*old(vm)),
            ({
                let s = old(vm).stack_view();
                if s[s.len() - 2] is Number && s[s.len() - 1] is Number {
                    &&& r is Ok
                    &&& final(vm).stack_view() == below(s, 2).push(ValueView::Bool(holds))
                    &&& *final(self) == next(*old(self), 1)
                } else {
                    &&& r matches Err(e) && raised_at(e, *old(vm), *old(self), "يجب أن يكون المعاملان أرقاماً"@)
                    &&& final(vm).stack_view() == below(s, 2)
                    &&& *final(self) == *old(self)
                }
            }),
    {
        let b = self.pop(vm);
        let a = self.pop(vm);
        proof {
            assert(vm.stack_view() =~= below(old(vm).stack_view(), 2));
        }
        match (a, b) {
            (Value::Number(_), Value::Number(_)) => {
                self.push(vm, Value::Bool(holds));
                self.move_ip(1);
                Ok(())
            },
            _ => Err(self.string_to_err(vm, String::from_str("يجب أن يكون المعاملان أرقاماً"))),
        }
    }

    /// `JumpIfFalse`: with a falsy top value (as the value semantics judge
    /// it: `truthy`), moves forward by the offset in the next two bytes;
    /// otherwise goes on past them. The value stays.
    pub fn op_jump_if_false(&mut self, vm: &Vm, truthy: bool)
        requires
            old(self).runs(vm),
            old(self).spec_ip() + 65535 <= i32::MAX,
            old(self).spec_ip() + 2 < old(self).code(vm).len(),
        ensures
            *final(self) == (if truthy {
                next(*old(self), 3)
            } else {
                next(*old(self), spec_combine(old(self).operand(vm, 1), old(self).operand(vm, 2)) as int)
            }),
    {
        let progress: i32 = if truthy {
            3
        } else {
            self.read_2bytes(vm) as i32
        };
        self.move_ip(progress);
    }

    /// `JumpIfTrue`: with a truthy top value, moves forward by the offset in
    /// the next two bytes; otherwise goes on past them. The value stays.
    pub fn op_jump_if_true(&mut self, vm: &Vm, truthy: bool)
        requires
            old(self).runs(vm),
            old(self).spec_ip() + 65535 <= i32::MAX,
            old(self).spec_ip() + 2 < old(self).code(vm).len(),
        ensures
            *final(self) == (if truthy {
                next(*old(self), spec_combine(old(self).operand(vm, 1), old(self).operand(vm, 2)) as int)
            } else {
                next(*old(self), 3)
            }),
    {
        let progress: i32 = if truthy {
            self.read_2bytes(vm) as i32
        } else {
            3
        };
        self.move_ip(progress);
    }
}

impl Frame {
    /// `DefineGlobal`: the top value names a new global variable (`name` is
    /// its text) and the value below it is its value; both leave the stack.
    /// A name that is already defined is an error.
    pub fn op_define_global(&mut self, vm: &mut Vm, name: String) -> (r: Result<(), (Value, Backtrace)>)
        requires
            ready(*old(self), *old(vm), 1),
            old(vm).stack_view().len() >= 2,
            old(vm).open_cells_below(old(vm).stack_view().len() - 2),
        ensures
            final(vm).inv(),
            final(vm).same_heaps_but_globals(*old(vm)),
            final(vm).stack_view() == below(old(vm).stack_view(), 2),
            if old(vm).globals_view().contains_key(name@) {
                &&& r matches Err(e) && raised_at(e, *old(vm), *old(self), "يوجد متغير بهذا الاسم"@)
                &&& final(vm).globals_view() == old(vm).globals_view()
                &&& *final(self) == *old(self)
            } else {
                &&& r is Ok
                &&& final(vm).globals_view() == old(vm).globals_view().insert(
                    name@,
                    old(vm).stack_view()[old(vm).stack_view().len() - 2],
                )
                &&& *final(self) == next(*old(self), 1)
            },
    {
        self.pop(vm);
        let value = self.pop(vm);
        proof {
            assert(vm.stack_view() =~= below(old(vm).stack_view(), 2));
        }
        if vm.global(&name).is_some() {
            return Err(self.string_to_err(vm, String::from_str("يوجد متغير بهذا الاسم")));
        }
        vm.bind_global(name, value);
        self.move_ip(1);
        Ok(())
    }

    /// `SetGlobal`: the top value names a defined global variable (`name`
    /// is its text) and leaves the stack; the variable takes the value below
    /// it, which stays. An undefined name is an error.
    pub fn op_set_global(&mut self, vm: &mut Vm, name: String) -> (r: Result<(), (Value, Backtrace)>)
        requires
            ready(*old(self), *old(vm), 1),
            old(vm).stack_view().len() >= 2,
            old(vm).open_cells_below(old(vm).stack_view().len() - 1),
        ensures
            final(vm).inv(),
            final(vm).same_heaps_but_globals(*old(vm)),
            final(vm).stack_view() == below(old(vm).stack_view(), 1),
            if old(vm).globals_view().contains_key(name@) {
                &&& r is Ok
                &&& final(vm).globals_view() == old(vm).globals_view().insert(
                    name@,
                    old(vm).stack_view()[old(vm).stack_view().len() - 2],
                )
                &&& *final(self) == next(*old(self), 1)
            } else {
                &&& r matches Err(e) && raised_at(e, *old(vm), *old(self), "لا يوجد متغير بهذا الاسم"@)
                &&& final(vm).globals_view() == old(vm).globals_view()
                &&& *final(self) == *old(self)
            },
    {
        self.pop(vm);
        proof {
            assert(vm.stack_view() =~= below(old(vm).stack_view(), 1));
        }
        let value = self.last(vm).clone();
        if vm.global(&name).is_none() {
            return Err(self.string_to_err(vm, String::from_str("لا يوجد متغير بهذا الاسم")));
        }
        vm.bind_global(name, value);
        self.move_ip(1);
        Ok(())
    }

    /// `GetGlobal`: the top value names a defined global variable (`name`
    /// is its text) and is replaced by the variable's value. An undefined
    /// name is an error.
    pub fn op_get_global(&mut self, vm: &mut Vm, name: String) -> (r: Result<(), (Value, Backtrace)>)
        requires
            ready(*old(self), *old(vm), 1),
            old(vm).stack_view().len() >= 1,
            old(vm).open_cells_below(old(vm).stack_view().len() - 1),
        ensures
            final(vm).inv(),
            final(vm).same_heaps(*old(vm)),
            if old(vm).globals_view().contains_key(name@) {
                &&& r is Ok
                &&& final(vm).stack_view() == below(old(vm).stack_view(), 1).push(
                    old(vm).globals_view()[name@],
                )
                &&& *final(self) == next(*old(self), 1)
            } else {
                &&& r matches Err(e) && raised_at(e, *old(vm), *old(self), "لا يوجد متغير بهذا الاسم"@)
                &&& final(vm).stack_view() == below(old(vm).stack_view(), 1)
                &&& *final(self) == *old(self)
            },
    {
        self.pop(vm);
        proof {
            assert(vm.stack_view() =~= below(old(vm).stack_view(), 1));
        }
        let value = match vm.global(&name) {
            Some(v) => v.clone(),
            None => {
                return Err(self.string_to_err(vm, String::from_str("لا يوجد متغير بهذا الاسم")));
            },
        };
        self.push(vm, value);
        self.move_ip(1);
        Ok(())
    }
}

/// A key read as an index into a list or string: a whole number, as
/// `i32` (saturating).
pub open spec fn index_of_key(key: ValueView) -> Option<i32> {
    match key {
        ValueView::Number(b) => if is_whole(b) {
            Some(clamp_i32(truncated(b)))
        } else {
            None
        },
        _ => None,
    }
}

/// What `Get` gives for `obj[key]`: a value, or the message of the error.
pub open spec fn get_outcome(vm: Vm, obj: ValueView, key: ValueView) -> Result<ValueView, Seq<char>> {
    let key_index = index_of_key(key);
    match obj {
        ValueView::Object(ObjectView::Object(o)) => match key {
            ValueView::Object(ObjectView::String(k)) => if vm.objects_view()[o as int].contains_key(k) {
                Ok(vm.objects_view()[o as int][k])
            } else {
                Err("لا يوجد قيمة بهذا الاسم"@)
            },
            _ => Err("يجب أن يكون اسم الخاصية نصاً"@),
        },
        ValueView::Object(ObjectView::List(l)) => match key_index {
            Some(i) => match spec_absolute_index(i, vm.lists_view()[l as int].len() as usize) {
                Some(j) => Ok(vm.lists_view()[l as int][j as int]),
                None => Err("لا يوجد عنصر بهذا الرقم"@),
            },
            None => Err("يجب أن يكون رقم العنصر عدداً صحيحاً"@),
        },
        ValueView::Object(ObjectView::String(t)) => match key_index {
            Some(i) => match spec_absolute_index(i, t.len() as usize) {
                Some(j) => Ok(ValueView::Object(ObjectView::String(seq![t[j as int]]))),
                None => Err("لا يوجد عنصر بهذا الرقم"@),
            },
            None => Err("يجب أن يكون رقم العنصر عدداً صحيحاً"@),
        },
        _ => Err("يجب أن يكون المتغير نص أو قائمة أو كائن"@),
    }
}

/// A place that `SetItem` writes: a property of an object, or an item of a
/// list.
pub enum Place {
    Property(usize, Seq<char>),
    Item(usize, usize),
}

/// Where `SetItem` writes for `obj[key]`, or the message of the error.
pub open spec fn set_outcome(vm: Vm, obj: ValueView, key: ValueView) -> Result<Place, Seq<char>> {
    let key_index = index_of_key(key);
    match obj {
        ValueView::Object(ObjectView::Object(o)) => match key {
            ValueView::Object(ObjectView::String(k)) => Ok(Place::Property(o, k)),
            _ => Err("يجب أن يكون اسم الخاصية نصاً"@),
        },
        ValueView::Object(ObjectView::List(l)) => match key_index {
            Some(i) => match spec_absolute_index(i, vm.lists_view()[l as int].len() as usize) {
                Some(j) => Ok(Place::Item(l, j)),
                None => Err("لا يوجد عنصر بهذا الرقم"@),
            },
            None => Err("يجب أن يكون رقم العنصر عدداً صحيحاً"@),
        },
        _ => Err("يجب أن يكون المتغير قائمة أو كائن"@),
    }
}

/// The containers `obj` may name are in the machine's heaps, their lengths
/// fit in `i32`, and a key read as an index is not `i32::MIN`.
pub open spec fn indexable(vm: Vm, obj: ValueView, key: ValueView) -> bool {
    &&& index_of_key(key) != Some(i32::MIN)
    &&& (obj matches ValueView::Object(ObjectView::Object(o)) ==> o < vm.objects_view().len())
    &&& (obj matches ValueView::Object(ObjectView::List(l)) ==> l < vm.lists_view().len()
        && vm.lists_view()[l as int].len() <= i32::MAX)
    &&& (obj matches ValueView::Object(ObjectView::String(t)) ==> t.len() <= i32::MAX)
}

/// A key read as an index into a list or string, if it is one.
fn key_as_index(key: &Value) -> (r: Option<i32>)
    ensures
        r == index_of_key(key@),
{
    match key {
        Value::Number(b) => whole_i32(*b),
        _ => None,
    }
}

/// Reads `obj[key]`, or gives the message of the error.
fn look_up(vm: &Vm, obj: &Value, key: &Value) -> (r: Result<Value, String>)
    requires
        vm.inv(),
        indexable(*vm, obj@, key@),
    ensures
        r matches Ok(v) ==> get_outcome(*vm, obj@, key@) == Ok::<ValueView, Seq<char>>(v@),
        r matches Err(m) ==> get_outcome(*vm, obj@, key@) == Err::<ValueView, Seq<char>>(m@),
{
    let key_index = key_as_index(key);
    match obj {
        Value::Object(Object::Object(o)) => match key {
            Value::Object(Object::String(k)) => match vm.property(*o, k) {
                Some(v) => Ok(v.clone()),
                None => Err(String::from_str("لا يوجد قيمة بهذا الاسم")),
            },
            _ => Err(String::from_str("يجب أن يكون اسم الخاصية نصاً")),
        },
        Value::Object(Object::List(l)) => match key_index {
            Some(i) => match absolute_index(i, vm.list_len(*l)) {
                Ok(j) => Ok(vm.list_item(*l, j).clone()),
                Err(()) => Err(String::from_str("لا يوجد عنصر بهذا الرقم")),
            },
            None => Err(String::from_str("يجب أن يكون رقم العنصر عدداً صحيحاً")),
        },
        Value::Object(Object::String(t)) => match key_index {
            Some(i) => {
                let text = t.as_str();
                match absolute_index(i, text.unicode_len()) {
                    Ok(j) => {
                        let c = String::from_str(text.substring_char(j, j + 1));
                        proof {
                            assert(c@ =~= seq![t@[j as int]]);
                        }
                        Ok(Value::new_string(c))
                    },
                    Err(()) => Err(String::from_str("لا يوجد عنصر بهذا الرقم")),
                }
            },
            None => Err(String::from_str("يجب أن يكون رقم العنصر عدداً صحيحاً")),
        },
        _ => Err(String::from_str("يجب أن يكون المتغير نص أو قائمة أو كائن")),
    }
}

impl Frame {
    /// `Get`: the object and key on top of the stack are replaced by the
    /// object's property of that name, the list's item at that index, or
    /// the string's character there (an index below zero counts from the
    /// end). A key of the wrong kind (a property name is a string, an
    /// index a whole number), a missing property or item, or a value that
    /// holds none, is an error.
    pub fn op_get(&mut self, vm: &mut Vm) -> (r: Result<(), (Value, Backtrace)>)
        requires
            ready(*old(self), *old(vm), 1),
            old(vm).stack_view().len() >= 2,
            old(vm).open_cells_below(old(vm).stack_view().len() - 2),
            indexable(
                *old(vm),
                old(vm).stack_view()[old(vm).stack_view().len() - 2],
                old(vm).stack_view()[old(vm).stack_view().len() - 1],
            ),
        ensures
            final(vm).inv(),
            final(vm).same_heaps(*old(vm)),
            ({
                let s = old(vm).stack_view();
                match get_outcome(*old(vm), s[s.len() - 2], s[s.len() - 1]) {
                    Ok(v) => {
                        &&& r is Ok
                        &&& final(vm).stack_view() == below(s, 2).push(v)
                        &&& *final(self) == next(*old(self), 1)
                    },
                    Err(m) => {
                        &&& r matches Err(e) && raised_at(e, *old(vm), *old(self), m)
                        &&& final(vm).stack_view() == below(s, 2)
                        &&& *final(self) == *old(self)
                    },
                }
            }),
    {
        let key = self.pop(vm);
        let obj = self.pop(vm);
        proof {
            assert(vm.stack_view() =~= below(old(vm).stack_view(), 2));
        }
        match look_up(vm, &obj, &key) {
            Ok(v) => {
                self.push(vm, v);
                self.move_ip(1);
                Ok(())
            },
            Err(m) => Err(self.string_to_err(vm, m)),
        }
    }

    /// `SetItem`: the object and key on top of the stack leave it, and the
    /// value below them (which stays) is stored as the object's property of
    /// that name or as the list's item at that index (an index below zero
    /// counts from the end). A key of the wrong kind (a property name is a
    /// string, an index a whole number), a missing item, or a value that
    /// holds none, is an error.
    pub fn op_set_item(&mut self, vm: &mut Vm) -> (r: Result<(), (Value, Backtrace)>)
        requires
            ready(*old(self), *old(vm), 1),
            old(vm).stack_view().len() >= 3,
            old(vm).open_cells_below(old(vm).stack_view().len() - 2),
            indexable(
                *old(vm),
                old(vm).stack_view()[old(vm).stack_view().len() - 2],
                old(vm).stack_view()[old(vm).stack_view().len() - 1],
            ),
        ensures
            final(vm).inv(),
            final(vm).same_closures(*old(vm)),
            final(vm).creation_time() == old(vm).creation_time(),
            final(vm).globals_view() == old(vm).globals_view(),
            final(vm).cells() == old(vm).cells(),
            final(vm).open_cells() == old(vm).open_cells(),
            final(vm).stack_view() == below(old(vm).stack_view(), 2),
            ({
                let s = old(vm).stack_view();
                let value = s[s.len() - 3];
                match set_outcome(*old(vm), s[s.len() - 2], s[s.len() - 1]) {
                    Ok(Place::Property(o, k)) => {
                        &&& r is Ok
                        &&& final(vm).objects_view() == old(vm).objects_view().update(
                            o as int,
                            old(vm).objects_view()[o as int].insert(k, value),
                        )
                        &&& final(vm).lists_view() == old(vm).lists_view()
                        &&& *final(self) == next(*old(self), 1)
                    },
                    Ok(Place::Item(l, j)) => {
                        &&& r is Ok
                        &&& final(vm).lists_view() == old(vm).lists_view().update(
                            l as int,
                            old(vm).lists_view()[l as int].update(j as int, value),
                        )
                        &&& final(vm).objects_view() == old(vm).objects_view()
                        &&& *final(self) == next(*old(self), 1)
                    },
                    Err(m) => {
                        &&& r matches Err(e) && raised_at(e, *old(vm), *old(self), m)
                        &&& final(vm).lists_view() == old(vm).lists_view()
                        &&& final(vm).objects_view() == old(vm).objects_view()
                        &&& *final(self) == *old(self)
                    },
                }
            }),
    {
        let key = self.pop(vm);
        let obj = self.pop(vm);
        proof {
            assert(vm.stack_view() =~= below(old(vm).stack_view(), 2));
        }
        let value = self.last(vm).clone();
        match obj {
            Value::Object(Object::Object(o)) => match key {
                Value::Object(Object::String(k)) => {
                    vm.set_property(o, k, value);
                },
                _ => {
                    return Err(self.string_to_err(vm, String::from_str("يجب أن يكون اسم الخاصية نصاً")));
                },
            },
            Value::Object(Object::List(l)) => match key_as_index(&key) {
                Some(i) => match absolute_index(i, vm.list_len(l)) {
                    Ok(j) => {
                        vm.set_list_item(l, j, value);
                    },
                    Err(()) => {
                        return Err(self.string_to_err(vm, String::from_str("لا يوجد عنصر بهذا الرقم")));
                    },
                },
                None => {
                    return Err(self.string_to_err(vm, String::from_str("يجب أن يكون رقم العنصر عدداً صحيحاً")));
                },
            },
            _ => {
                return Err(self.string_to_err(vm, String::from_str("يجب أن يكون المتغير قائمة أو كائن")));
            },
        }
        self.move_ip(1);
        Ok(())
    }
}

/// The properties that `BuildObject` makes of the top `k` name/value pairs
/// of `stack` (each name below its value), given the names' texts in the
/// order the pairs are taken, top first: where a name repeats, the pair
/// lowest on the stack wins.
pub open spec fn built_object(names: Seq<String>, stack: Seq<ValueView>, k: nat) -> Map<
    Seq<char>,
    ValueView,
>
    decreases k,
{
    if k == 0 {
        Map::empty()
    } else {
        built_object(names, stack, (k - 1) as nat).insert(
            names[k - 1]@,
            stack[stack.len() - 2 * (k - 1) - 1],
        )
    }
}

impl Frame {
    /// `BuildObject`: the top name/value pairs, as many as the next byte
    /// says, become a new object, which replaces them on the stack.
    /// `names` holds the texts of the names, top pair first.
    pub fn op_build_object(&mut self, vm: &mut Vm, names: &Vec<String>)
        requires
            old(self).runs(old(vm)),
            old(self).spec_ip() + 2 <= i32::MAX,
            old(self).spec_ip() + 1 < old(self).code(old(vm)).len(),
            names@.len() == old(self).operand(old(vm), 1),
            2 * old(self).operand(old(vm), 1) <= old(vm).stack_view().len(),
            old(vm).open_cells_below(old(vm).stack_view().len() - 2 * old(self).operand(old(vm), 1)),
        ensures
            final(vm).creation_time() == old(vm).creation_time(),
            final(vm).inv(),
            ({
                let n = old(self).operand(old(vm), 1);
                &&& final(vm).stack_view() == below(old(vm).stack_view(), 2 * n).push(
                    ValueView::Object(ObjectView::Object(old(vm).objects_view().len() as usize)),
                )
                &&& final(vm).objects_view() == old(vm).objects_view().push(
                    built_object(names@, old(vm).stack_view(), n as nat),
                )
            }),
            final(vm).globals_view() == old(vm).globals_view(),
            final(vm).cells() == old(vm).cells(),
            final(vm).open_cells() == old(vm).open_cells(),
            final(vm).lists_view() == old(vm).lists_view(),
            final(vm).same_closures(*old(vm)),
            *final(self) == next(*old(self), 2),
    {
        let size = self.read_byte(vm);
        let ghost s = old(vm).stack_view();
        let mut properties = Globals::new();
        let mut k: usize = 0;
        while k < size
            invariant
                *self == *old(self),
                self.runs(vm),
                size == old(self).operand(old(vm), 1),
                names@.len() == size,
                2 * size <= s.len(),
                0 <= k <= size,
                vm.same_heaps(*old(vm)),
                vm.stack_view() == below(s, 2 * k),
                old(vm).open_cells_below(s.len() - 2 * size),
                unique_names(properties.entries@),
                table_view(properties.entries@) == built_object(names@, s, k as nat),
            decreases size - k,
        {
            let value = self.pop(vm);
            self.pop(vm);
            proof {
                assert(vm.stack_view() =~= below(s, 2 * (k + 1)));
            }
            properties.insert(names[k].clone(), value);
            k = k + 1;
        }
        let o = vm.alloc_object(properties);
        self.push(vm, Value::Object(Object::Object(o)));
        self.move_ip(2);
    }
}

} // verus!
