pub mod effects;
pub mod globals;
pub mod guard;
pub mod laws;
pub mod ops;
pub mod step;

use vstd::prelude::*;

use crate::chunk::{combine, decode, spec_combine, Instruction};
use crate::number::{
    clamp_i32, clamp_u32, is_whole, negative, positive_whole_u32, truncated, truncated_magnitude,
    whole_i32,
};
use crate::token::Token;
use crate::value::{
    Arity, Closure, Function, Object, ObjectView, UpValue, UpValueView, Value, ValueView,
};
use vstd::string::{to_string_from_display_ensures, StringExecFns};
use crate::vm::globals::{table_view, unique_names, Globals};

verus! {

#[verifier::external_type_specification]
#[verifier::external_body]
pub struct ExSystemTime(std::time::SystemTime);

/// Reads the system clock: `std::time::SystemTime::now`. Nothing is
/// promised of the time it returns.
#[verifier::external_body]
fn now() -> std::time::SystemTime {
    std::time::SystemTime::now()
}

/// An installed error handler: the stack height to unwind to and the
/// instruction to resume at.
#[derive(Clone, Copy, Debug, PartialEq, Eq, Structural)]
pub struct Handler {
    slots: usize,
    ip: usize,
}

impl Handler {
    fn new(slots: usize, ip: usize) -> (h: Handler)
        ensures
            h.slots == slots,
            h.ip == ip,
    {
        Handler { slots, ip }
    }

    /// The stack height that the handler unwinds to.
    pub closed spec fn height(&self) -> usize {
        self.slots
    }

    /// The instruction that the handler resumes at.
    pub closed spec fn target(&self) -> usize {
        self.ip
    }
}

/// The instruction pointer after moving `progress` from `ip`, computed as
/// the machine does: through `i32`.
pub open spec fn moved_ip(ip: usize, progress: int) -> usize {
    ((ip as i32) + progress) as usize
}

/// The state of the machine: the value stack, the global variables, the
/// captured-variable cells (and which of them still point into the stack),
/// the closures and functions the code refers to, and when it was made.
pub struct Vm {
    stack: Vec<Value>,
    globals: Globals,
    up_values: Vec<UpValue>,
    open_up_values: Vec<usize>,
    closures: Vec<Closure>,
    functions: Vec<Function>,
    lists: Vec<Vec<Value>>,
    objects: Vec<Globals>,
    created_at: std::time::SystemTime,
}

/// The globals that a machine starts with: the natives, each name bound to
/// its native by position, a later name shadowing an earlier equal one.
pub open spec fn natives_view(names: Seq<String>) -> Map<Seq<char>, ValueView>
    decreases names.len(),
{
    if names.len() == 0 {
        Map::empty()
    } else {
        natives_view(names.drop_last()).insert(
            names.last()@,
            ValueView::Object(crate::value::ObjectView::Native((names.len() - 1) as usize)),
        )
    }
}

/// `e` is the error for argument `idx` not being of the kind `kind` names.
pub open spec fn is_input_error(e: ValueView, idx: usize, kind: Seq<char>) -> bool {
    exists|t: String|
        #[trigger] to_string_from_display_ensures::<usize>(&idx, t) && e == ValueView::Object(
            ObjectView::String(input_message(t@, kind)),
        )
}

/// An open cell at an index below `location`: closing at `location` keeps it.
pub open spec fn stays_open(cells: Seq<UpValueView>, location: usize) -> spec_fn(usize) -> bool {
    |id: usize| cells[id as int] matches UpValueView::Open(i) && i < location
}

/// Cell `id` is among `open`.
pub open spec fn lists(open: Seq<usize>, id: int) -> bool {
    exists|m: int| 0 <= m < open.len() && open[m] as int == id
}

/// What cell `id` holds after the cells in `open` that point at `location`
/// or above are closed over the values of `stack`.
pub open spec fn after_closing(
    cells: Seq<UpValueView>,
    open: Seq<usize>,
    stack: Seq<ValueView>,
    location: usize,
    id: int,
) -> UpValueView {
    if lists(open, id) && (cells[id] matches UpValueView::Open(i) && i >= location) {
        UpValueView::Closed(stack[cells[id]->Open_0 as int])
    } else {
        cells[id]
    }
}

/// A call with `argc` arguments suits a function of this arity.
pub open spec fn arity_accepts(arity: Arity, argc: usize) -> bool {
    match arity {
        Arity::Fixed(n) => argc == n,
        Arity::Variadic(n) => argc >= n,
    }
}

/// The message for a call with the wrong number of arguments, given the
/// decimal texts of the expected and the given counts.
pub open spec fn arity_message(arity: Arity, expected: Seq<char>, got: Seq<char>) -> Seq<char> {
    match arity {
        Arity::Fixed(_) => "توقعت عدد "@ + expected + " من المدخلات ولكن حصلت على "@ + got
            + " بدلاً من ذللك"@,
        Arity::Variadic(_) => "توقعت على الأقل عدد "@ + expected + " من المدخلات ولكن حصلت على "@
            + got + " بدلاً من ذلك"@,
    }
}

/// `expected` and `got` are the decimal texts (as `to_string` writes them)
/// of the count an arity names and of the count of arguments given.
pub open spec fn count_texts(arity: Arity, argc: usize, expected: String, got: String) -> bool {
    &&& to_string_from_display_ensures::<usize>(&argc, got)
    &&& match arity {
        Arity::Fixed(n) => to_string_from_display_ensures::<u8>(&n, expected),
        Arity::Variadic(n) => to_string_from_display_ensures::<u8>(&n, expected),
    }
}

/// Resolves an index that may count from the end (`-1` is the last item)
/// against a length; `len` is taken as an `i32`, as the machine does.
pub open spec fn spec_absolute_index(idx: i32, len: usize) -> Option<usize> {
    let l = len as i32;
    if idx >= 0 {
        if idx >= l {
            None
        } else {
            Some(idx as usize)
        }
    } else {
        if -idx > l {
            None
        } else {
            Some((l + idx) as usize)
        }
    }
}

/// Resolves an index that may count from the end against a length.
pub fn absolute_index(idx: i32, len: usize) -> (r: Result<usize, ()>)
    requires
        idx != i32::MIN,
    ensures
        r matches Ok(i) ==> spec_absolute_index(idx, len) == Some(i),
        r is Err ==> spec_absolute_index(idx, len) is None,
        len <= i32::MAX ==> (r is Ok <==> -(len as int) <= idx < len),
        len <= i32::MAX ==> (r matches Ok(i) ==> i < len && (i == idx || i == len + idx)),
{
    #[verifier::truncate]
    let l = len as i32;
    if idx >= 0 {
        if idx >= l {
            return Err(());
        }
        Ok(idx as usize)
    } else {
        if -idx > l {
            return Err(());
        }
        Ok((l + idx) as usize)
    }
}

impl Vm {
    /// The value stack, bottom first.
    pub closed spec fn stack_view(&self) -> Seq<ValueView> {
        self.stack@.map_values(|v: Value| v@)
    }

    /// The global variables by name.
    pub closed spec fn globals_view(&self) -> Map<Seq<char>, ValueView> {
        table_view(self.globals.entries@)
    }

    /// The captured-variable cells.
    pub closed spec fn cells(&self) -> Seq<UpValueView> {
        self.up_values@.map_values(|u: UpValue| u@)
    }

    /// The cells that still point into the stack, in the order they were made.
    pub closed spec fn open_cells(&self) -> Seq<usize> {
        self.open_up_values@
    }

    /// Every open cell is a distinct cell that is open at an index of the
    /// stack; the global names are distinct.
    pub closed spec fn inv(&self) -> bool {
        &&& unique_names(self.globals.entries@)
        &&& forall|k: int|
            0 <= k < self.open_up_values@.len() ==> {
                let id = #[trigger] self.open_up_values@[k];
                &&& id < self.up_values@.len()
                &&& self.up_values@[id as int] matches UpValue::Open(i) && i < self.stack@.len()
            }
        &&& forall|k1: int, k2: int|
            0 <= k1 < k2 < self.open_up_values@.len() ==> self.open_up_values@[k1]
                != self.open_up_values@[k2]
        &&& forall|c: int|
            0 <= c < self.closures@.len() ==> #[trigger] self.closures@[c].function
                < self.functions@.len()
        &&& forall|o: int| 0 <= o < self.objects@.len() ==> unique_names(#[trigger] self.objects@[o].entries@)
    }

    /// No open cell points at stack index `n` or above.
    pub closed spec fn open_cells_below(&self, n: int) -> bool {
        forall|k: int|
            0 <= k < self.open_up_values@.len() ==> (self.up_values@[
                #[trigger] self.open_up_values@[k] as int] matches UpValue::Open(i) && i < n)
    }

    /// `self` differs from `other` at most in its stack.
    pub closed spec fn same_heaps(&self, other: Vm) -> bool {
        &&& self.globals == other.globals
        &&& self.up_values@ == other.up_values@
        &&& self.open_up_values@ == other.open_up_values@
        &&& self.closures@ == other.closures@
        &&& self.functions@ == other.functions@
        &&& self.lists@ == other.lists@
        &&& self.objects@ == other.objects@
        &&& self.created_at == other.created_at
    }

    /// The contents of the lists, by index.
    pub closed spec fn lists_view(&self) -> Seq<Seq<ValueView>> {
        self.lists@.map_values(|l: Vec<Value>| l@.map_values(|v: Value| v@))
    }

    /// The properties of the objects, by index.
    pub closed spec fn objects_view(&self) -> Seq<Map<Seq<char>, ValueView>> {
        self.objects@.map_values(|o: Globals| table_view(o.entries@))
    }

    /// The constants of the code of closure `c`.
    pub closed spec fn constants_of(&self, c: usize) -> Seq<ValueView> {
        self.functions@[self.function_of(c) as int].chunk.constants@.map_values(|v: Value| v@)
    }

    /// The cells that closure `c` captured.
    pub closed spec fn captured_of(&self, c: usize) -> Seq<usize> {
        self.closures@[c as int].up_values@
    }

    /// The arity of function `f`.
    pub closed spec fn arity_of(&self, f: usize) -> Arity {
        self.functions@[f as int].arity
    }

    /// When the machine was made.
    pub closed spec fn creation_time(&self) -> std::time::SystemTime {
        self.created_at
    }

    /// The lengths of the code and tokens of a closure fit in `usize`.
    pub proof fn lemma_code_len(&self, c: usize)
        requires
            self.inv(),
            c < self.closure_count(),
        ensures
            self.code_of(c).len() <= usize::MAX,
            self.tokens_of(c).len() <= usize::MAX,
            self.constants_of(c).len() <= usize::MAX,
            self.stack_view().len() <= usize::MAX,
            self.captured_of(c).len() <= usize::MAX,
    {
        let f = self.functions@[self.function_of(c) as int];
        assert(f.chunk.code@.len() == f.chunk.code.len());
        assert(f.chunk.tokens@.len() == f.chunk.tokens.len());
        assert(f.chunk.constants@.len() == f.chunk.constants.len());
        assert(self.stack@.len() == self.stack.len());
        assert(self.closures@[c as int].up_values@.len() == self.closures@[c as int].up_values.len());
    }

    /// `self` has the closures and functions of `other`.
    pub closed spec fn same_closures(&self, other: Vm) -> bool {
        &&& self.closures@ == other.closures@
        &&& self.functions@ == other.functions@
    }

    /// The number of closures the machine holds.
    pub closed spec fn closure_count(&self) -> nat {
        self.closures@.len()
    }

    /// The number of functions the machine holds.
    pub closed spec fn function_count(&self) -> nat {
        self.functions@.len()
    }

    /// The function that closure `c` runs.
    pub closed spec fn function_of(&self, c: usize) -> usize {
        self.closures@[c as int].function
    }

    /// The code bytes of closure `c`.
    pub closed spec fn code_of(&self, c: usize) -> Seq<u8> {
        self.functions@[self.function_of(c) as int].chunk.code@
    }

    /// The tokens of the code of closure `c`, one per byte.
    pub closed spec fn tokens_of(&self, c: usize) -> Seq<crate::token::Token> {
        self.functions@[self.function_of(c) as int].chunk.tokens@
    }

    /// The name of the function of closure `c`.
    pub closed spec fn name_of(&self, c: usize) -> Option<Seq<char>> {
        match self.functions@[self.function_of(c) as int].name {
            Some(n) => Some(n@),
            None => None,
        }
    }

    /// The source path of the function of closure `c`.
    pub closed spec fn path_of(&self, c: usize) -> Option<Seq<char>> {
        match self.functions@[self.function_of(c) as int].path {
            Some(n) => Some(n@),
            None => None,
        }
    }

    /// `self` differs from `other` at most in its stack and its global
    /// variables.
    pub closed spec fn same_heaps_but_globals(&self, other: Vm) -> bool {
        &&& self.up_values@ == other.up_values@
        &&& self.open_up_values@ == other.open_up_values@
        &&& self.closures@ == other.closures@
        &&& self.functions@ == other.functions@
        &&& self.lists@ == other.lists@
        &&& self.objects@ == other.objects@
        &&& self.created_at == other.created_at
    }

    /// `self` differs from `other` at most in its global variables.
    pub closed spec fn same_but_globals(&self, other: Vm) -> bool {
        &&& self.stack@ == other.stack@
        &&& self.up_values@ == other.up_values@
        &&& self.open_up_values@ == other.open_up_values@
        &&& self.closures@ == other.closures@
        &&& self.functions@ == other.functions@
        &&& self.lists@ == other.lists@
        &&& self.objects@ == other.objects@
        &&& self.created_at == other.created_at
    }

    /// `self` differs from `other` at most in its lists.
    pub closed spec fn same_but_lists(&self, other: Vm) -> bool {
        &&& self.stack@ == other.stack@
        &&& self.globals == other.globals
        &&& self.up_values@ == other.up_values@
        &&& self.open_up_values@ == other.open_up_values@
        &&& self.closures@ == other.closures@
        &&& self.functions@ == other.functions@
        &&& self.objects@ == other.objects@
        &&& self.created_at == other.created_at
    }

    /// `self` differs from `other` at most in its objects.
    pub closed spec fn same_but_objects(&self, other: Vm) -> bool {
        &&& self.stack@ == other.stack@
        &&& self.globals == other.globals
        &&& self.up_values@ == other.up_values@
        &&& self.open_up_values@ == other.open_up_values@
        &&& self.closures@ == other.closures@
        &&& self.functions@ == other.functions@
        &&& self.lists@ == other.lists@
        &&& self.created_at == other.created_at
    }

    /// The value of the global variable `name`, if it is defined.
    pub(crate) fn global(&self, name: &String) -> (r: Option<&Value>)
        requires
            self.inv(),
        ensures
            r is None <==> !self.globals_view().contains_key(name@),
            r matches Some(v) ==> v@ == self.globals_view()[name@],
    {
        match self.globals.find(name) {
            Some(i) => Some(self.globals.get(i)),
            None => None,
        }
    }

    /// Binds the global variable `name` to `value`.
    pub(crate) fn bind_global(&mut self, name: String, value: Value)
        requires
            old(self).inv(),
        ensures
            final(self).inv(),
            final(self).globals_view() == old(self).globals_view().insert(name@, value@),
            final(self).same_but_globals(*old(self)),
    {
        self.globals.insert(name, value);
    }

    /// The number of items of list `l`.
    pub(crate) fn list_len(&self, l: usize) -> (n: usize)
        requires
            l < self.lists_view().len(),
        ensures
            n == self.lists_view()[l as int].len(),
    {
        self.lists[l].len()
    }

    /// Item `i` of list `l`.
    pub(crate) fn list_item(&self, l: usize, i: usize) -> (v: &Value)
        requires
            l < self.lists_view().len(),
            i < self.lists_view()[l as int].len(),
        ensures
            v@ == self.lists_view()[l as int][i as int],
    {
        &self.lists[l][i]
    }

    /// Replaces item `i` of list `l` with `value`.
    pub(crate) fn set_list_item(&mut self, l: usize, i: usize, value: Value)
        requires
            old(self).inv(),
            l < old(self).lists_view().len(),
            i < old(self).lists_view()[l as int].len(),
        ensures
            final(self).inv(),
            final(self).lists_view() == old(self).lists_view().update(
                l as int,
                old(self).lists_view()[l as int].update(i as int, value@),
            ),
            final(self).same_but_lists(*old(self)),
    {
        let ghost v = value@;
        self.lists[l].set(i, value);
        proof {
            let inner = old(self).lists_view()[l as int].update(i as int, v);
            assert(self.lists@[l as int]@.map_values(|x: Value| x@) =~= inner);
            assert(self.lists_view() =~= old(self).lists_view().update(l as int, inner));
        }
    }

    /// The value of property `key` of object `o`, if it has one.
    pub(crate) fn property(&self, o: usize, key: &String) -> (r: Option<&Value>)
        requires
            self.inv(),
            o < self.objects_view().len(),
        ensures
            r is None <==> !self.objects_view()[o as int].contains_key(key@),
            r matches Some(v) ==> v@ == self.objects_view()[o as int][key@],
    {
        proof {
            assert(unique_names(self.objects@[o as int].entries@));
        }
        let object = &self.objects[o];
        match object.find(key) {
            Some(i) => Some(object.get(i)),
            None => None,
        }
    }

    /// Sets property `key` of object `o` to `value`.
    pub(crate) fn set_property(&mut self, o: usize, key: String, value: Value)
        requires
            old(self).inv(),
            o < old(self).objects_view().len(),
        ensures
            final(self).inv(),
            final(self).objects_view() == old(self).objects_view().update(
                o as int,
                old(self).objects_view()[o as int].insert(key@, value@),
            ),
            final(self).same_but_objects(*old(self)),
    {
        proof {
            assert(unique_names(self.objects@[o as int].entries@));
        }
        let ghost k = key@;
        let ghost v = value@;
        self.objects[o].insert(key, value);
        proof {
            assert forall|p: int| 0 <= p < self.objects@.len() implies unique_names(#[trigger] self.objects@[p].entries@) by {
                if p != o {
                    assert(self.objects@[p] == old(self).objects@[p]);
                }
            }
            assert(self.objects_view() =~= old(self).objects_view().update(
                o as int,
                old(self).objects_view()[o as int].insert(k, v),
            ));
        }
    }

    /// Adds an object with the given properties and gives its index.
    pub(crate) fn alloc_object(&mut self, properties: Globals) -> (o: usize)
        requires
            old(self).inv(),
            unique_names(properties.entries@),
        ensures
            final(self).inv(),
            o == old(self).objects_view().len(),
            final(self).objects_view() == old(self).objects_view().push(table_view(properties.entries@)),
            final(self).same_but_objects(*old(self)),
    {
        let o = self.objects.len();
        let ghost t = table_view(properties.entries@);
        self.objects.push(properties);
        proof {
            assert(self.objects_view() =~= old(self).objects_view().push(t));
        }
        o
    }

    /// Adds a compiled function to the machine and gives its index.
    pub fn alloc_function(&mut self, function: Function) -> (f: usize)
        requires
            old(self).inv(),
        ensures
            final(self).creation_time() == old(self).creation_time(),
            final(self).lists_view() == old(self).lists_view(),
            final(self).objects_view() == old(self).objects_view(),
            final(self).inv(),
            f == old(self).function_count(),
            final(self).function_count() == old(self).function_count() + 1,
            final(self).closure_count() == old(self).closure_count(),
            forall|c: usize| c < old(self).closure_count() ==> final(self).function_of(c) == old(self).function_of(c)
                && final(self).code_of(c) == old(self).code_of(c) && final(self).tokens_of(c)
                == old(self).tokens_of(c) && final(self).name_of(c) == old(self).name_of(c)
                && final(self).path_of(c) == old(self).path_of(c),
            final(self).stack_view() == old(self).stack_view(),
            final(self).cells() == old(self).cells(),
            final(self).open_cells() == old(self).open_cells(),
            final(self).globals_view() == old(self).globals_view(),
    {
        let f = self.functions.len();
        self.functions.push(function);
        f
    }

    /// Makes a closure of function `function` over the given cells and
    /// gives its index.
    pub fn alloc_closure(&mut self, function: usize, up_values: Vec<usize>) -> (c: usize)
        requires
            old(self).inv(),
            function < old(self).function_count(),
        ensures
            final(self).creation_time() == old(self).creation_time(),
            final(self).inv(),
            c == old(self).closure_count(),
            final(self).closure_count() == old(self).closure_count() + 1,
            final(self).function_of(c) == function,
            final(self).captured_of(c) == up_values@,
            final(self).function_count() == old(self).function_count(),
            forall|d: usize| d < old(self).closure_count() ==> final(self).function_of(d) == old(self).function_of(d)
                && final(self).captured_of(d) == old(self).captured_of(d) && final(self).code_of(d) == old(self).code_of(d)
                && final(self).tokens_of(d) == old(self).tokens_of(d) && final(self).name_of(d) == old(self).name_of(d)
                && final(self).path_of(d) == old(self).path_of(d) && final(self).constants_of(d) == old(self).constants_of(d),
            final(self).lists_view() == old(self).lists_view(),
            final(self).objects_view() == old(self).objects_view(),
            final(self).stack_view() == old(self).stack_view(),
            final(self).cells() == old(self).cells(),
            final(self).open_cells() == old(self).open_cells(),
            final(self).globals_view() == old(self).globals_view(),
    {
        let c = self.closures.len();
        self.closures.push(Closure { function, up_values });
        c
    }

    /// A machine made now (the time read from the system clock), with an
    /// empty stack, no cells, and the natives named in `natives` defined as
    /// globals (the native at position `i` is `Native(i)`).
    pub fn new(natives: &Vec<String>) -> (vm: Vm)
        ensures
            vm.inv(),
            vm.stack_view() == Seq::<ValueView>::empty(),
            vm.cells() == Seq::<UpValueView>::empty(),
            vm.open_cells() == Seq::<usize>::empty(),
            vm.globals_view() == natives_view(natives@),
            forall|i: int|
                0 <= i < natives@.len() && (forall|j: int|
                    i < j < natives@.len() ==> natives@[j]@ != natives@[i]@) ==> #[trigger] vm.globals_view()[natives@[i]@]
                    == ValueView::Object(ObjectView::Native(i as usize)),
    {
        Vm::new_at(natives, now())
    }

    /// A machine made at time `created_at`, with an empty stack, no cells,
    /// and the natives named in `natives` defined as globals (the native at
    /// position `i` is `Native(i)`).
    pub fn new_at(natives: &Vec<String>, created_at: std::time::SystemTime) -> (vm: Vm)
        ensures
            vm.inv(),
            vm.stack_view() == Seq::<ValueView>::empty(),
            vm.cells() == Seq::<UpValueView>::empty(),
            vm.open_cells() == Seq::<usize>::empty(),
            vm.globals_view() == natives_view(natives@),
            forall|i: int|
                0 <= i < natives@.len() && (forall|j: int|
                    i < j < natives@.len() ==> natives@[j]@ != natives@[i]@) ==> #[trigger] vm.globals_view()[natives@[i]@]
                    == ValueView::Object(ObjectView::Native(i as usize)),
            vm.creation_time() == created_at,
    {
        let mut vm = Vm {
            stack: Vec::new(),
            globals: Globals::new(),
            up_values: Vec::new(),
            open_up_values: Vec::new(),
            closures: Vec::new(),
            functions: Vec::new(),
            lists: Vec::new(),
            objects: Vec::new(),
            created_at,
        };
        let n = natives.len();
        for i in 0..n
            invariant
                n == natives@.len(),
                unique_names(vm.globals.entries@),
                table_view(vm.globals.entries@) == natives_view(natives@.take(i as int)),
                vm.stack@.len() == 0,
                vm.up_values@.len() == 0,
                vm.open_up_values@.len() == 0,
                vm.closures@.len() == 0,
                vm.objects@.len() == 0,
                vm.created_at == created_at,
        {
            let name = natives[i].clone();
            vm.globals.insert(name, Value::Object(crate::value::Object::Native(i)));
            assert(natives@.take(i + 1).drop_last() =~= natives@.take(i as int));
        }
        assert(natives@.take(n as int) =~= natives@);
        assert forall|i: int|
            0 <= i < natives@.len() && (forall|j: int|
                i < j < natives@.len() ==> natives@[j]@ != natives@[i]@) implies #[trigger] natives_view(natives@)[natives@[i]@]
                == ValueView::Object(ObjectView::Native(i as usize)) by {
            crate::vm::laws::law_natives_by_position(natives@, i);
        }
        assert(vm.stack_view() =~= Seq::<ValueView>::empty());
        assert(vm.cells() =~= Seq::<UpValueView>::empty());
        assert(vm.open_cells() =~= Seq::<usize>::empty());
        vm
    }

    /// Sets up `function` to run as a program: a closure of it (capturing
    /// nothing) goes on the stack, and its frame starts at the bottom of
    /// the stack with no handlers.
    pub fn start(&mut self, function: Function) -> (frame: Frame)
        requires
            old(self).inv(),
        ensures
            final(self).inv(),
            frame.runs(final(self)),
            frame.spec_closure() == old(self).closure_count(),
            final(self).function_of(frame.spec_closure()) == old(self).function_count(),
            final(self).captured_of(frame.spec_closure()) == Seq::<usize>::empty(),
            frame.spec_ip() == 0,
            frame.spec_slots() == 0,
            frame->enclosing_up_values is None,
            frame.handlers_view().len() == 0,
            final(self).stack_view() == old(self).stack_view().push(
                ValueView::Object(ObjectView::Closure(frame.spec_closure())),
            ),
            final(self).globals_view() == old(self).globals_view(),
            final(self).cells() == old(self).cells(),
            final(self).open_cells() == old(self).open_cells(),
            final(self).lists_view() == old(self).lists_view(),
            final(self).objects_view() == old(self).objects_view(),
            final(self).creation_time() == old(self).creation_time(),
    {
        let f = self.alloc_function(function);
        let c = self.alloc_closure(f, Vec::new());
        let frame = Frame::new_closure(c, 0, None);
        frame.push(self, Value::Object(Object::Closure(c)));
        frame
    }

    /// Takes the top value off the stack once the program has run. No open
    /// cell may point at that value: it would be left pointing past the
    /// stack.
    pub fn end_program(&mut self)
        requires
            old(self).inv(),
            old(self).stack_view().len() > 0 ==> old(self).open_cells_below(
                old(self).stack_view().len() - 1,
            ),
        ensures
            final(self).inv(),
            final(self).stack_view() == (if old(self).stack_view().len() > 0 {
                old(self).stack_view().drop_last()
            } else {
                old(self).stack_view()
            }),
            final(self).same_heaps(*old(self)),
    {
        let ghost before = self.stack_view();
        self.stack.pop();
        proof {
            if before.len() > 0 {
                assert(self.stack_view() =~= before.drop_last());
            } else {
                assert(self.stack_view() =~= before);
            }
        }
    }

    /// Whether the top value of the stack can be taken off: no open cell
    /// points at it (true for an empty stack).
    pub fn top_is_free(&self) -> (b: bool)
        requires
            self.inv(),
        ensures
            b == (self.stack_view().len() > 0 ==> self.open_cells_below(self.stack_view().len() - 1)),
    {
        proof {
            assert(self.stack@.len() == self.stack.len());
        }
        let n = self.stack.len();
        if n == 0 {
            return true;
        }
        let count = self.open_up_values.len();
        for k in 0..count
            invariant
                count == self.open_up_values@.len(),
                n == self.stack@.len(),
                n > 0,
                self.inv(),
                forall|j: int|
                    0 <= j < k ==> (self.up_values@[#[trigger] self.open_up_values@[j] as int] matches UpValue::Open(
                        i,
                    ) && i < n - 1),
        {
            let id = self.open_up_values[k];
            match &self.up_values[id] {
                UpValue::Open(i) => {
                    if *i >= n - 1 {
                        return false;
                    }
                },
                UpValue::Closed(_) => {
                    return false;
                },
            }
        }
        true
    }

    /// The first open cell that points at stack index `idx`, if any.
    fn get_up_value(&self, idx: usize) -> (r: Option<usize>)
        requires
            self.inv(),
        ensures
            r matches Some(id) ==> exists|k: int|
                0 <= k < self.open_cells().len() && self.open_cells()[k] == id
                    && self.cells()[id as int] == UpValueView::Open(idx) && forall|j: int|
                    0 <= j < k ==> self.cells()[self.open_cells()[j] as int] != UpValueView::Open(
                        idx,
                    ),
            r is None ==> forall|k: int|
                0 <= k < self.open_cells().len() ==> self.cells()[self.open_cells()[k] as int]
                    != UpValueView::Open(idx),
    {
        let n = self.open_up_values.len();
        for k in 0..n
            invariant
                n == self.open_cells().len(),
                self.inv(),
                forall|j: int|
                    0 <= j < k ==> self.cells()[self.open_cells()[j] as int] != UpValueView::Open(
                        idx,
                    ),
        {
            let id = self.open_up_values[k];
            assert(self.open_up_values@[k as int] == id);
            match &self.up_values[id] {
                UpValue::Open(i) => {
                    if *i == idx {
                        return Some(id);
                    }
                },
                UpValue::Closed(_) => {},
            }
        }
        None
    }

    /// Makes a new cell open at stack index `idx` and lists it as open.
    fn append_up_value(&mut self, idx: usize) -> (id: usize)
        requires
            old(self).inv(),
            idx < old(self).stack_view().len(),
        ensures
            final(self).inv(),
            id == old(self).cells().len(),
            final(self).cells() == old(self).cells().push(UpValueView::Open(idx)),
            final(self).open_cells() == old(self).open_cells().push(id),
            final(self).stack_view() == old(self).stack_view(),
            final(self).globals_view() == old(self).globals_view(),
            final(self).same_closures(*old(self)),
            final(self).lists_view() == old(self).lists_view(),
            final(self).objects_view() == old(self).objects_view(),
            final(self).creation_time() == old(self).creation_time(),
    {
        let id = self.up_values.len();
        self.up_values.push(UpValue::Open(idx));
        self.open_up_values.push(id);
        assert(self.cells() =~= old(self).cells().push(UpValueView::Open(idx)));
        id
    }

    /// Closes every open cell that points at stack index `location` or
    /// above: it takes the value found there and leaves the open list.
    fn close_up_values(&mut self, location: usize)
        requires
            old(self).inv(),
        ensures
            final(self).creation_time() == old(self).creation_time(),
            final(self).inv(),
            final(self).open_cells() == old(self).open_cells().filter(
                stays_open(old(self).cells(), location),
            ),
            final(self).cells().len() == old(self).cells().len(),
            forall|id: int|
                0 <= id < old(self).cells().len() ==> #[trigger] final(self).cells()[id]
                    == after_closing(
                    old(self).cells(),
                    old(self).open_cells(),
                    old(self).stack_view(),
                    location,
                    id,
                ),
            forall|id: int|
                0 <= id < old(self).cells().len() && lists(old(self).open_cells(), id)
                    && old(self).cells()[id] is Open && old(self).cells()[id]->Open_0 >= location
                    ==> #[trigger] final(self).cells()[id] == UpValueView::Closed(
                    old(self).stack_view()[old(self).cells()[id]->Open_0 as int],
                ),
            final(self).stack_view() == old(self).stack_view(),
            final(self).globals_view() == old(self).globals_view(),
            final(self).same_closures(*old(self)),
            final(self).lists_view() == old(self).lists_view(),
            final(self).objects_view() == old(self).objects_view(),
    {
        let ghost cells0 = self.cells();
        let ghost open0 = self.open_cells();
        let ghost stack0 = self.stack_view();
        let ghost pred = stays_open(cells0, location);
        let mut new: Vec<usize> = Vec::new();
        let n = self.open_up_values.len();
        for k in 0..n
            invariant
                n == open0.len(),
                self.open_up_values@ == open0,
                self.stack_view() == stack0,
                self.stack@ == old(self).stack@,
                self.globals == old(self).globals,
                self.closures@ == old(self).closures@,
                self.functions@ == old(self).functions@,
                self.objects@ == old(self).objects@,
                self.lists@ == old(self).lists@,
                self.created_at == old(self).created_at,
                self.cells().len() == cells0.len(),
                cells0 == old(self).cells(),
                open0 == old(self).open_cells(),
                stack0 == old(self).stack_view(),
                pred == stays_open(cells0, location),
                old(self).inv(),
                new@ == open0.take(k as int).filter(pred),
                forall|a: int, b: int| 0 <= a < b < new@.len() ==> new@[a] != new@[b],
                forall|a: int| 0 <= a < new@.len() ==> open0.take(k as int).contains(#[trigger] new@[a]),
                forall|id: int|
                    0 <= id < cells0.len() ==> #[trigger] self.cells()[id] == after_closing(
                        cells0,
                        open0.take(k as int),
                        stack0,
                        location,
                        id,
                    ),
        {
            let id = self.open_up_values[k];
            let ghost before = self.cells();
            assert(open0[k as int] == id);
            let idx = match &self.up_values[id] {
                UpValue::Open(i) => *i,
                UpValue::Closed(_) => 0,
            };
            proof {
                assert(cells0[id as int] == UpValueView::Open(idx)) by {
                    assert(!lists(open0.take(k as int), id as int)) by {
                        let t0 = open0.take(k as int);
                        if lists(t0, id as int) {
                            let j = choose|j: int| 0 <= j < t0.len() && t0[j] as int == id as int;
                            assert(open0[j] == open0[k as int]);
                        }
                    }
                    assert(before[id as int] == after_closing(cells0, open0.take(k as int), stack0, location, id as int));
                }
                assert(open0.take(k + 1) =~= open0.take(k as int).push(id));
                open0.take(k as int).lemma_filter_push(id, pred);
            }
            if idx >= location {
                let v = self.stack[idx].clone();
                self.up_values.set(id, UpValue::Closed(v));
            } else {
                new.push(id);
            }
            proof {
                let t0 = open0.take(k as int);
                let t1 = open0.take(k + 1);
                assert(t1[k as int] == id);
                assert forall|a: int| 0 <= a < new@.len() implies t1.contains(#[trigger] new@[a]) by {
                    if a < new@.len() - 1 || idx >= location {
                        let m = choose|m: int| 0 <= m < t0.len() && t0[m] == new@[a];
                        assert(t1[m] == new@[a]);
                    }
                }
                assert forall|j: int| 0 <= j < cells0.len() implies #[trigger] self.cells()[j]
                    == after_closing(cells0, t1, stack0, location, j) by {
                    if j != id as int {
                        assert(self.cells()[j] == before[j]);
                        assert(lists(t1, j) ==> lists(t0, j)) by {
                            if lists(t1, j) {
                                let m = choose|m: int| 0 <= m < t1.len() && t1[m] as int == j;
                                assert(m != k);
                                assert(t0[m] as int == j);
                            }
                        }
                        assert(lists(t0, j) ==> lists(t1, j)) by {
                            if lists(t0, j) {
                                let m = choose|m: int| 0 <= m < t0.len() && t0[m] as int == j;
                                assert(t1[m] as int == j);
                            }
                        }
                    } else {
                        assert(t1[k as int] == id);
                        assert(lists(t1, j));
                        assert(!lists(t0, j));
                        assert(before[j] == cells0[j]);
                    }
                }
            }
        }
        self.open_up_values = new;
        proof {
            assert(open0.take(n as int) =~= open0);
            assert forall|k: int| 0 <= k < self.open_up_values@.len() implies {
                let id = #[trigger] self.open_up_values@[k];
                &&& id < self.up_values@.len()
                &&& self.up_values@[id as int] matches UpValue::Open(i) && i < self.stack@.len()
            } by {
                let id = self.open_up_values@[k];
                open0.lemma_filter_contains_rev(pred, id);
                assert(open0.filter(pred).contains(id));
                let m = choose|m: int| 0 <= m < open0.len() && open0[m] == id;
                assert(pred(id));
                assert(self.cells()[id as int] == after_closing(cells0, open0, stack0, location, id as int));
            }
        }
    }

    /// Checks that a call with `argc` arguments suits a function of the
    /// given arity; otherwise gives the message to raise.
    pub fn check_arity(arity: Arity, argc: usize) -> (r: Result<(), Value>)
        ensures
            r is Ok <==> arity_accepts(arity, argc),
            r matches Err(v) ==> exists|expected: String, got: String|
                #[trigger] count_texts(arity, argc, expected, got) && v@ == ValueView::Object(
                    ObjectView::String(arity_message(arity, expected@, got@)),
                ),
    {
        match arity {
            Arity::Fixed(n) => {
                if argc != n as usize {
                    let expected = n.to_string();
                    let got = argc.to_string();
                    let mut text = String::from_str("توقعت عدد ");
                    text.append(expected.as_str());
                    text.append(" من المدخلات ولكن حصلت على ");
                    text.append(got.as_str());
                    text.append(" بدلاً من ذللك");
                    assert(count_texts(arity, argc, expected, got));
                    Err(Value::new_string(text))
                } else {
                    Ok(())
                }
            },
            Arity::Variadic(n) => {
                if argc < n as usize {
                    let expected = n.to_string();
                    let got = argc.to_string();
                    let mut text = String::from_str("توقعت على الأقل عدد ");
                    text.append(expected.as_str());
                    text.append(" من المدخلات ولكن حصلت على ");
                    text.append(got.as_str());
                    text.append(" بدلاً من ذلك");
                    assert(count_texts(arity, argc, expected, got));
                    Err(Value::new_string(text))
                } else {
                    Ok(())
                }
            },
        }
    }
}


/// One entry of a backtrace: the token being run and the name of the
/// function it belongs to.
#[derive(Debug)]
pub struct BacktraceFrame {
    token: Token,
    name: Option<String>,
}

impl BacktraceFrame {
    fn new(frame: &Frame, vm: &Vm) -> (b: BacktraceFrame)
        requires
            vm.inv(),
            frame.wf(vm),
            !frame.spec_is_native(),
            frame.spec_ip() < vm.tokens_of(frame.spec_closure()).len(),
        ensures
            b.token == vm.tokens_of(frame.spec_closure())[frame.spec_ip() as int],
            b.name_view() == vm.name_of(frame.spec_closure()),
    {
        let closure = frame.get_closure();
        let function = vm.closures[closure].function;
        let name = match &vm.functions[function].name {
            Some(n) => Some(n.clone()),
            None => None,
        };
        BacktraceFrame { token: frame.cur_token(vm), name }
    }

    pub closed spec fn name_view(&self) -> Option<Seq<char>> {
        match self.name {
            Some(n) => Some(n@),
            None => None,
        }
    }
}

/// The frames an error passed through, innermost first.
#[derive(Debug)]
pub struct Backtrace {
    frames: Vec<BacktraceFrame>,
}

impl Backtrace {
    /// The frames, innermost first: each the token being run and the name
    /// of its function.
    pub closed spec fn entries(&self) -> Seq<(Token, Option<Seq<char>>)> {
        self.frames@.map_values(|f: BacktraceFrame| (f.token, f.name_view()))
    }

    /// A backtrace with no frames.
    pub fn new() -> (b: Backtrace)
        ensures
            b.entries().len() == 0,
    {
        Backtrace { frames: Vec::new() }
    }

    fn push(&mut self, frame: BacktraceFrame)
        ensures
            final(self).frames@ == old(self).frames@.push(frame),
    {
        self.frames.push(frame);
    }
}

/// The line that a backtrace shows for one frame, given the decimal texts
/// of its token's line and column; a function without a name shows as
/// unknown.
pub open spec fn frame_line(name: Option<Seq<char>>, line: Seq<char>, col: Seq<char>) -> Seq<char> {
    "في "@ + (match name {
        Some(n) => n,
        None => "غير معروفة"@,
    }) + " "@ + line + ":"@ + col + "\n"@
}

/// The text of a backtrace with the given frames: their lines in order,
/// given the decimal texts of each token's line and column.
pub open spec fn backtrace_text(
    entries: Seq<(Token, Option<Seq<char>>)>,
    lines: Seq<String>,
    cols: Seq<String>,
) -> Seq<char>
    decreases entries.len(),
{
    if entries.len() == 0 {
        Seq::empty()
    } else {
        backtrace_text(entries.drop_last(), lines.drop_last(), cols.drop_last()) + frame_line(
            entries.last().1,
            lines.last()@,
            cols.last()@,
        )
    }
}

/// `lines` and `cols` are the decimal texts of the lines and columns of the
/// tokens of `entries`.
pub open spec fn positions_shown(
    entries: Seq<(Token, Option<Seq<char>>)>,
    lines: Seq<String>,
    cols: Seq<String>,
) -> bool {
    &&& lines.len() == entries.len()
    &&& cols.len() == entries.len()
    &&& forall|i: int|
        0 <= i < entries.len() ==> #[trigger] to_string_from_display_ensures::<usize>(
            &entries[i].0.line,
            lines[i],
        ) && to_string_from_display_ensures::<usize>(&entries[i].0.col, cols[i])
}

impl Backtrace {
    /// The backtrace as text: a line per frame, innermost first, with the
    /// function's name and the line and column of the token.
    pub fn text(&self) -> (r: String)
        ensures
            exists|lines: Seq<String>, cols: Seq<String>|
                positions_shown(self.entries(), lines, cols) && r@ == backtrace_text(
                    self.entries(),
                    lines,
                    cols,
                ),
    {
        let mut buffer = String::new();
        let ghost mut lines: Seq<String> = Seq::empty();
        let ghost mut cols: Seq<String> = Seq::empty();
        let n = self.frames.len();
        for k in 0..n
            invariant
                n == self.frames@.len(),
                positions_shown(self.entries().take(k as int), lines, cols),
                buffer@ == backtrace_text(self.entries().take(k as int), lines, cols),
        {
            let frame = &self.frames[k];
            let (line, col) = frame.token.get_pos();
            let line_text = line.to_string();
            let col_text = col.to_string();
            buffer.append("في ");
            match &frame.name {
                Some(name) => buffer.append(name.as_str()),
                None => buffer.append("غير معروفة"),
            }
            buffer.append(" ");
            buffer.append(line_text.as_str());
            buffer.append(":");
            buffer.append(col_text.as_str());
            buffer.append("\n");
            proof {
                let old_lines = lines;
                let old_cols = cols;
                lines = lines.push(line_text);
                cols = cols.push(col_text);
                let e = self.entries().take(k + 1);
                assert(e.drop_last() =~= self.entries().take(k as int));
                assert(lines.drop_last() =~= old_lines);
                assert(cols.drop_last() =~= old_cols);
                assert(e.last() == (frame.token, frame.name_view()));
                assert forall|i: int| 0 <= i < e.len() implies #[trigger] to_string_from_display_ensures::<usize>(
                    &e[i].0.line,
                    lines[i],
                ) && to_string_from_display_ensures::<usize>(&e[i].0.col, cols[i]) by {
                    let prior = self.entries().take(k as int);
                    if i < k {
                        assert(e[i] == prior[i]);
                        assert(lines[i] == old_lines[i]);
                        assert(cols[i] == old_cols[i]);
                        assert(to_string_from_display_ensures::<usize>(&prior[i].0.line, old_lines[i]));
                    } else {
                        assert(e[i].0 == frame.token);
                        assert(lines[i] == line_text);
                        assert(cols[i] == col_text);
                    }
                }
            }
        }
        proof {
            assert(self.entries().take(n as int) =~= self.entries());
        }
        buffer
    }
}

/// A running call: of a closure (with its instruction pointer, the stack
/// index of its first slot, the cells of the closure that called it, and
/// its error handlers), or of a native (with its first slot and the path
/// of the code that called it).
pub enum Frame {
    Closure {
        closure: usize,
        ip: usize,
        slots: usize,
        enclosing_up_values: Option<usize>,
        handlers: Vec<Handler>,
    },
    Native { native: usize, slots: usize, path: Option<String> },
}

impl Frame {
    /// The frame runs a closure that the machine holds.
    pub open spec fn wf(&self, vm: &Vm) -> bool {
        match self {
            Frame::Closure { closure, .. } => *closure < vm.closure_count(),
            Frame::Native { .. } => true,
        }
    }

    pub open spec fn spec_is_native(&self) -> bool {
        self is Native
    }

    pub open spec fn spec_closure(&self) -> usize {
        self->closure
    }

    pub open spec fn spec_ip(&self) -> usize {
        self->ip
    }

    pub open spec fn spec_slots(&self) -> usize {
        match self {
            Frame::Closure { slots, .. } => *slots,
            Frame::Native { slots, .. } => *slots,
        }
    }

    pub fn new_closure(closure: usize, slots: usize, enclosing_up_values: Option<usize>) -> (f: Frame)
        ensures
            f == (Frame::Closure { closure, ip: 0, slots, enclosing_up_values, handlers: f->handlers }),
            f->handlers@.len() == 0,
    {
        Frame::Closure { closure, ip: 0, slots, enclosing_up_values, handlers: Vec::new() }
    }

    pub fn new_native(native: usize, slots: usize, path: Option<String>) -> (f: Frame)
        ensures
            f == (Frame::Native { native, slots, path }),
    {
        Frame::Native { native, slots, path }
    }

    fn is_native(&self) -> (b: bool)
        ensures
            b == self.spec_is_native(),
    {
        match self {
            Frame::Native { .. } => true,
            _ => false,
        }
    }

    fn get_closure(&self) -> (c: usize)
        requires
            !self.spec_is_native(),
        ensures
            c == self.spec_closure(),
    {
        match self {
            Frame::Closure { closure, .. } => *closure,
            Frame::Native { .. } => 0,
        }
    }

    fn get_ip(&self) -> (ip: usize)
        requires
            !self.spec_is_native(),
        ensures
            ip == self.spec_ip(),
    {
        match self {
            Frame::Closure { ip, .. } => *ip,
            Frame::Native { .. } => 0,
        }
    }

    /// The running closure's state, with the instruction pointer at `ip`.
    pub open spec fn at_ip(self, ip: usize) -> Frame {
        match self {
            Frame::Closure { closure, ip: _, slots, enclosing_up_values, handlers } => Frame::Closure {
                closure,
                ip,
                slots,
                enclosing_up_values,
                handlers,
            },
            other => other,
        }
    }

    /// The handlers installed in a closure frame, innermost last.
    pub open spec fn handlers_view(&self) -> Seq<Handler> {
        self->handlers@
    }

    /// The frame runs a closure of a well-formed machine.
    pub open spec fn runs(&self, vm: &Vm) -> bool {
        vm.inv() && self.wf(vm) && !self.spec_is_native()
    }

    /// The code of the running closure.
    pub open spec fn code(&self, vm: &Vm) -> Seq<u8> {
        vm.code_of(self.spec_closure())
    }

    /// The code byte `k` places after the instruction pointer.
    pub open spec fn operand(&self, vm: &Vm, k: int) -> u8 {
        self.code(vm)[self.spec_ip() + k]
    }

    fn set_ip(&mut self, next: usize)
        requires
            !old(self).spec_is_native(),
        ensures
            *final(self) == old(self).at_ip(next),
    {
        match self {
            Frame::Closure { ip, .. } => *ip = next,
            Frame::Native { .. } => {},
        }
    }

    fn get_enclosing_up_values(&self) -> (r: Option<usize>)
        requires
            !self.spec_is_native(),
        ensures
            r == self->enclosing_up_values,
    {
        match self {
            Frame::Closure { enclosing_up_values, .. } => *enclosing_up_values,
            Frame::Native { .. } => None,
        }
    }

    fn get_native(&self) -> (n: usize)
        requires
            self.spec_is_native(),
        ensures
            n == self->native,
    {
        match self {
            Frame::Closure { .. } => 0,
            Frame::Native { native, .. } => *native,
        }
    }

    fn get_slots(&self) -> (s: usize)
        ensures
            s == self.spec_slots(),
    {
        match self {
            Frame::Closure { slots, .. } => *slots,
            Frame::Native { slots, .. } => *slots,
        }
    }

    fn get_path<'a>(&'a self, vm: &'a Vm) -> (p: &'a Option<String>)
        requires
            vm.inv(),
            self.wf(vm),
        ensures
            self.spec_is_native() ==> *p == self->path,
            !self.spec_is_native() ==> (match *p {
                Some(s) => Some(s@),
                None => None,
            }) == vm.path_of(self.spec_closure()),
    {
        match self {
            Frame::Closure { closure, .. } => &vm.functions[vm.closures[*closure].function].path,
            Frame::Native { path, .. } => path,
        }
    }

    /// The operand byte after the current instruction.
    fn read_byte(&self, vm: &Vm) -> (b: usize)
        requires
            vm.inv(),
            self.wf(vm),
            !self.spec_is_native(),
            self.spec_ip() + 1 < vm.code_of(self.spec_closure()).len(),
        ensures
            b == vm.code_of(self.spec_closure())[self.spec_ip() + 1],
    {
        let chunk = &vm.functions[vm.closures[self.get_closure()].function].chunk;
        proof {
            assert(chunk.code@.len() == chunk.code.len());
        }
        match chunk.get_byte(self.get_ip() + 1) {
            Some(b) => b as usize,
            None => 0,
        }
    }

    /// The two bytes at `offset` that describe a captured variable: whether
    /// it is a local of the running frame, and its index.
    fn read_up_value(&self, vm: &Vm, offset: usize) -> (r: (bool, usize))
        requires
            vm.inv(),
            self.wf(vm),
            !self.spec_is_native(),
            offset + 1 < vm.code_of(self.spec_closure()).len(),
        ensures
            r == (vm.code_of(self.spec_closure())[offset as int] != 0, vm.code_of(
                self.spec_closure(),
            )[offset + 1] as usize),
    {
        let chunk = &vm.functions[vm.closures[self.get_closure()].function].chunk;
        proof {
            assert(chunk.code@.len() == chunk.code.len());
        }
        let first = match chunk.get_byte(offset) {
            Some(b) => b,
            None => 0,
        };
        let second = match chunk.get_byte(offset + 1) {
            Some(b) => b,
            None => 0,
        };
        (first != 0, second as usize)
    }

    /// The two operand bytes after the current instruction, as one number.
    fn read_2bytes(&self, vm: &Vm) -> (r: usize)
        requires
            vm.inv(),
            self.wf(vm),
            !self.spec_is_native(),
            self.spec_ip() + 2 < vm.code_of(self.spec_closure()).len(),
        ensures
            r == spec_combine(
                vm.code_of(self.spec_closure())[self.spec_ip() + 1],
                vm.code_of(self.spec_closure())[self.spec_ip() + 2],
            ),
    {
        let chunk = &vm.functions[vm.closures[self.get_closure()].function].chunk;
        proof {
            assert(chunk.code@.len() == chunk.code.len());
        }
        let high = match chunk.get_byte(self.get_ip() + 1) {
            Some(b) => b,
            None => 0,
        };
        let low = match chunk.get_byte(self.get_ip() + 2) {
            Some(b) => b,
            None => 0,
        };
        combine(high, low) as usize
    }

    /// The byte at the instruction pointer, if the code goes that far.
    fn cur_byte(&self, vm: &Vm) -> (r: Option<u8>)
        requires
            vm.inv(),
            self.wf(vm),
            !self.spec_is_native(),
        ensures
            r == (if self.spec_ip() < vm.code_of(self.spec_closure()).len() {
                Some(vm.code_of(self.spec_closure())[self.spec_ip() as int])
            } else {
                None
            }),
    {
        vm.functions[vm.closures[self.get_closure()].function].chunk.get_byte(self.get_ip())
    }

    /// The instruction at the instruction pointer, if the code goes that far.
    fn cur_instr(&self, vm: &Vm) -> (r: Option<Instruction>)
        requires
            vm.inv(),
            self.wf(vm),
            !self.spec_is_native(),
        ensures
            r == (if self.spec_ip() < vm.code_of(self.spec_closure()).len() {
                Some(decode(vm.code_of(self.spec_closure())[self.spec_ip() as int]))
            } else {
                None
            }),
    {
        match self.cur_byte(vm) {
            Some(b) => Some(Instruction::from_byte(b)),
            None => None,
        }
    }

    /// The token the current instruction was compiled from.
    fn cur_token(&self, vm: &Vm) -> (t: Token)
        requires
            vm.inv(),
            self.wf(vm),
            !self.spec_is_native(),
            self.spec_ip() < vm.tokens_of(self.spec_closure()).len(),
        ensures
            t == vm.tokens_of(self.spec_closure())[self.spec_ip() as int],
    {
        vm.functions[vm.closures[self.get_closure()].function].chunk.get_token(self.get_ip())
    }

    /// Takes the top value off the stack.
    pub fn pop(&self, vm: &mut Vm) -> (v: Value)
        requires
            old(vm).inv(),
            old(vm).stack_view().len() > 0,
            old(vm).open_cells_below(old(vm).stack_view().len() - 1),
        ensures
            final(vm).inv(),
            v@ == old(vm).stack_view().last(),
            final(vm).stack_view() == old(vm).stack_view().drop_last(),
            final(vm).same_heaps(*old(vm)),
    {
        let v = match vm.stack.pop() {
            Some(v) => v,
            None => Value::Nil,
        };
        proof {
            assert(vm.stack_view() =~= old(vm).stack_view().drop_last());
        }
        v
    }

    /// Puts a value on top of the stack.
    pub fn push(&self, vm: &mut Vm, value: Value)
        requires
            old(vm).inv(),
        ensures
            final(vm).inv(),
            final(vm).stack_view() == old(vm).stack_view().push(value@),
            final(vm).same_heaps(*old(vm)),
    {
        vm.stack.push(value);
        proof {
            assert(vm.stack_view() =~= old(vm).stack_view().push(value@));
        }
    }

    /// The top value of the stack.
    fn last<'a>(&self, vm: &'a Vm) -> (v: &'a Value)
        requires
            vm.stack_view().len() > 0,
        ensures
            v@ == vm.stack_view().last(),
    {
        let n = vm.stack.len();
        &vm.stack[n - 1]
    }

    /// The value at stack index `idx`.
    fn get<'a>(&self, vm: &'a Vm, idx: usize) -> (v: &'a Value)
        requires
            idx < vm.stack_view().len(),
        ensures
            v@ == vm.stack_view()[idx as int],
    {
        &vm.stack[idx]
    }

    /// Replaces the value at stack index `idx`.
    fn set(&self, vm: &mut Vm, idx: usize, value: Value)
        requires
            old(vm).inv(),
            idx < old(vm).stack_view().len(),
        ensures
            final(vm).inv(),
            final(vm).stack_view() == old(vm).stack_view().update(idx as int, value@),
            final(vm).same_heaps(*old(vm)),
    {
        vm.stack.set(idx, value);
        proof {
            assert(vm.stack_view() =~= old(vm).stack_view().update(idx as int, value@));
        }
    }

    /// Cuts the stack down to `len` values, first closing the cells that
    /// point at the values that go.
    fn truncate(&self, vm: &mut Vm, len: usize)
        requires
            old(vm).inv(),
        ensures
            final(vm).creation_time() == old(vm).creation_time(),
            final(vm).inv(),
            final(vm).stack_view() == (if len < old(vm).stack_view().len() {
                old(vm).stack_view().take(len as int)
            } else {
                old(vm).stack_view()
            }),
            final(vm).open_cells() == old(vm).open_cells().filter(
                stays_open(old(vm).cells(), len),
            ),
            final(vm).cells().len() == old(vm).cells().len(),
            forall|id: int|
                0 <= id < old(vm).cells().len() ==> #[trigger] final(vm).cells()[id]
                    == after_closing(old(vm).cells(), old(vm).open_cells(), old(vm).stack_view(), len, id),
            forall|id: int|
                0 <= id < old(vm).cells().len() && lists(old(vm).open_cells(), id)
                    && old(vm).cells()[id] is Open && old(vm).cells()[id]->Open_0 >= len
                    ==> #[trigger] final(vm).cells()[id] == UpValueView::Closed(
                    old(vm).stack_view()[old(vm).cells()[id]->Open_0 as int],
                ),
            final(vm).globals_view() == old(vm).globals_view(),
            final(vm).same_closures(*old(vm)),
            final(vm).lists_view() == old(vm).lists_view(),
            final(vm).objects_view() == old(vm).objects_view(),
    {
        vm.close_up_values(len);
        let ghost mid = *vm;
        vm.stack.truncate(len);
        proof {
            assert forall|k: int| 0 <= k < vm.open_up_values@.len() implies {
                let id = #[trigger] vm.open_up_values@[k];
                &&& id < vm.up_values@.len()
                &&& vm.up_values@[id as int] matches UpValue::Open(i) && i < vm.stack@.len()
            } by {
                let id = vm.open_up_values@[k];
                old(vm).open_cells().lemma_filter_pred(stays_open(old(vm).cells(), len), k);
                assert(mid.cells()[id as int] == after_closing(old(vm).cells(), old(vm).open_cells(), old(vm).stack_view(), len, id as int));
            }
            if len < old(vm).stack_view().len() {
                assert(vm.stack_view() =~= old(vm).stack_view().take(len as int));
            } else {
                assert(vm.stack_view() =~= old(vm).stack_view());
            }
        }
    }
}

/// The text of a bad-argument error: argument `idx` should be of the kind
/// that `kind` names, given the decimal text of `idx`.
pub open spec fn input_message(idx_text: Seq<char>, kind: Seq<char>) -> Seq<char> {
    "يجب أن يكون المدخل "@ + idx_text + kind
}

/// The error value for argument `idx` not being of the kind `kind` names.
fn input_error(idx: usize, kind: &str) -> (v: Value)
    ensures
        exists|t: String|
            #[trigger] to_string_from_display_ensures::<usize>(&idx, t) && v@ == ValueView::Object(
                ObjectView::String(input_message(t@, kind@)),
            ),
{
    let t = idx.to_string();
    let mut text = String::from_str("يجب أن يكون المدخل ");
    text.append(t.as_str());
    text.append(kind);
    Value::new_string(text)
}

impl Frame {
    /// Whether the stack holds argument `idx` of a native call.
    pub fn has_argument(&self, vm: &Vm, idx: usize) -> (b: bool)
        ensures
            b == (self.spec_slots() + idx < vm.stack_view().len()),
    {
        proof {
            assert(vm.stack@.len() == vm.stack.len());
        }
        let slots = self.get_slots();
        slots < vm.stack.len() && idx < vm.stack.len() - slots
    }

    /// Argument `idx` of a native call: the value at that offset from the
    /// frame's first slot.
    pub fn nth<'a>(&self, vm: &'a Vm, idx: usize) -> (v: &'a Value)
        requires
            self.spec_slots() + idx < vm.stack_view().len(),
        ensures
            v@ == vm.stack_view()[self.spec_slots() + idx],
    {
        proof {
            assert(vm.stack@.len() == vm.stack.len());
        }
        self.get(vm, self.get_slots() + idx)
    }

    /// Argument `idx` as a string.
    pub fn nth_string<'a>(&self, vm: &'a Vm, idx: usize) -> (r: Result<&'a str, Value>)
        requires
            self.spec_slots() + idx < vm.stack_view().len(),
        ensures
            match vm.stack_view()[self.spec_slots() + idx] {
                ValueView::Object(ObjectView::String(s)) => r matches Ok(t) && t@ == s,
                _ => r matches Err(e) && is_input_error(e@, idx, " نص"@),
            },
    {
        if let Value::Object(Object::String(string)) = self.nth(vm, idx) {
            Ok(string.as_str())
        } else {
            Err(input_error(idx, " نص"))
        }
    }

    /// Argument `idx` as a single character.
    pub fn nth_char(&self, vm: &Vm, idx: usize) -> (r: Result<char, Value>)
        requires
            self.spec_slots() + idx < vm.stack_view().len(),
        ensures
            match vm.stack_view()[self.spec_slots() + idx] {
                ValueView::Object(ObjectView::String(s)) if s.len() == 1 => r == Ok::<char, Value>(s[0]),
                _ => r matches Err(e) && is_input_error(e@, idx, " نص ذي حرف واحد"@),
            },
    {
        if let Value::Object(Object::String(string)) = self.nth(vm, idx) {
            let s = string.as_str();
            if s.unicode_len() == 1 {
                Ok(s.get_char(0))
            } else {
                Err(input_error(idx, " نص ذي حرف واحد"))
            }
        } else {
            Err(input_error(idx, " نص ذي حرف واحد"))
        }
    }

    /// Argument `idx` as a number: the bits of its double.
    pub fn nth_number(&self, vm: &Vm, idx: usize) -> (r: Result<u64, Value>)
        requires
            self.spec_slots() + idx < vm.stack_view().len(),
        ensures
            match vm.stack_view()[self.spec_slots() + idx] {
                ValueView::Number(b) => r == Ok::<u64, Value>(b),
                _ => r matches Err(e) && is_input_error(e@, idx, " عدداً"@),
            },
    {
        if let Value::Number(n) = self.nth(vm, idx) {
            Ok(*n)
        } else {
            Err(input_error(idx, " عدداً"))
        }
    }

    /// Argument `idx` as a whole number in `i32` (saturating at its
    /// bounds).
    pub fn nth_i32(&self, vm: &Vm, idx: usize) -> (r: Result<i32, Value>)
        requires
            self.spec_slots() + idx < vm.stack_view().len(),
        ensures
            match vm.stack_view()[self.spec_slots() + idx] {
                ValueView::Number(b) if is_whole(b) => r == Ok::<i32, Value>(clamp_i32(truncated(b))),
                _ => r matches Err(e) && is_input_error(e@, idx, " عدداً صحيحاً"@),
            },
    {
        if let Value::Number(n) = self.nth(vm, idx) {
            match whole_i32(*n) {
                Some(i) => Ok(i),
                None => Err(input_error(idx, " عدداً صحيحاً")),
            }
        } else {
            Err(input_error(idx, " عدداً صحيحاً"))
        }
    }

    /// Argument `idx` as a whole number above zero in `u32` (saturating at
    /// its top).
    pub fn nth_u32(&self, vm: &Vm, idx: usize) -> (r: Result<u32, Value>)
        requires
            self.spec_slots() + idx < vm.stack_view().len(),
        ensures
            match vm.stack_view()[self.spec_slots() + idx] {
                ValueView::Number(b) if is_whole(b) && !negative(b) && truncated_magnitude(b) > 0 =>
                    r == Ok::<u32, Value>(clamp_u32(truncated(b))),
                _ => r matches Err(e) && is_input_error(e@, idx, " عدداً صحيحاً موجباً"@),
            },
    {
        if let Value::Number(n) = self.nth(vm, idx) {
            match positive_whole_u32(*n) {
                Some(u) => Ok(u),
                None => Err(input_error(idx, " عدداً صحيحاً موجباً")),
            }
        } else {
            Err(input_error(idx, " عدداً صحيحاً موجباً"))
        }
    }

    /// Argument `idx` as an object (the index of its storage).
    pub fn nth_object(&self, vm: &Vm, idx: usize) -> (r: Result<usize, Value>)
        requires
            self.spec_slots() + idx < vm.stack_view().len(),
        ensures
            match vm.stack_view()[self.spec_slots() + idx] {
                ValueView::Object(ObjectView::Object(o)) => r == Ok::<usize, Value>(o),
                _ => r matches Err(e) && is_input_error(e@, idx, " مجموعة"@),
            },
    {
        if let Value::Object(Object::Object(items)) = self.nth(vm, idx) {
            Ok(*items)
        } else {
            Err(input_error(idx, " مجموعة"))
        }
    }

    /// Argument `idx` as a list (the index of its storage).
    pub fn nth_list(&self, vm: &Vm, idx: usize) -> (r: Result<usize, Value>)
        requires
            self.spec_slots() + idx < vm.stack_view().len(),
        ensures
            match vm.stack_view()[self.spec_slots() + idx] {
                ValueView::Object(ObjectView::List(l)) => r == Ok::<usize, Value>(l),
                _ => r matches Err(e) && is_input_error(e@, idx, " قائمة"@),
            },
    {
        if let Value::Object(Object::List(items)) = self.nth(vm, idx) {
            Ok(*items)
        } else {
            Err(input_error(idx, " قائمة"))
        }
    }

    /// Argument `idx` as an open file (the index of its handle).
    pub fn nth_file(&self, vm: &Vm, idx: usize) -> (r: Result<usize, Value>)
        requires
            self.spec_slots() + idx < vm.stack_view().len(),
        ensures
            match vm.stack_view()[self.spec_slots() + idx] {
                ValueView::Object(ObjectView::File(f)) => r == Ok::<usize, Value>(f),
                _ => r matches Err(e) && is_input_error(e@, idx, " ملف"@),
            },
    {
        if let Value::Object(Object::File(file)) = self.nth(vm, idx) {
            Ok(*file)
        } else {
            Err(input_error(idx, " ملف"))
        }
    }

    /// Argument `idx` as a path to resolve: the path of the calling code
    /// (against which it is resolved) and the argument's text.
    pub fn nth_path<'a>(&'a self, vm: &'a Vm, idx: usize) -> (r: Result<(&'a Option<String>, &'a str), Value>)
        requires
            vm.inv(),
            self.wf(vm),
            self.spec_slots() + idx < vm.stack_view().len(),
        ensures
            match vm.stack_view()[self.spec_slots() + idx] {
                ValueView::Object(ObjectView::String(s)) => r matches Ok((base, t)) && t@ == s
                    && (self.spec_is_native() ==> *base == self->path) && (!self.spec_is_native()
                    ==> path_view(*base) == vm.path_of(self.spec_closure())),
                _ => r matches Err(e) && is_input_error(e@, idx, " مسار"@),
            },
    {
        if let Value::Object(Object::String(string)) = self.nth(vm, idx) {
            Ok((self.get_path(vm), string.as_str()))
        } else {
            Err(input_error(idx, " مسار"))
        }
    }

    /// When the machine was made.
    pub fn get_creation_time<'a>(&self, vm: &'a Vm) -> (t: &'a std::time::SystemTime)
        ensures
            *t == vm.creation_time(),
    {
        &vm.created_at
    }

    /// An error raised at the current instruction: the message as a string
    /// value, and a backtrace that starts at this frame.
    fn string_to_err(&self, vm: &Vm, string: String) -> (r: (Value, Backtrace))
        requires
            vm.inv(),
            self.wf(vm),
            !self.spec_is_native(),
            self.spec_ip() < vm.tokens_of(self.spec_closure()).len(),
        ensures
            r.0@ == ValueView::Object(ObjectView::String(string@)),
            r.1.entries() == seq![(vm.tokens_of(self.spec_closure())[self.spec_ip() as int], vm.name_of(self.spec_closure()))],
    {
        let mut backtrace = Backtrace::new();
        backtrace.push(BacktraceFrame::new(self, vm));
        proof {
            assert(backtrace.entries() =~= seq![(vm.tokens_of(self.spec_closure())[self.spec_ip() as int], vm.name_of(self.spec_closure()))]);
        }
        (Value::new_string(string), backtrace)
    }
}


impl Frame {
    /// Moves the instruction pointer by `progress`, through `i32` as the
    /// machine does.
    fn move_ip(&mut self, progress: i32)
        requires
            !old(self).spec_is_native(),
            i32::MIN <= (old(self).spec_ip() as i32) + progress <= i32::MAX,
        ensures
            *final(self) == old(self).at_ip(moved_ip(old(self).spec_ip(), progress as int)),
    {
        #[verifier::truncate]
        let here: i32 = self.get_ip() as i32;
        let sum: i32 = here + progress;
        #[verifier::truncate]
        let next: usize = sum as usize;
        self.set_ip(next);
    }

    /// `Pop`: drops the top value.
    pub fn op_pop(&mut self, vm: &mut Vm)
        requires
            old(self).runs(old(vm)),
            old(self).spec_ip() < i32::MAX,
            old(vm).stack_view().len() > 0,
            old(vm).open_cells_below(old(vm).stack_view().len() - 1),
        ensures
            final(vm).inv(),
            final(vm).stack_view() == old(vm).stack_view().drop_last(),
            final(vm).same_heaps(*old(vm)),
            *final(self) == old(self).at_ip((old(self).spec_ip() + 1) as usize),
    {
        self.pop(vm);
        self.move_ip(1);
    }

    /// `Constant8`: pushes the constant named by the next byte.
    pub fn op_constant8(&mut self, vm: &mut Vm)
        requires
            old(self).runs(old(vm)),
            old(self).spec_ip() + 2 <= i32::MAX,
            old(self).spec_ip() + 1 < old(self).code(old(vm)).len(),
            old(self).operand(old(vm), 1) < old(vm).constants_of(old(self).spec_closure()).len(),
        ensures
            final(vm).inv(),
            final(vm).stack_view() == old(vm).stack_view().push(
                old(vm).constants_of(old(self).spec_closure())[old(self).operand(old(vm), 1) as int],
            ),
            final(vm).same_heaps(*old(vm)),
            *final(self) == old(self).at_ip((old(self).spec_ip() + 2) as usize),
    {
        let idx = self.read_byte(vm);
        let c = self.get_closure();
        let value = vm.functions[vm.closures[c].function].chunk.get_constant(idx);
        self.push(vm, value);
        self.move_ip(2);
    }

    /// `Constant16`: pushes the constant named by the next two bytes.
    pub fn op_constant16(&mut self, vm: &mut Vm)
        requires
            old(self).runs(old(vm)),
            old(self).spec_ip() + 3 <= i32::MAX,
            old(self).spec_ip() + 2 < old(self).code(old(vm)).len(),
            spec_combine(old(self).operand(old(vm), 1), old(self).operand(old(vm), 2))
                < old(vm).constants_of(old(self).spec_closure()).len(),
        ensures
            final(vm).inv(),
            final(vm).stack_view() == old(vm).stack_view().push(
                old(vm).constants_of(old(self).spec_closure())[spec_combine(
                    old(self).operand(old(vm), 1),
                    old(self).operand(old(vm), 2),
                ) as int],
            ),
            final(vm).same_heaps(*old(vm)),
            *final(self) == old(self).at_ip((old(self).spec_ip() + 3) as usize),
    {
        let idx = self.read_2bytes(vm);
        let c = self.get_closure();
        let value = vm.functions[vm.closures[c].function].chunk.get_constant(idx);
        self.push(vm, value);
        self.move_ip(3);
    }

    /// `Jump`: moves forward by the offset in the next two bytes.
    pub fn op_jump(&mut self, vm: &Vm)
        requires
            old(self).runs(vm),
            old(self).spec_ip() + 65535 <= i32::MAX,
            old(self).spec_ip() + 2 < old(self).code(vm).len(),
        ensures
            *final(self) == old(self).at_ip(
                (old(self).spec_ip() + spec_combine(old(self).operand(vm, 1), old(self).operand(vm, 2))) as usize,
            ),
    {
        let offset = self.read_2bytes(vm) as i32;
        self.move_ip(offset);
    }

    /// `Loop`: moves back by the offset in the next two bytes.
    pub fn op_loop(&mut self, vm: &Vm)
        requires
            old(self).runs(vm),
            old(self).spec_ip() <= i32::MAX,
            old(self).spec_ip() + 2 < old(self).code(vm).len(),
        ensures
            *final(self) == old(self).at_ip(
                moved_ip(
                    old(self).spec_ip(),
                    -spec_combine(old(self).operand(vm, 1), old(self).operand(vm, 2)),
                ),
            ),
    {
        let offset = self.read_2bytes(vm) as i32;
        self.move_ip(-offset);
    }

    /// `GetLocal`: pushes the local in the slot named by the next byte.
    pub fn op_get_local(&mut self, vm: &mut Vm)
        requires
            old(self).runs(old(vm)),
            old(self).spec_ip() + 2 <= i32::MAX,
            old(self).spec_ip() + 1 < old(self).code(old(vm)).len(),
            old(self).spec_slots() + old(self).operand(old(vm), 1) < old(vm).stack_view().len(),
        ensures
            final(vm).inv(),
            final(vm).stack_view() == old(vm).stack_view().push(
                old(vm).stack_view()[old(self).spec_slots() + old(self).operand(old(vm), 1)],
            ),
            final(vm).same_heaps(*old(vm)),
            *final(self) == old(self).at_ip((old(self).spec_ip() + 2) as usize),
    {
        proof {
            assert(vm.stack@.len() == vm.stack.len());
        }
        let idx = self.get_slots() + self.read_byte(vm);
        let value = self.get(vm, idx).clone();
        self.push(vm, value);
        self.move_ip(2);
    }

    /// `SetLocal`: stores the top value in the slot named by the next byte.
    pub fn op_set_local(&mut self, vm: &mut Vm)
        requires
            old(self).runs(old(vm)),
            old(self).spec_ip() + 2 <= i32::MAX,
            old(self).spec_ip() + 1 < old(self).code(old(vm)).len(),
            old(self).spec_slots() + old(self).operand(old(vm), 1) < old(vm).stack_view().len(),
        ensures
            final(vm).inv(),
            final(vm).stack_view() == old(vm).stack_view().update(
                old(self).spec_slots() + old(self).operand(old(vm), 1),
                old(vm).stack_view().last(),
            ),
            final(vm).same_heaps(*old(vm)),
            *final(self) == old(self).at_ip((old(self).spec_ip() + 2) as usize),
    {
        proof {
            assert(vm.stack@.len() == vm.stack.len());
        }
        let idx = self.get_slots() + self.read_byte(vm);
        let value = self.last(vm).clone();
        self.set(vm, idx, value);
        self.move_ip(2);
    }

    /// `CloseUpValue`: closes the cells that point at the top slot, then
    /// drops it.
    pub fn op_close_up_value(&mut self, vm: &mut Vm)
        requires
            old(self).runs(old(vm)),
            old(self).spec_ip() < i32::MAX,
            old(vm).stack_view().len() > 0,
        ensures
            final(vm).creation_time() == old(vm).creation_time(),
            final(vm).inv(),
            final(vm).stack_view() == old(vm).stack_view().drop_last(),
            final(vm).open_cells() == old(vm).open_cells().filter(
                stays_open(old(vm).cells(), (old(vm).stack_view().len() - 1) as usize),
            ),
            forall|id: int|
                0 <= id < old(vm).cells().len() ==> #[trigger] final(vm).cells()[id]
                    == after_closing(
                    old(vm).cells(),
                    old(vm).open_cells(),
                    old(vm).stack_view(),
                    (old(vm).stack_view().len() - 1) as usize,
                    id,
                ),
            final(vm).cells().len() == old(vm).cells().len(),
            final(vm).globals_view() == old(vm).globals_view(),
            final(vm).same_closures(*old(vm)),
            final(vm).lists_view() == old(vm).lists_view(),
            final(vm).objects_view() == old(vm).objects_view(),
            *final(self) == old(self).at_ip((old(self).spec_ip() + 1) as usize),
    {
        let idx = vm.stack.len() - 1;
        vm.close_up_values(idx);
        proof {
            assert(vm.open_cells_below(idx as int)) by {
                assert forall|k: int| 0 <= k < vm.open_up_values@.len() implies (vm.up_values@[
                    #[trigger] vm.open_up_values@[k] as int] matches UpValue::Open(i) && i < idx) by {
                    let id = vm.open_up_values@[k];
                    old(vm).open_cells().lemma_filter_pred(stays_open(old(vm).cells(), idx), k);
                    assert(vm.cells()[id as int] == after_closing(old(vm).cells(), old(vm).open_cells(), old(vm).stack_view(), idx, id as int));
                }
            }
        }
        self.pop(vm);
        self.move_ip(1);
    }

    /// `Return`: the top value is what the call gives back.
    pub fn op_return(&mut self, vm: &mut Vm) -> (v: Value)
        requires
            old(self).runs(old(vm)),
            old(vm).stack_view().len() > 0,
            old(vm).open_cells_below(old(vm).stack_view().len() - 1),
        ensures
            final(vm).inv(),
            v@ == old(vm).stack_view().last(),
            final(vm).stack_view() == old(vm).stack_view().drop_last(),
            final(vm).same_heaps(*old(vm)),
            *final(self) == *old(self),
    {
        self.pop(vm)
    }

    /// `AppendHandler`: installs a handler that unwinds to the present
    /// stack height and resumes at the offset in the next byte.
    pub fn op_append_handler(&mut self, vm: &Vm)
        requires
            old(self).runs(vm),
            old(self).spec_ip() + 3 <= i32::MAX,
            old(self).spec_ip() + 1 < old(self).code(vm).len(),
        ensures
            final(self).handlers_view().len() == old(self).handlers_view().len() + 1,
            final(self).handlers_view().drop_last() == old(self).handlers_view(),
            final(self).handlers_view().last().height() == vm.stack_view().len(),
            final(self).handlers_view().last().target() == old(self).spec_ip() + old(self).operand(vm, 1),
            final(self).spec_ip() == old(self).spec_ip() + 3,
            final(self).spec_closure() == old(self).spec_closure(),
            final(self).spec_slots() == old(self).spec_slots(),
            final(self)->enclosing_up_values == old(self)->enclosing_up_values,
            !final(self).spec_is_native(),
    {
        let handler = Handler::new(vm.stack.len(), self.get_ip() + self.read_byte(vm));
        match self {
            Frame::Closure { handlers, .. } => handlers.push(handler),
            Frame::Native { .. } => {},
        }
        proof {
            assert(self.handlers_view().drop_last() =~= old(self).handlers_view());
        }
        self.move_ip(3);
    }

    /// `PopHandler`: removes the innermost handler.
    pub fn op_pop_handler(&mut self, vm: &Vm)
        requires
            old(self).runs(vm),
            old(self).spec_ip() < i32::MAX,
        ensures
            final(self).handlers_view() == (if old(self).handlers_view().len() > 0 {
                old(self).handlers_view().drop_last()
            } else {
                old(self).handlers_view()
            }),
            final(self).spec_ip() == old(self).spec_ip() + 1,
            final(self).spec_closure() == old(self).spec_closure(),
            final(self).spec_slots() == old(self).spec_slots(),
            final(self)->enclosing_up_values == old(self)->enclosing_up_values,
            !final(self).spec_is_native(),
    {
        match self {
            Frame::Closure { handlers, .. } => {
                handlers.pop();
            },
            Frame::Native { .. } => {},
        }
        proof {
            if old(self).handlers_view().len() > 0 {
                assert(self.handlers_view() =~= old(self).handlers_view().drop_last());
            }
        }
        self.move_ip(1);
    }
}


impl Frame {
    /// Removes and gives the innermost handler, if any.
    fn take_handler(&mut self) -> (h: Option<Handler>)
        requires
            !old(self).spec_is_native(),
        ensures
            old(self).handlers_view().len() > 0 ==> h == Some(old(self).handlers_view().last())
                && final(self).handlers_view() == old(self).handlers_view().drop_last(),
            old(self).handlers_view().len() == 0 ==> h is None && final(self).handlers_view()
                == old(self).handlers_view(),
            final(self).spec_ip() == old(self).spec_ip(),
            final(self).spec_closure() == old(self).spec_closure(),
            final(self).spec_slots() == old(self).spec_slots(),
            final(self)->enclosing_up_values == old(self)->enclosing_up_values,
            !final(self).spec_is_native(),
    {
        let h = match self {
            Frame::Closure { handlers, .. } => handlers.pop(),
            Frame::Native { .. } => None,
        };
        proof {
            if old(self).handlers_view().len() > 0 {
                assert(self.handlers_view() =~= old(self).handlers_view().drop_last());
            }
        }
        h
    }

    /// `Throw`: the top value is thrown. With a handler installed, the
    /// innermost one is removed, the stack is cut to its height (closing the
    /// cells above) with the thrown value on top, and the frame resumes at
    /// its target; without one, the value leaves the frame as an error.
    pub fn op_throw(&mut self, vm: &mut Vm) -> (r: Result<(), (Value, Backtrace)>)
        requires
            old(self).runs(old(vm)),
            old(vm).stack_view().len() > 0,
            old(vm).open_cells_below(old(vm).stack_view().len() - 1),
            old(self).handlers_view().len() > 0 ==> {
                let h = old(self).handlers_view().last();
                &&& h.target() >= old(self).spec_ip()
                &&& i32::MIN <= (old(self).spec_ip() as i32) + ((h.target() - old(self).spec_ip()) as i32) <= i32::MAX
            },
            old(self).handlers_view().len() == 0 ==> old(self).spec_ip() < old(vm).tokens_of(
                old(self).spec_closure(),
            ).len(),
        ensures
            final(vm).creation_time() == old(vm).creation_time(),
            final(vm).inv(),
            final(vm).globals_view() == old(vm).globals_view(),
            final(vm).same_closures(*old(vm)),
            old(self).handlers_view().len() > 0 ==> {
                let h = old(self).handlers_view().last();
                let rest = old(vm).stack_view().drop_last();
                &&& r is Ok
                &&& final(self).handlers_view() == old(self).handlers_view().drop_last()
                &&& final(vm).stack_view() == (if h.height() < rest.len() {
                    rest.take(h.height() as int)
                } else {
                    rest
                }).push(old(vm).stack_view().last())
                &&& final(vm).open_cells() == old(vm).open_cells().filter(
                    stays_open(old(vm).cells(), h.height()),
                )
                &&& forall|id: int|
                    0 <= id < old(vm).cells().len() ==> #[trigger] final(vm).cells()[id]
                        == after_closing(old(vm).cells(), old(vm).open_cells(), rest, h.height(), id)
                &&& final(self).spec_ip() == moved_ip(
                    old(self).spec_ip(),
                    ((h.target() - old(self).spec_ip()) as i32) as int,
                )
                &&& final(self).spec_closure() == old(self).spec_closure()
                &&& final(self).spec_slots() == old(self).spec_slots()
                &&& !final(self).spec_is_native()
            },
            old(self).handlers_view().len() == 0 ==> {
                &&& r matches Err((v, bt)) && v@ == old(vm).stack_view().last() && bt.entries()
                    == seq![(old(vm).tokens_of(old(self).spec_closure())[old(self).spec_ip() as int], old(vm).name_of(old(self).spec_closure()))]
                &&& final(vm).stack_view() == old(vm).stack_view().drop_last()
                &&& final(self).handlers_view() == old(self).handlers_view()
                &&& final(self).spec_ip() == old(self).spec_ip()
                &&& final(self).spec_closure() == old(self).spec_closure()
                &&& final(self).spec_slots() == old(self).spec_slots()
                &&& !final(self).spec_is_native()
            },
    {
        match self.take_handler() {
            Some(handler) => {
                let throwed = self.pop(vm);
                self.truncate(vm, handler.slots);
                self.push(vm, throwed);
                let progress = (handler.ip - self.get_ip()) as i32;
                self.move_ip(progress);
                Ok(())
            },
            None => {
                let mut backtrace = Backtrace::new();
                backtrace.push(BacktraceFrame::new(self, vm));
                proof {
                    assert(backtrace.entries() =~= seq![(vm.tokens_of(self.spec_closure())[self.spec_ip() as int], vm.name_of(self.spec_closure()))]);
                }
                Err((self.pop(vm), backtrace))
            },
        }
    }

    /// `BuildList`: the top values, as many as the next byte says, become a
    /// new list (in stack order), which replaces them on the stack.
    pub fn op_build_list(&mut self, vm: &mut Vm)
        requires
            old(self).runs(old(vm)),
            old(self).spec_ip() + 2 <= i32::MAX,
            old(self).spec_ip() + 1 < old(self).code(old(vm)).len(),
            old(self).operand(old(vm), 1) <= old(vm).stack_view().len(),
            old(vm).open_cells_below(old(vm).stack_view().len() - old(self).operand(old(vm), 1)),
        ensures
            final(vm).creation_time() == old(vm).creation_time(),
            final(vm).inv(),
            ({
                let len = old(vm).stack_view().len();
                let start = len - old(self).operand(old(vm), 1);
                &&& final(vm).stack_view() == old(vm).stack_view().take(start).push(
                    ValueView::Object(ObjectView::List(old(vm).lists_view().len() as usize)),
                )
                &&& final(vm).lists_view() == old(vm).lists_view().push(
                    old(vm).stack_view().subrange(start, len as int),
                )
            }),
            final(vm).globals_view() == old(vm).globals_view(),
            final(vm).cells() == old(vm).cells(),
            final(vm).open_cells() == old(vm).open_cells(),
            final(vm).objects_view() == old(vm).objects_view(),
            final(vm).same_closures(*old(vm)),
            *final(self) == old(self).at_ip((old(self).spec_ip() + 2) as usize),
    {
        let size = self.read_byte(vm);
        let len = vm.stack.len();
        let start = len - size;
        let mut items: Vec<Value> = Vec::new();
        let mut i = start;
        while i < len
            invariant
                start <= i <= len,
                len == vm.stack@.len(),
                items@.map_values(|v: Value| v@) == vm.stack_view().subrange(start as int, i as int),
            decreases len - i,
        {
            let v = vm.stack[i].clone();
            proof {
                assert(items@.push(v).map_values(|v: Value| v@) =~= items@.map_values(|v: Value| v@).push(v@));
                assert(vm.stack_view().subrange(start as int, i + 1) =~= vm.stack_view().subrange(start as int, i as int).push(vm.stack_view()[i as int]));
            }
            items.push(v);
            i = i + 1;
        }
        let ghost old_lists = vm.lists_view();
        let id = vm.lists.len();
        vm.lists.push(items);
        vm.stack.truncate(start);
        proof {
            assert(vm.lists_view() =~= old_lists.push(old(vm).stack_view().subrange(start as int, len as int)));
            assert(vm.stack_view() =~= old(vm).stack_view().take(start as int));
        }
        self.push(vm, Value::Object(Object::List(id)));
        self.move_ip(2);
    }

    /// `GetUpValue`: pushes the value of the captured variable named by the
    /// next byte: from the stack while it is open, from the cell once
    /// closed.
    pub fn op_get_up_value(&mut self, vm: &mut Vm)
        requires
            old(self).runs(old(vm)),
            old(self).spec_ip() + 2 <= i32::MAX,
            old(self).spec_ip() + 1 < old(self).code(old(vm)).len(),
            old(self).operand(old(vm), 1) < old(vm).captured_of(old(self).spec_closure()).len(),
            ({
                let id = old(vm).captured_of(old(self).spec_closure())[old(self).operand(old(vm), 1) as int];
                &&& id < old(vm).cells().len()
                &&& old(vm).cells()[id as int] matches UpValueView::Open(i) ==> i < old(vm).stack_view().len()
            }),
        ensures
            final(vm).inv(),
            ({
                let id = old(vm).captured_of(old(self).spec_closure())[old(self).operand(old(vm), 1) as int];
                final(vm).stack_view() == old(vm).stack_view().push(
                    match old(vm).cells()[id as int] {
                        UpValueView::Open(i) => old(vm).stack_view()[i as int],
                        UpValueView::Closed(v) => v,
                    },
                )
            }),
            final(vm).same_heaps(*old(vm)),
            *final(self) == old(self).at_ip((old(self).spec_ip() + 2) as usize),
    {
        let idx = self.read_byte(vm);
        let id = vm.closures[self.get_closure()].up_values[idx];
        let value = match &vm.up_values[id] {
            UpValue::Open(i) => vm.stack[*i].clone(),
            UpValue::Closed(v) => v.clone(),
        };
        self.push(vm, value);
        self.move_ip(2);
    }

    /// `SetUpValue`: stores the top value in the captured variable named by
    /// the next byte: into its stack slot while it is open, into the cell
    /// once closed.
    pub fn op_set_up_value(&mut self, vm: &mut Vm)
        requires
            old(self).runs(old(vm)),
            old(self).spec_ip() + 2 <= i32::MAX,
            old(self).spec_ip() + 1 < old(self).code(old(vm)).len(),
            old(vm).stack_view().len() > 0,
            old(self).operand(old(vm), 1) < old(vm).captured_of(old(self).spec_closure()).len(),
            ({
                let id = old(vm).captured_of(old(self).spec_closure())[old(self).operand(old(vm), 1) as int];
                &&& id < old(vm).cells().len()
                &&& old(vm).cells()[id as int] matches UpValueView::Open(i) ==> i < old(vm).stack_view().len()
            }),
        ensures
            final(vm).creation_time() == old(vm).creation_time(),
            final(vm).inv(),
            ({
                let id = old(vm).captured_of(old(self).spec_closure())[old(self).operand(old(vm), 1) as int];
                match old(vm).cells()[id as int] {
                    UpValueView::Open(i) => final(vm).stack_view() == old(vm).stack_view().update(
                        i as int,
                        old(vm).stack_view().last(),
                    ) && final(vm).cells() == old(vm).cells(),
                    UpValueView::Closed(_) => final(vm).stack_view() == old(vm).stack_view()
                        && final(vm).cells() == old(vm).cells().update(
                        id as int,
                        UpValueView::Closed(old(vm).stack_view().last()),
                    ),
                }
            }),
            final(vm).open_cells() == old(vm).open_cells(),
            final(vm).globals_view() == old(vm).globals_view(),
            final(vm).lists_view() == old(vm).lists_view(),
            final(vm).objects_view() == old(vm).objects_view(),
            final(vm).same_closures(*old(vm)),
            *final(self) == old(self).at_ip((old(self).spec_ip() + 2) as usize),
    {
        let idx = self.read_byte(vm);
        let id = vm.closures[self.get_closure()].up_values[idx];
        let value = self.last(vm).clone();
        let open_at = match &vm.up_values[id] {
            UpValue::Open(i) => Some(*i),
            UpValue::Closed(_) => None,
        };
        match open_at {
            Some(i) => {
                self.set(vm, i, value);
            },
            None => {
                let ghost before = *vm;
                vm.up_values.set(id, UpValue::Closed(value));
                proof {
                    assert(vm.cells() =~= before.cells().update(id as int, UpValueView::Closed(old(vm).stack_view().last())));
                    assert forall|k: int| 0 <= k < vm.open_up_values@.len() implies {
                        let j = #[trigger] vm.open_up_values@[k];
                        &&& j < vm.up_values@.len()
                        &&& vm.up_values@[j as int] matches UpValue::Open(i) && i < vm.stack@.len()
                    } by {
                        let j = vm.open_up_values@[k];
                        assert(before.up_values@[j as int] is Open);
                    }
                }
            },
        }
        self.move_ip(2);
    }
}


/// The text of a path, if any.
pub open spec fn path_view(p: Option<String>) -> Option<Seq<char>> {
    match p {
        Some(s) => Some(s@),
        None => None,
    }
}

/// The stack cut down to `len` values (if it is longer).
pub open spec fn cut(stack: Seq<ValueView>, len: usize) -> Seq<ValueView> {
    if len < stack.len() {
        stack.take(len as int)
    } else {
        stack
    }
}

impl Frame {
    /// `Call`, first part: with the next byte giving the number of
    /// arguments, the value below them is called. A closure gets a frame
    /// whose first slot is the callee's own (if the count suits its
    /// arity, else the arity error is raised here); a native gets a native
    /// frame with the caller's path. Gives the new frame, its first slot and
    /// the number of arguments.
    pub fn op_call_setup(&self, vm: &Vm) -> (r: Result<(Frame, usize, usize), (Value, Backtrace)>)
        requires
            self.runs(vm),
            self.spec_ip() + 1 < self.code(vm).len(),
            self.spec_ip() < vm.tokens_of(self.spec_closure()).len(),
            self.operand(vm, 1) + 1 <= vm.stack_view().len(),
            ({
                let callee = vm.stack_view()[vm.stack_view().len() - self.operand(vm, 1) - 1];
                ||| callee matches ValueView::Object(ObjectView::Closure(c)) && c < vm.closure_count()
                ||| callee matches ValueView::Object(ObjectView::Native(_))
            }),
        ensures
            ({
                let argc = self.operand(vm, 1) as usize;
                let slot = (vm.stack_view().len() - argc - 1) as usize;
                match vm.stack_view()[slot as int] {
                    ValueView::Object(ObjectView::Closure(c)) => if arity_accepts(
                        vm.arity_of(vm.function_of(c)),
                        argc,
                    ) {
                        r matches Ok((f, s, a)) && s == slot && a == argc && f.wf(vm)
                            && f.spec_closure() == c && f.spec_ip() == 0 && f.spec_slots() == slot
                            && !f.spec_is_native() && f->enclosing_up_values == Some(
                            self.spec_closure(),
                        ) && f.handlers_view().len() == 0
                    } else {
                        r matches Err((v, bt)) && (exists|expected: String, got: String|
                            #[trigger] count_texts(vm.arity_of(vm.function_of(c)), argc, expected, got)
                                && v@ == ValueView::Object(
                                ObjectView::String(
                                    arity_message(vm.arity_of(vm.function_of(c)), expected@, got@),
                                ),
                            )) && bt.entries() == seq![
                            (
                                vm.tokens_of(self.spec_closure())[self.spec_ip() as int],
                                vm.name_of(self.spec_closure()),
                            ),
                        ]
                    },
                    ValueView::Object(ObjectView::Native(n)) => r matches Ok((f, s, a)) && s == slot
                        && a == argc && f.spec_is_native() && f->native == n && f.spec_slots() == slot
                        && path_view(f->path) == vm.path_of(self.spec_closure()),
                    _ => false,
                }
            }),
    {
        proof {
            assert(vm.stack@.len() == vm.stack.len());
        }
        let argc = self.read_byte(vm);
        let idx = vm.stack.len() - argc - 1;
        let enclosing_closure = self.get_closure();
        match &vm.stack[idx] {
            Value::Object(Object::Closure(closure)) => {
                let arity = vm.functions[vm.closures[*closure].function].arity;
                match Vm::check_arity(arity, argc) {
                    Ok(()) => Ok((Frame::new_closure(*closure, idx, Some(enclosing_closure)), idx, argc)),
                    Err(value) => {
                        let text = match value {
                            Value::Object(Object::String(s)) => s,
                            _ => String::new(),
                        };
                        Err(self.string_to_err(vm, text))
                    },
                }
            },
            Value::Object(Object::Native(native)) => {
                let path = match self.get_path(vm) {
                    Some(p) => Some(p.clone()),
                    None => None,
                };
                Ok((Frame::new_native(*native, idx, path), idx, argc))
            },
            _ => Err(self.string_to_err(vm, String::new())),
        }
    }

    /// `Call`, second part, once the callee's frame has run: a returned
    /// value replaces the callee and its arguments (cells above them are
    /// closed); an error is caught by the innermost handler (the stack is
    /// cut to its height, the error pushed, and the frame resumes at its
    /// target) or, with none, leaves this frame too, with this frame added
    /// to its backtrace.
    pub fn op_call_finish(
        &mut self,
        vm: &mut Vm,
        slot: usize,
        result: Result<Option<Value>, (Value, Backtrace)>,
    ) -> (r: Result<(), (Value, Backtrace)>)
        requires
            old(self).runs(old(vm)),
            old(self).spec_ip() + 2 <= i32::MAX,
            result matches Ok(v) ==> v is Some,
            result is Err && old(self).handlers_view().len() > 0 ==> {
                let h = old(self).handlers_view().last();
                &&& h.target() >= old(self).spec_ip()
                &&& i32::MIN <= (old(self).spec_ip() as i32) + ((h.target() - old(self).spec_ip()) as i32) <= i32::MAX
            },
            result is Err && old(self).handlers_view().len() == 0 ==> old(self).spec_ip() < old(
                vm,
            ).tokens_of(old(self).spec_closure()).len(),
        ensures
            final(vm).creation_time() == old(vm).creation_time(),
            final(vm).inv(),
            final(vm).globals_view() == old(vm).globals_view(),
            final(self).spec_closure() == old(self).spec_closure(),
            final(self).spec_slots() == old(self).spec_slots(),
            !final(self).spec_is_native(),
            match result {
                Ok(v) => {
                    &&& r is Ok
                    &&& final(vm).stack_view() == cut(old(vm).stack_view(), slot).push(v.unwrap()@)
                    &&& final(vm).open_cells() == old(vm).open_cells().filter(stays_open(old(vm).cells(), slot))
                    &&& forall|id: int|
                        0 <= id < old(vm).cells().len() ==> #[trigger] final(vm).cells()[id]
                            == after_closing(old(vm).cells(), old(vm).open_cells(), old(vm).stack_view(), slot, id)
                    &&& final(self).handlers_view() == old(self).handlers_view()
                    &&& final(self).spec_ip() == old(self).spec_ip() + 2
                },
                Err((v, bt)) => if old(self).handlers_view().len() > 0 {
                    let h = old(self).handlers_view().last();
                    &&& r is Ok
                    &&& final(vm).stack_view() == cut(old(vm).stack_view(), h.height()).push(v@)
                    &&& final(vm).open_cells() == old(vm).open_cells().filter(stays_open(old(vm).cells(), h.height()))
                    &&& forall|id: int|
                        0 <= id < old(vm).cells().len() ==> #[trigger] final(vm).cells()[id]
                            == after_closing(old(vm).cells(), old(vm).open_cells(), old(vm).stack_view(), h.height(), id)
                    &&& final(self).handlers_view() == old(self).handlers_view().drop_last()
                    &&& final(self).spec_ip() == moved_ip(
                        old(self).spec_ip(),
                        ((h.target() - old(self).spec_ip()) as i32) as int,
                    )
                } else {
                    &&& r matches Err((v2, bt2)) && v2@ == v@ && bt2.entries() == bt.entries().push(
                        (
                            old(vm).tokens_of(old(self).spec_closure())[old(self).spec_ip() as int],
                            old(vm).name_of(old(self).spec_closure()),
                        ),
                    )
                    &&& final(vm).stack_view() == old(vm).stack_view()
                    &&& final(vm).same_heaps(*old(vm))
                    &&& final(self).handlers_view() == old(self).handlers_view()
                    &&& final(self).spec_ip() == old(self).spec_ip()
                },
            },
    {
        let mut progress: i32 = 2;
        match result {
            Ok(returned) => {
                self.truncate(vm, slot);
                let value = match returned {
                    Some(v) => v,
                    None => Value::Nil,
                };
                self.push(vm, value);
            },
            Err((value, backtrace)) => match self.take_handler() {
                Some(handler) => {
                    self.truncate(vm, handler.slots);
                    self.push(vm, value);
                    progress = (handler.ip - self.get_ip()) as i32;
                },
                None => {
                    let mut backtrace = backtrace;
                    let ghost before = backtrace.entries();
                    backtrace.push(BacktraceFrame::new(self, vm));
                    proof {
                        assert(backtrace.entries() =~= before.push(
                            (
                                old(vm).tokens_of(old(self).spec_closure())[old(self).spec_ip() as int],
                                old(vm).name_of(old(self).spec_closure()),
                            ),
                        ));
                    }
                    return Err((value, backtrace));
                },
            },
        }
        self.move_ip(progress);
        Ok(())
    }
}


/// The captured variable described by pair `k` after a `Closure`
/// instruction at `ip`: whether it is a local of the running frame, and its
/// index.
pub open spec fn capture(code: Seq<u8>, ip: usize, k: int) -> (bool, usize) {
    (code[ip + 2 + 2 * k] != 0, code[ip + 3 + 2 * k] as usize)
}

/// Some cell listed in `open` is open at stack index `i`.
pub open spec fn open_at(cells: Seq<UpValueView>, open: Seq<usize>, i: usize) -> bool {
    exists|m: int| 0 <= m < open.len() && cells[open[m] as int] == UpValueView::Open(i)
}

impl Frame {
    /// `Closure`: the function on top of the stack becomes a closure over
    /// the variables that the next byte counts and the pairs after it
    /// describe. A local of the running frame is captured by the first cell
    /// open at its slot, or by a new open cell if there is none; any other
    /// is a cell of the enclosing closure. The closure replaces the
    /// function on the stack.
    pub fn op_closure(&mut self, vm: &mut Vm)
        requires
            old(self).runs(old(vm)),
            old(self).spec_ip() + 2 + 2 * old(self).operand(old(vm), 1) <= i32::MAX,
            old(self).spec_ip() + 1 + 2 * old(self).operand(old(vm), 1) < old(self).code(old(vm)).len(),
            old(vm).stack_view().len() > 0,
            old(vm).open_cells_below(old(vm).stack_view().len() - 1),
            old(vm).stack_view().last() matches ValueView::Object(ObjectView::Function(f)) && f
                < old(vm).function_count(),
            forall|k: int|
                0 <= k < old(self).operand(old(vm), 1) ==> {
                    let (local, i) = #[trigger] capture(old(self).code(old(vm)), old(self).spec_ip(), k);
                    &&& local ==> old(self).spec_slots() + i < old(vm).stack_view().len() - 1
                    &&& !local ==> (old(self)->enclosing_up_values matches Some(e) && e
                        < old(vm).closure_count() && i < old(vm).captured_of(e).len())
                },
        ensures
            final(vm).creation_time() == old(vm).creation_time(),
            final(vm).inv(),
            ({
                let count = old(self).operand(old(vm), 1) as int;
                let c = old(vm).closure_count() as usize;
                let ids = final(vm).captured_of(c);
                let old_cells = old(vm).cells();
                let new_cells = final(vm).cells();
                &&& final(vm).stack_view() == old(vm).stack_view().drop_last().push(
                    ValueView::Object(ObjectView::Closure(c)),
                )
                &&& final(vm).closure_count() == c + 1
                &&& old(vm).stack_view().last() == ValueView::Object(ObjectView::Function(final(vm).function_of(c)))
                &&& ids.len() == count
                &&& forall|k: int|
                    0 <= k < count ==> {
                        let (local, i) = #[trigger] capture(old(self).code(old(vm)), old(self).spec_ip(), k);
                        &&& local ==> new_cells[ids[k] as int] == UpValueView::Open(
                            (old(self).spec_slots() + i) as usize,
                        ) && final(vm).open_cells().contains(ids[k])
                        &&& !local ==> ids[k] == old(vm).captured_of(old(self)->enclosing_up_values.unwrap())[i as int]
                    }
                &&& new_cells.len() >= old_cells.len()
                &&& new_cells.take(old_cells.len() as int) == old_cells
                &&& forall|id: int|
                    old_cells.len() <= id < new_cells.len() ==> (#[trigger] new_cells[id] matches UpValueView::Open(j)
                        && !open_at(old_cells, old(vm).open_cells(), j)
                        && forall|id2: int| old_cells.len() <= id2 < id ==> new_cells[id2] != new_cells[id])
                &&& final(vm).open_cells() == old(vm).open_cells() + Seq::new(
                    (new_cells.len() - old_cells.len()) as nat,
                    |m: int| (old_cells.len() + m) as usize,
                )
            }),
            forall|d: usize| d < old(vm).closure_count() ==> final(vm).function_of(d) == old(vm).function_of(d)
                && final(vm).captured_of(d) == old(vm).captured_of(d) && final(vm).code_of(d) == old(vm).code_of(d)
                && final(vm).tokens_of(d) == old(vm).tokens_of(d) && final(vm).name_of(d) == old(vm).name_of(d)
                && final(vm).path_of(d) == old(vm).path_of(d) && final(vm).constants_of(d) == old(vm).constants_of(d),
            final(vm).function_count() == old(vm).function_count(),
            final(vm).closure_count() == old(vm).closure_count() + 1,
            final(vm).globals_view() == old(vm).globals_view(),
            final(vm).lists_view() == old(vm).lists_view(),
            final(vm).objects_view() == old(vm).objects_view(),
            *final(self) == old(self).at_ip(
                (old(self).spec_ip() + 2 + 2 * old(self).operand(old(vm), 1)) as usize,
            ),
    {
        let count = self.read_byte(vm);
        let ghost code = self.code(vm);
        let ghost ip = self.spec_ip();
        let function = match self.pop(vm) {
            Value::Object(Object::Function(f)) => f,
            _ => 0,
        };
        let mut data: Vec<(bool, usize)> = Vec::new();
        for idx in 0..count
            invariant
                self.runs(vm),
                *self == *old(self),
                code == self.code(vm),
                ip == self.spec_ip(),
                count == old(self).operand(old(vm), 1),
                self.spec_ip() + 1 + 2 * count < code.len(),
                data@.len() == idx,
                forall|j: int| 0 <= j < idx ==> data@[j] == #[trigger] capture(code, ip, j),
        {
            proof {
                vm.lemma_code_len(self.spec_closure());
            }
            let offset = self.get_ip() + 2 + idx * 2;
            data.push(self.read_up_value(vm, offset));
        }
        let ghost cells0 = vm.cells();
        let ghost open0 = vm.open_cells();
        let ghost stack0 = vm.stack_view();
        let mut res: Vec<usize> = Vec::new();
        for k in 0..count
            invariant
                vm.inv(),
                self.runs(vm),
                *self == *old(self),
                vm.created_at == old(vm).created_at,
                code == self.code(vm),
                ip == self.spec_ip(),
                count == old(self).operand(old(vm), 1),
                data@.len() == count,
                forall|j: int| 0 <= j < count ==> data@[j] == #[trigger] capture(code, ip, j),
                vm.stack_view() == stack0,
                stack0 == old(vm).stack_view().drop_last(),
                vm.same_closures(*old(vm)),
                old(vm).inv(),
                vm.globals_view() == old(vm).globals_view(),
                vm.lists_view() == old(vm).lists_view(),
                vm.objects_view() == old(vm).objects_view(),
                cells0 == old(vm).cells(),
                open0 == old(vm).open_cells(),
                function < vm.function_count(),
                forall|j: int|
                    0 <= j < count ==> {
                        let (local, i) = #[trigger] capture(code, ip, j);
                        &&& local ==> self.spec_slots() + i < stack0.len()
                        &&& !local ==> (self->enclosing_up_values matches Some(e) && e
                            < vm.closure_count() && i < vm.captured_of(e).len())
                    },
                res@.len() == k,
                vm.cells().len() >= cells0.len(),
                vm.cells().take(cells0.len() as int) == cells0,
                forall|id: int|
                    cells0.len() <= id < vm.cells().len() ==> (#[trigger] vm.cells()[id] matches UpValueView::Open(j)
                        && !open_at(cells0, open0, j)
                        && forall|id2: int| cells0.len() <= id2 < id ==> vm.cells()[id2] != vm.cells()[id]),
                vm.open_cells() == open0 + Seq::new(
                    (vm.cells().len() - cells0.len()) as nat,
                    |m: int| (cells0.len() + m) as usize,
                ),
                forall|j: int|
                    0 <= j < k ==> {
                        let (local, i) = #[trigger] capture(code, ip, j);
                        &&& local ==> vm.cells()[res@[j] as int] == UpValueView::Open(
                            (self.spec_slots() + i) as usize,
                        ) && vm.open_cells().contains(res@[j]) && res@[j] < vm.cells().len()
                        &&& !local ==> res@[j] == vm.captured_of(self->enclosing_up_values.unwrap())[i as int]
                    },
        {
            let (is_local, idx) = data[k];
            assert(capture(code, ip, k as int) == (is_local, idx));
            proof {
                vm.lemma_code_len(self.spec_closure());
            }
            let ghost before = *vm;
            let ghost res0 = res@;
            if is_local {
                let slot = self.get_slots() + idx;
                match vm.get_up_value(slot) {
                    Some(up_value) => {
                        res.push(up_value);
                        proof {
                            let k0 = choose|k0: int|
                                0 <= k0 < vm.open_cells().len() && vm.open_cells()[k0] == up_value
                                    && vm.cells()[up_value as int] == UpValueView::Open(slot)
                                    && forall|j: int|
                                    0 <= j < k0 ==> vm.cells()[vm.open_cells()[j] as int]
                                        != UpValueView::Open(slot);
                            assert(vm.open_cells()[k0] == up_value);
                            assert(vm.open_cells().contains(up_value));
                            assert forall|j: int| 0 <= j < k + 1 implies {
                                let (local, i) = #[trigger] capture(code, ip, j);
                                &&& local ==> vm.cells()[res@[j] as int] == UpValueView::Open(
                                    (self.spec_slots() + i) as usize,
                                ) && vm.open_cells().contains(res@[j]) && res@[j] < vm.cells().len()
                                &&& !local ==> res@[j] == vm.captured_of(self->enclosing_up_values.unwrap())[i as int]
                            } by {
                                if j < k {
                                    assert(res@[j] == res0[j]);
                                }
                            }
                        }
                    },
                    None => {
                        let up_value = vm.append_up_value(slot);
                        res.push(up_value);
                        proof {
                            let n = (before.cells().len() - cells0.len()) as nat;
                            let added = |m: int| (cells0.len() + m) as usize;
                            assert(Seq::new(n + 1, added) =~= Seq::new(n, added).push(up_value));
                            assert(vm.open_cells() =~= open0 + Seq::new(n + 1, added));
                            assert(vm.cells().take(cells0.len() as int) =~= cells0) by {
                                assert(vm.cells().take(cells0.len() as int) =~= before.cells().take(cells0.len() as int));
                            }
                            assert(!open_at(cells0, open0, slot)) by {
                                if open_at(cells0, open0, slot) {
                                    let m = choose|m: int| 0 <= m < open0.len() && cells0[open0[m] as int] == UpValueView::Open(slot);
                                    assert(before.open_cells()[m] == open0[m]);
                                    assert(old(vm).open_up_values@[m] == open0[m]);
                                    assert(open0[m] < cells0.len());
                                    assert(before.cells()[open0[m] as int] == before.cells().take(cells0.len() as int)[open0[m] as int]);
                                }
                            }
                            assert forall|id: int|
                                cells0.len() <= id < vm.cells().len() implies (#[trigger] vm.cells()[id] matches UpValueView::Open(j)
                                    && !open_at(cells0, open0, j)
                                    && forall|id2: int| cells0.len() <= id2 < id ==> vm.cells()[id2] != vm.cells()[id]) by {
                                if id < before.cells().len() {
                                    assert(vm.cells()[id] == before.cells()[id]);
                                    assert forall|id2: int| cells0.len() <= id2 < id implies vm.cells()[id2] != vm.cells()[id] by {
                                        assert(vm.cells()[id2] == before.cells()[id2]);
                                    }
                                } else {
                                    assert forall|id2: int| cells0.len() <= id2 < id implies vm.cells()[id2] != vm.cells()[id] by {
                                        let m = id2 - cells0.len();
                                        assert(before.open_cells()[open0.len() + m] == id2 as usize);
                                        assert(before.cells()[before.open_cells()[open0.len() + m] as int] != UpValueView::Open(slot));
                                        assert(vm.cells()[id2] == before.cells()[id2]);
                                    }
                                }
                            }
                            assert forall|j: int| 0 <= j < k + 1 implies {
                                let (local, i) = #[trigger] capture(code, ip, j);
                                &&& local ==> vm.cells()[res@[j] as int] == UpValueView::Open(
                                    (self.spec_slots() + i) as usize,
                                ) && vm.open_cells().contains(res@[j]) && res@[j] < vm.cells().len()
                                &&& !local ==> res@[j] == vm.captured_of(self->enclosing_up_values.unwrap())[i as int]
                            } by {
                                if j < k {
                                    assert(res@[j] == res0[j]);
                                    let (local, i) = capture(code, ip, j);
                                    if local {
                                        assert(vm.cells()[res0[j] as int] == before.cells()[res0[j] as int]);
                                        let m = choose|m: int| 0 <= m < before.open_cells().len() && before.open_cells()[m] == res0[j];
                                        assert(vm.open_cells()[m] == res0[j]);
                                    }
                                } else {
                                    assert(vm.open_cells()[vm.open_cells().len() - 1] == up_value);
                                }
                            }
                        }
                    },
                }
            } else {
                let e = match self.get_enclosing_up_values() {
                    Some(e) => e,
                    None => 0,
                };
                res.push(vm.closures[e].up_values[idx]);
                proof {
                    assert forall|j: int| 0 <= j < k + 1 implies {
                        let (local, i) = #[trigger] capture(code, ip, j);
                        &&& local ==> vm.cells()[res@[j] as int] == UpValueView::Open(
                            (self.spec_slots() + i) as usize,
                        ) && vm.open_cells().contains(res@[j]) && res@[j] < vm.cells().len()
                        &&& !local ==> res@[j] == vm.captured_of(self->enclosing_up_values.unwrap())[i as int]
                    } by {
                        if j < k {
                            assert(res@[j] == res0[j]);
                        }
                    }
                }
            }
        }
        let ghost mid = *vm;
        assert(mid.same_closures(*old(vm)));
        let c = vm.alloc_closure(function, res);
        let ghost after_alloc = *vm;
        self.push(vm, Value::Object(Object::Closure(c)));
        proof {
            assert forall|d: usize| d < old(vm).closure_count() implies vm.function_of(d) == old(vm).function_of(d)
                && vm.captured_of(d) == old(vm).captured_of(d) && vm.code_of(d) == old(vm).code_of(d)
                && vm.tokens_of(d) == old(vm).tokens_of(d) && vm.name_of(d) == old(vm).name_of(d)
                && vm.path_of(d) == old(vm).path_of(d) && vm.constants_of(d) == old(vm).constants_of(d) by {
                assert(d < mid.closure_count());
                assert(after_alloc.function_of(d) == mid.function_of(d));
                assert(after_alloc.captured_of(d) == mid.captured_of(d));
                assert(after_alloc.code_of(d) == mid.code_of(d));
                assert(after_alloc.constants_of(d) == mid.constants_of(d));
            }
        }
        self.move_ip(2 + count as i32 * 2);
    }
}

} // verus!
