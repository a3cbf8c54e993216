use vstd::prelude::*;

use crate::value::{ObjectView, UpValueView, ValueView};
use crate::vm::ops::{built_object, get_outcome, index_of_key, indexable, set_outcome, Place, SIGN_BIT};
use crate::vm::{after_closing, lists, natives_view, spec_absolute_index, stays_open, Vm};

verus! {

/// What `SetItem` stores is what `Get` then reads at the same place: given
/// the heaps before a successful store of `value` into `obj[key]` and the
/// heaps after it (as `op_set_item` leaves them), `Get` of `obj[key]` gives
/// `value`.
pub proof fn law_get_after_set(
    before: Vm,
    after: Vm,
    obj: ValueView,
    key: ValueView,
    value: ValueView,
)
    requires
        indexable(before, obj, key),
        match set_outcome(before, obj, key) {
            Ok(Place::Property(o, k)) => {
                &&& after.objects_view() == before.objects_view().update(
                    o as int,
                    before.objects_view()[o as int].insert(k, value),
                )
                &&& after.lists_view() == before.lists_view()
            },
            Ok(Place::Item(l, j)) => {
                &&& after.lists_view() == before.lists_view().update(
                    l as int,
                    before.lists_view()[l as int].update(j as int, value),
                )
                &&& after.objects_view() == before.objects_view()
            },
            Err(_) => false,
        },
    ensures
        get_outcome(after, obj, key) == Ok::<ValueView, Seq<char>>(value),
{
    match set_outcome(before, obj, key) {
        Ok(Place::Item(l, j)) => {
            let i = index_of_key(key)->Some_0;
            assert(spec_absolute_index(i, before.lists_view()[l as int].len() as usize) == Some(j));
            assert(after.lists_view()[l as int].len() == before.lists_view()[l as int].len());
        },
        _ => {},
    }
}

/// Negating a number twice gives the number back, and negating changes it.
pub proof fn law_negate_twice(n: u64)
    ensures
        (n ^ SIGN_BIT) ^ SIGN_BIT == n,
        n ^ SIGN_BIT != n,
{
    assert((n ^ 0x8000_0000_0000_0000u64) ^ 0x8000_0000_0000_0000u64 == n) by (bit_vector);
    assert(n ^ 0x8000_0000_0000_0000u64 != n) by (bit_vector);
}

/// Once `DefineGlobal` has bound `name` to `value` (as `op_define_global`
/// leaves the globals), the name is defined, so `GetGlobal` reads `value`
/// and a second `DefineGlobal` of it is refused.
pub proof fn law_get_after_define(before: Vm, after: Vm, name: Seq<char>, value: ValueView)
    requires
        after.globals_view() == before.globals_view().insert(name, value),
    ensures
        after.globals_view().contains_key(name),
        after.globals_view()[name] == value,
{
}

/// The object that `BuildObject` makes has a property for each name given,
/// and nothing else; where a name is given more than once, the pair lowest
/// on the stack (the last one taken) gives its value.
pub proof fn law_object_lowest_pair_wins(names: Seq<String>, stack: Seq<ValueView>, k: nat, j: int)
    requires
        0 <= j < k,
        k <= names.len(),
        2 * k <= stack.len(),
        forall|m: int| j < m < k ==> names[m]@ != names[j]@,
    ensures
        built_object(names, stack, k).contains_key(names[j]@),
        built_object(names, stack, k)[names[j]@] == stack[stack.len() - 2 * j - 1],
        forall|key: Seq<char>|
            #[trigger] built_object(names, stack, k).contains_key(key) ==> exists|m: int|
                0 <= m < k && names[m]@ == key,
    decreases k,
{
    lemma_object_keys(names, stack, k);
    if j < k - 1 {
        law_object_lowest_pair_wins(names, stack, (k - 1) as nat, j);
    }
}

proof fn lemma_object_keys(names: Seq<String>, stack: Seq<ValueView>, k: nat)
    requires
        k <= names.len(),
    ensures
        forall|key: Seq<char>|
            #[trigger] built_object(names, stack, k).contains_key(key) ==> exists|m: int|
                0 <= m < k && names[m]@ == key,
    decreases k,
{
    if k > 0 {
        lemma_object_keys(names, stack, (k - 1) as nat);
        assert forall|key: Seq<char>| #[trigger] built_object(names, stack, k).contains_key(key) implies exists|m: int|
            0 <= m < k && names[m]@ == key by {
            if key != names[k - 1]@ {
                assert(built_object(names, stack, (k - 1) as nat).contains_key(key));
                let m = choose|m: int| 0 <= m < k - 1 && names[m]@ == key;
                assert(0 <= m < k && names[m]@ == key);
            } else {
                assert(0 <= k - 1 < k && names[k - 1]@ == key);
            }
        }
    }
}

/// A cell made for stack slot `idx` where no open cell pointed at it (as
/// `append_up_value` makes one) is the one open cell at `idx` afterwards,
/// so looking up the open cell at `idx` finds it again.
pub proof fn law_appended_cell_found(before: Vm, after: Vm, idx: usize, id: usize)
    requires
        before.inv(),
        forall|k: int|
            0 <= k < before.open_cells().len() ==> before.cells()[#[trigger] before.open_cells()[k] as int]
                != UpValueView::Open(idx),
        id == before.cells().len(),
        after.cells() == before.cells().push(UpValueView::Open(idx)),
        after.open_cells() == before.open_cells().push(id),
    ensures
        after.open_cells().last() == id && after.cells()[id as int] == UpValueView::Open(idx),
        forall|k: int|
            0 <= k < after.open_cells().len() && after.cells()[#[trigger] after.open_cells()[k] as int]
                == UpValueView::Open(idx) ==> after.open_cells()[k] == id,
{
    assert forall|k: int|
        0 <= k < after.open_cells().len() && after.cells()[#[trigger] after.open_cells()[k] as int]
            == UpValueView::Open(idx) implies after.open_cells()[k] == id by {
        if k < before.open_cells().len() {
            let old_id = before.open_cells()[k];
            assert(before.open_up_values@[k] == old_id);
            assert(old_id < before.up_values@.len());
            assert(after.cells()[old_id as int] == before.cells()[old_id as int]);
        }
    }
}

/// Closing the cells at `location` and above (as `truncate`, `CloseUpValue`,
/// a finished call and a caught throw do) gives each listed cell that was
/// open at a stack index `i` at or above `location` the value that stood at
/// index `i` before the cut, and leaves every other cell as it was; no cell
/// stays open at `location` or above.
pub proof fn law_closing_keeps_each_value(before: Vm, after: Vm, location: usize)
    requires
        before.inv(),
        after.cells().len() == before.cells().len(),
        forall|id: int|
            0 <= id < before.cells().len() ==> #[trigger] after.cells()[id] == after_closing(
                before.cells(),
                before.open_cells(),
                before.stack_view(),
                location,
                id,
            ),
        after.open_cells() == before.open_cells().filter(stays_open(before.cells(), location)),
    ensures
        forall|id: int|
            0 <= id < before.cells().len() && lists(before.open_cells(), id) && before.cells()[id] is Open
                && before.cells()[id]->Open_0 >= location ==> #[trigger] after.cells()[id]
                == UpValueView::Closed(before.stack_view()[before.cells()[id]->Open_0 as int]),
        forall|id: int|
            0 <= id < before.cells().len() && !(lists(before.open_cells(), id) && before.cells()[id] is Open
                && before.cells()[id]->Open_0 >= location) ==> #[trigger] after.cells()[id]
                == before.cells()[id],
        forall|k: int|
            0 <= k < after.open_cells().len() ==> before.cells()[#[trigger] after.open_cells()[k] as int] is Open
                && before.cells()[after.open_cells()[k] as int]->Open_0 < location,
{
    assert forall|k: int|
        0 <= k < after.open_cells().len() implies before.cells()[#[trigger] after.open_cells()[k] as int] is Open
            && before.cells()[after.open_cells()[k] as int]->Open_0 < location by {
        before.open_cells().lemma_filter_contains_rev(stays_open(before.cells(), location), after.open_cells()[k]);
        assert(after.open_cells().contains(after.open_cells()[k]));
    }
}

/// Each native is bound to its own name: the global named `names[i]` is
/// `Native(i)` (where a name comes twice, its last position wins), and no
/// other name is bound.
pub proof fn law_natives_by_position(names: Seq<String>, i: int)
    requires
        0 <= i < names.len(),
        forall|j: int| i < j < names.len() ==> names[j]@ != names[i]@,
    ensures
        natives_view(names).contains_key(names[i]@),
        natives_view(names)[names[i]@] == ValueView::Object(ObjectView::Native(i as usize)),
        forall|k: Seq<char>|
            #[trigger] natives_view(names).contains_key(k) ==> exists|j: int|
                0 <= j < names.len() && names[j]@ == k,
    decreases names.len(),
{
    lemma_native_names(names);
    if i < names.len() - 1 {
        let rest = names.drop_last();
        assert(names.last()@ != names[i]@);
        assert forall|j: int| i < j < rest.len() implies rest[j]@ != rest[i]@ by {
            assert(rest[j] == names[j]);
        }
        law_natives_by_position(rest, i);
    }
}

proof fn lemma_native_names(names: Seq<String>)
    ensures
        forall|k: Seq<char>|
            #[trigger] natives_view(names).contains_key(k) ==> exists|j: int|
                0 <= j < names.len() && names[j]@ == k,
    decreases names.len(),
{
    if names.len() > 0 {
        let rest = names.drop_last();
        lemma_native_names(rest);
        assert forall|k: Seq<char>| #[trigger] natives_view(names).contains_key(k) implies exists|j: int|
            0 <= j < names.len() && names[j]@ == k by {
            if k == names.last()@ {
                assert(names[names.len() - 1]@ == k);
            } else {
                assert(natives_view(rest).contains_key(k));
                let j = choose|j: int| 0 <= j < rest.len() && rest[j]@ == k;
                assert(names[j] == rest[j]);
            }
        }
    }
}

} // verus!
