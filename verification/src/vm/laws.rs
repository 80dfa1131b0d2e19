//! What holds of a memory whatever its state: laws of relocation, of
//! collection and of the stack.

use super::cons::Cons;
use super::error::Error;
use super::model::{
    covers, identity, lemma_valid_slots, lemma_wf_with_cell, lemma_with_cell_moved, relocate,
    relocate_cons,
    MemoryView, Relocation,
};
use super::engine::{running, stepping, PrimitiveSet};
use super::instruction::{APPLY, FRAME_TAG};
use super::semantics::Call;
use super::value::Value;
use vstd::prelude::*;

verus! {

/// A relocation that carries a memory over keeps references apart: what it
/// makes of two values is equal exactly where the values are.
pub proof fn lemma_relocation_keeps_identity(
    old: MemoryView,
    r: Relocation,
    new: MemoryView,
    x: Value,
    y: Value,
)
    requires
        new.layout(),
        old.moved(r, new),
        covers(r, x),
        covers(r, y),
    ensures
        relocate(r, x) == relocate(r, y) <==> x == y,
{
    if let Value::Cons(a) = x {
        if let Value::Cons(b) = y {
            assert(old.cell_moved(r, new, a.index as int));
            assert(old.cell_moved(r, new, b.index as int));
            if relocate(r, x) == relocate(r, y) {
                assert(r[a.index as int] == r[b.index as int]);
            }
        }
    }
}

/// A collection keeps the sentinels: each is the reference to the copy of the
/// cell that it referred to, under its tag, and sentinels that differed still
/// differ.
pub proof fn lemma_collection_keeps_sentinels(
    old: MemoryView,
    x: Value,
    y: Value,
    r: Relocation,
    new: MemoryView,
)
    requires
        new.layout(),
        old.collected(x, y, r, new),
    ensures
        new.boolean(false) == relocate_cons(r, old.boolean(false)),
        new.boolean(true) == relocate_cons(r, old.boolean(true)),
        new.null == relocate_cons(r, old.null),
        new.boolean(false) == new.boolean(true) <==> old.boolean(false) == old.boolean(true),
        new.boolean(false) == new.null <==> old.boolean(false) == old.null,
        new.boolean(true) == new.null <==> old.boolean(true) == old.null,
{
    lemma_relocation_keeps_identity(old, r, new, Value::Cons(old.no), Value::Cons(old.yes));
    lemma_relocation_keeps_identity(old, r, new, Value::Cons(old.no), Value::Cons(old.null));
    lemma_relocation_keeps_identity(old, r, new, Value::Cons(old.yes), Value::Cons(old.null));
}

/// A collection keeps what the cells hold: the two slots of the copy of a live
/// cell hold what has become of the two slots of the cell.  This holds of a
/// cell that refers to itself as of any other.
pub proof fn lemma_collection_keeps_cells(
    old: MemoryView,
    x: Value,
    y: Value,
    r: Relocation,
    new: MemoryView,
    cons: Cons,
)
    requires
        new.layout(),
        old.collected(x, y, r, new),
        old.live(x, y).contains(cons.index as int),
    ensures
        new.allocated(relocate_cons(r, cons).index as int),
        new.car(relocate_cons(r, cons)) == relocate(r, old.car(cons)),
        new.cdr(relocate_cons(r, cons)) == relocate(r, old.cdr(cons)),
        old.car(cons) == Value::Cons(cons) ==> new.car(relocate_cons(r, cons)) == Value::Cons(
            relocate_cons(r, cons),
        ),
        old.cdr(cons) == Value::Cons(cons) ==> new.cdr(relocate_cons(r, cons)) == Value::Cons(
            relocate_cons(r, cons),
        ),
{
    assert(r.dom().contains(cons.index as int));
    assert(old.cell_moved(r, new, cons.index as int));
}

/// An allocation that succeeds moves the memory: some relocation carries the
/// memory before over into the memory after, the new cell is none of those
/// that it sends a cell to, and its slots hold what has become of the two
/// values.
pub proof fn lemma_allocation_moves(
    old: MemoryView,
    car: Value,
    cdr: Value,
    new: MemoryView,
    cons: Cons,
)
    requires
        old.wf(),
        old.valid(car),
        old.valid(cdr),
        old.allocation(car, cdr, new, Ok(cons)),
    ensures
        exists|r: Relocation|
            {
                &&& #[trigger] old.moved(r, new)
                &&& covers(r, car)
                &&& covers(r, cdr)
                &&& new.car(cons) == relocate(r, car)
                &&& new.cdr(cons) == relocate(r, cdr)
                &&& new.allocated(cons.index as int)
                &&& !r.contains_value(cons.index as int)
                &&& cons.tag == 0
            },
        new.wf(),
{
    reveal(MemoryView::allocation);
    if !old.full() {
        let r = identity(Set::new(|i: int| old.allocated(i)));
        lemma_with_cell_moved(old, car, cdr);
        lemma_wf_with_cell(old, car, cdr);
        assert(old.moved(r, new));
    } else {
        let (r, mid) = choose|r: Relocation, mid: MemoryView|
            {
                &&& #[trigger] old.collected(car, cdr, r, mid)
                &&& mid.wf()
                &&& covers(r, car)
                &&& covers(r, cdr)
                &&& if mid.full() {
                    Ok::<Cons, Error>(cons) == Err::<Cons, Error>(Error::OutOfMemory) && new
                        == mid
                } else {
                    Ok::<Cons, Error>(cons) == Ok::<Cons, Error>(mid.next()) && new
                        == mid.with_cell(relocate(r, car), relocate(r, cdr))
                }
            };
        assert forall|i: int| r.dom().contains(i) implies #[trigger] old.cell_moved(r, new, i) by {
            assert(old.cell_moved(r, mid, i));
        }
        lemma_relocated_valid(old, r, mid, car);
        lemma_relocated_valid(old, r, mid, cdr);
        lemma_wf_with_cell(mid, relocate(r, car), relocate(r, cdr));
        assert(old.moved(r, new));
        assert forall|i: int| r.dom().contains(i) implies r[i] != cons.index by {
            assert(old.cell_moved(r, mid, i));
        }
    }
}

/// Popping after a push that succeeded returns the pushed value, as it is
/// if it is a number and else as the reference to where its cell is now, and
/// leaves the stack that was there before the push, moved likewise.
pub proof fn lemma_pop_after_push(old: MemoryView, value: Value, new: MemoryView)
    requires
        old.wf(),
        old.valid(value),
        old.pushing(value, new, Ok(())),
    ensures
        new.top_result() is Ok,
        value is Number ==> new.top_result() == Ok::<Value, Error>(value),
        exists|r: Relocation|
            {
                &&& #[trigger] old.moved(r, new.popped())
                &&& covers(r, value)
                &&& new.top_result() == Ok::<Value, Error>(relocate(r, value))
            },
{
    reveal(MemoryView::pushing);
    let (mid, cell) = choose|mid: MemoryView, cell: Result<Cons, Error>|
        {
            &&& #[trigger] old.allocation(value, Value::Cons(old.stack), mid, cell)
            &&& match cell {
                Ok(cons) => Ok::<(), Error>(()) == Ok::<(), Error>(()) && new == mid.with_stack(
                    cons,
                ),
                Err(error) => Ok::<(), Error>(()) == Err::<(), Error>(error) && new == mid,
            }
        };
    let cons = cell->Ok_0;
    lemma_allocation_moves(old, value, Value::Cons(old.stack), mid, cons);
    let r = choose|r: Relocation|
        {
            &&& #[trigger] old.moved(r, mid)
            &&& covers(r, value)
            &&& covers(r, Value::Cons(old.stack))
            &&& mid.car(cons) == relocate(r, value)
            &&& mid.cdr(cons) == relocate(r, Value::Cons(old.stack))
            &&& mid.allocated(cons.index as int)
            &&& !r.contains_value(cons.index as int)
            &&& cons.tag == 0
        };
    assert(old.cell_moved(r, mid, old.null.index as int));
    assert(r.dom().contains(old.null.index as int) && r[old.null.index as int] == mid.null.index);
    assert(r.contains_value(mid.null.index as int));
    assert(new.stack != new.null);
    assert(new.popped() == mid);
    assert(old.moved(r, new.popped()));
}

/// A relocation that carries one memory over into another carries over what
/// popping returns and leaves: the same failure, or what has become of the
/// value, and the memories after popping are carried over likewise.
pub proof fn lemma_pop_moved(old: MemoryView, r: Relocation, new: MemoryView)
    requires
        new.layout(),
        old.moved(r, new),
    ensures
        old.popped().moved(r, new.popped()),
        new.popped().layout(),
        match old.top_result() {
            Ok(value) => covers(r, value) && new.top_result() == Ok::<Value, Error>(
                relocate(r, value),
            ),
            Err(error) => new.top_result() == Err::<Value, Error>(error),
        },
{
    lemma_relocation_keeps_identity(old, r, new, Value::Cons(old.stack), Value::Cons(old.null));
    assert(old.cell_moved(r, new, old.stack.index as int));
    assert forall|i: int| r.dom().contains(i) implies #[trigger] old.popped().cell_moved(
        r,
        new.popped(),
        i,
    ) by {
        assert(old.cell_moved(r, new, i));
    }
}

/// The numbers among the values are left as they are by a relocation.
pub open spec fn relocate_all(r: Relocation, values: Seq<Value>) -> Seq<Value> {
    Seq::new(values.len(), |i: int| relocate(r, values[i]))
}

/// A relocation that carries one memory over into another carries over what
/// popping several values returns and leaves.
pub proof fn lemma_pop_many_moved(old: MemoryView, r: Relocation, new: MemoryView, count: nat)
    requires
        new.layout(),
        old.moved(r, new),
    ensures
        old.popped_many(count).moved(r, new.popped_many(count)),
        new.popped_many(count).layout(),
        match old.top_many(count) {
            Ok(values) => new.top_many(count) == Ok::<Seq<Value>, Error>(relocate_all(r, values)),
            Err(error) => new.top_many(count) == Err::<Seq<Value>, Error>(error),
        },
    decreases count,
{
    lemma_pop_moved(old, r, new);
    if count > 0 && old.top_result() is Ok {
        lemma_pop_many_moved(old.popped(), r, new.popped(), (count - 1) as nat);
        match old.popped().top_many((count - 1) as nat) {
            Ok(values) => {
                let value = old.top_result()->Ok_0;
                assert(relocate_all(r, values).push(relocate(r, value)) =~= relocate_all(
                    r,
                    values.push(value),
                ));
            },
            Err(_) => {},
        }
    } else if count == 0 {
        assert(relocate_all(r, Seq::<Value>::empty()) =~= Seq::<Value>::empty());
    }
}

/// The memory `new` is what a run of pushes that all succeeded has made of
/// the memory `old`, the values pushed in the order of the sequence.
pub open spec fn pushed_all(old: MemoryView, values: Seq<Value>, new: MemoryView) -> bool
    decreases values.len(),
{
    if values.len() == 0 {
        new == old
    } else {
        exists|mid: MemoryView|
            {
                &&& mid.wf()
                &&& pushed_all(old, values.drop_last(), mid)
                &&& #[trigger] mid.pushing(values.last(), new, Ok(()))
            }
    }
}

/// Last in, first out: after a run of pushes of numbers that all succeeded,
/// popping as many values returns the numbers with the one pushed last popped
/// first, and leaves the stack that was there before, moved by some
/// relocation.
pub proof fn lemma_last_in_first_out(old: MemoryView, values: Seq<Value>, new: MemoryView)
    requires
        old.wf(),
        forall|i: int| 0 <= i < values.len() ==> #[trigger] values[i] is Number,
        pushed_all(old, values, new),
    ensures
        new.top_many(values.len()) == Ok::<Seq<Value>, Error>(values),
        exists|r: Relocation| #[trigger] old.moved(r, new.popped_many(values.len())),
    decreases values.len(),
{
    if values.len() == 0 {
        let r = identity(Set::new(|i: int| old.allocated(i)));
        lemma_identity_moved(old);
        assert(new == old);
        assert(values =~= Seq::<Value>::empty());
        assert(new.popped_many(values.len()) == new);
        assert(old.moved(r, new.popped_many(values.len())));
    } else {
        assert(exists|mid: MemoryView|
            {
                &&& mid.wf()
                &&& pushed_all(old, values.drop_last(), mid)
                &&& #[trigger] mid.pushing(values.last(), new, Ok(()))
            });
        let mid = choose|mid: MemoryView|
            {
                &&& mid.wf()
                &&& pushed_all(old, values.drop_last(), mid)
                &&& #[trigger] mid.pushing(values.last(), new, Ok(()))
            };
        let rest = values.drop_last();
        let count = rest.len();
        lemma_last_in_first_out(old, rest, mid);
        lemma_pop_after_push(mid, values.last(), new);
        let r = choose|r: Relocation|
            {
                &&& #[trigger] mid.moved(r, new.popped())
                &&& covers(r, values.last())
                &&& new.top_result() == Ok::<Value, Error>(relocate(r, values.last()))
            };
        lemma_pushing_layout(mid, values.last(), new);
        lemma_pop_many_moved(mid, r, new.popped(), count);
        assert(relocate_all(r, rest) =~= rest);
        assert(rest.push(values.last()) =~= values);
        let q = choose|q: Relocation| #[trigger] old.moved(q, mid.popped_many(count));
        lemma_popped_many_layout(mid, count);
        lemma_moved_twice(
            old,
            q,
            mid.popped_many(count),
            r,
            new.popped().popped_many(count),
        );
        let both = choose|both: Relocation| #[trigger]
            old.moved(both, new.popped().popped_many(count));
        assert(new.popped_many(values.len()) == new.popped().popped_many(count));
        assert(old.moved(both, new.popped_many(values.len())));
    }
}

/// What a relocation that carries a memory over makes of a value that it
/// covers is a number or refers to a cell in use.
pub proof fn lemma_relocated_valid(old: MemoryView, r: Relocation, new: MemoryView, value: Value)
    requires
        new.layout(),
        old.moved(r, new),
        covers(r, value),
    ensures
        new.valid(relocate(r, value)),
{
    if let Value::Cons(c) = value {
        assert(old.cell_moved(r, new, c.index as int));
    }
}

/// Popping leaves the layout sound.
pub proof fn lemma_popped_many_layout(memory: MemoryView, count: nat)
    requires
        memory.layout(),
    ensures
        memory.popped_many(count).layout(),
    decreases count,
{
    if count > 0 && memory.top_result() is Ok {
        lemma_popped_many_layout(memory.popped(), (count - 1) as nat);
    }
}

/// Popping allocates nothing: the slots in use, the bounds and the heap
/// stay.
pub proof fn lemma_popped_many_used(memory: MemoryView, count: nat)
    ensures
        memory.popped_many(count).used == memory.used,
        memory.popped_many(count).size == memory.size,
        memory.popped_many(count).start == memory.start,
        memory.popped_many(count).heap == memory.heap,
    decreases count,
{
    if count > 0 && memory.top_result() is Ok {
        lemma_popped_many_used(memory.popped(), (count - 1) as nat);
    }
}

/// The identity on the cells in use carries a well-formed memory over into
/// itself.
pub proof fn lemma_identity_moved(memory: MemoryView)
    requires
        memory.wf(),
    ensures
        memory.moved(identity(Set::new(|i: int| memory.allocated(i))), memory),
{
    let r = identity(Set::new(|i: int| memory.allocated(i)));
    assert forall|i: int| r.dom().contains(i) implies #[trigger] memory.cell_moved(r, memory, i) by {
        lemma_valid_slots(memory, i);
    }
}

/// A push leaves the layout sound.
pub proof fn lemma_pushing_layout(old: MemoryView, value: Value, new: MemoryView)
    requires
        old.wf(),
        old.valid(value),
        old.pushing(value, new, Ok(())),
    ensures
        new.layout(),
        new.popped().layout(),
{
    reveal(MemoryView::pushing);
    let (mid, cell) = choose|mid: MemoryView, cell: Result<Cons, Error>|
        {
            &&& #[trigger] old.allocation(value, Value::Cons(old.stack), mid, cell)
            &&& match cell {
                Ok(cons) => Ok::<(), Error>(()) == Ok::<(), Error>(()) && new == mid.with_stack(
                    cons,
                ),
                Err(error) => Ok::<(), Error>(()) == Err::<(), Error>(error) && new == mid,
            }
        };
    reveal(MemoryView::allocation);
    if old.full() {
        let (r, gc) = choose|r: Relocation, gc: MemoryView|
            {
                &&& #[trigger] old.collected(value, Value::Cons(old.stack), r, gc)
                &&& gc.wf()
                &&& covers(r, value)
                &&& covers(r, Value::Cons(old.stack))
                &&& if gc.full() {
                    cell == Err::<Cons, Error>(Error::OutOfMemory) && mid == gc
                } else {
                    cell == Ok::<Cons, Error>(gc.next()) && mid == gc.with_cell(
                        relocate(r, value),
                        relocate(r, Value::Cons(old.stack)),
                    )
                }
            };
    }
}

/// The relocation that two relocations make one after the other.
pub open spec fn composed(q: Relocation, r: Relocation) -> Relocation {
    Map::new(|i: int| q.dom().contains(i) && r.dom().contains(q[i]), |i: int| r[q[i]])
}

/// Two relocations in a row are one: where the first carries a memory over
/// into a second and the next carries that over into a third, the two
/// together carry the first over into the third.
pub proof fn lemma_moved_composed(
    first: MemoryView,
    q: Relocation,
    second: MemoryView,
    r: Relocation,
    third: MemoryView,
)
    requires
        second.layout(),
        third.layout(),
        first.moved(q, second),
        second.moved(r, third),
    ensures
        first.moved(composed(q, r), third),
        forall|value: Value|
            covers(q, value) && covers(r, relocate(q, value)) ==> covers(composed(q, r), value)
                && #[trigger] relocate(composed(q, r), value) == relocate(r, relocate(q, value)),
{
    let both = composed(q, r);
    assert forall|i: int| both.dom().contains(i) implies #[trigger] first.cell_moved(
        both,
        third,
        i,
    ) by {
        assert(first.cell_moved(q, second, i));
        assert(second.cell_moved(r, third, q[i]));
        if let Value::Cons(c) = first.heap[i] {
            assert(first.cell_moved(q, second, c.index as int));
        }
        if let Value::Cons(c) = first.heap[i + 1] {
            assert(first.cell_moved(q, second, c.index as int));
        }
    }
    assert forall|i: int, j: int|
        both.dom().contains(i) && both.dom().contains(j) && #[trigger] both[i]
            == #[trigger] both[j] implies i == j by {
        assert(r[q[i]] == r[q[j]]);
        assert(q[i] == q[j]);
    }
    assert(first.cell_moved(q, second, first.code.index as int));
    assert(first.cell_moved(q, second, first.stack.index as int));
    assert(first.cell_moved(q, second, first.no.index as int));
    assert(first.cell_moved(q, second, first.yes.index as int));
    assert(first.cell_moved(q, second, first.null.index as int));
    assert(first.moved(both, third));
    assert forall|value: Value|
        covers(q, value) && covers(r, relocate(q, value)) implies covers(both, value)
        && #[trigger] relocate(both, value) == relocate(r, relocate(q, value)) by {
        if let Value::Cons(c) = value {
            assert(first.cell_moved(q, second, c.index as int));
        }
    }
}

/// Two relocations in a row are one.
pub proof fn lemma_moved_twice(
    first: MemoryView,
    q: Relocation,
    second: MemoryView,
    r: Relocation,
    third: MemoryView,
)
    requires
        second.layout(),
        third.layout(),
        first.moved(q, second),
        second.moved(r, third),
    ensures
        exists|both: Relocation| #[trigger] first.moved(both, third),
{
    lemma_moved_composed(first, q, second, r, third);
}

/// The memories of a run of pushes that all succeeded: each value is a
/// number or refers to a cell in use when it is pushed, and each memory is
/// what the push of its value has made of the one before.
pub open spec fn pushes(trace: Seq<MemoryView>, values: Seq<Value>) -> bool {
    &&& trace.len() == values.len() + 1
    &&& forall|i: int| 0 <= i < values.len() ==> #[trigger] pushed_at(trace, values, i)
}

/// The memory at a place is well formed, the value at the place is a number
/// or refers to a cell in use of it, and the memory at the next place is what
/// the push of the value has made of it.
pub open spec fn pushed_at(trace: Seq<MemoryView>, values: Seq<Value>, i: int) -> bool {
    &&& trace[i].wf()
    &&& trace[i].valid(values[i])
    &&& trace[i].pushing(values[i], trace[i + 1], Ok(()))
}

/// The value pushed at place `i` comes out of the memory at place `j`
/// behind the values that were pushed after it: some relocation carries the
/// memory before its push over into the memory after it was popped, and what
/// is popped is what that relocation makes of it.
pub open spec fn comes_out(trace: Seq<MemoryView>, values: Seq<Value>, i: int, j: int) -> bool {
    exists|r: Relocation|
        {
            &&& #[trigger] trace[i].moved(r, trace[j].popped_many((j - i) as nat))
            &&& covers(r, values[i])
            &&& trace[j].popped_many((j - i - 1) as nat).top_result() == Ok::<Value, Error>(
                relocate(r, values[i]),
            )
        }
}

/// Last in, first out, for numbers and references alike: after a run of
/// pushes that all succeeded, each value comes out behind the values that were
/// pushed after it, as it is if it is a number and else as the reference to
/// where its cell is now, under its tag; and the memory that is left then is
/// the memory before its push, moved likewise.
pub proof fn lemma_pushed_comes_out(trace: Seq<MemoryView>, values: Seq<Value>, i: int, j: int)
    requires
        pushes(trace, values),
        0 <= i < j <= values.len(),
    ensures
        comes_out(trace, values, i, j),
        trace[j].layout(),
    decreases j - i,
{
    assert(pushed_at(trace, values, j - 1));
    lemma_pushing_layout(trace[j - 1], values[j - 1], trace[j]);
    lemma_pop_after_push(trace[j - 1], values[j - 1], trace[j]);
    let last = trace[j];
    let next = last.popped();
    if j == i + 1 {
        let r = choose|r: Relocation|
            {
                &&& #[trigger] trace[i].moved(r, next)
                &&& covers(r, values[i])
                &&& last.top_result() == Ok::<Value, Error>(relocate(r, values[i]))
            };
        assert(last.popped_many(1) == next) by {
            assert(next.popped_many(0) == next);
        }
        assert(last.popped_many(0) == last);
        assert(trace[i].moved(r, last.popped_many((j - i) as nat)));
    } else {
        let before = trace[j - 1];
        let count = (j - 1 - i) as nat;
        lemma_pushed_comes_out(trace, values, i, j - 1);
        let q = choose|q: Relocation|
            {
                &&& #[trigger] trace[i].moved(q, before.popped_many(count))
                &&& covers(q, values[i])
                &&& before.popped_many((count - 1) as nat).top_result() == Ok::<Value, Error>(
                    relocate(q, values[i]),
                )
            };
        let r = choose|r: Relocation|
            {
                &&& #[trigger] before.moved(r, next)
                &&& covers(r, values[j - 1])
                &&& last.top_result() == Ok::<Value, Error>(relocate(r, values[j - 1]))
            };
        lemma_pop_many_moved(before, r, next, count);
        lemma_pop_many_moved(before, r, next, (count - 1) as nat);
        lemma_popped_many_layout(before, count);
        lemma_pop_moved(
            before.popped_many((count - 1) as nat),
            r,
            next.popped_many((count - 1) as nat),
        );
        lemma_moved_composed(
            trace[i],
            q,
            before.popped_many(count),
            r,
            next.popped_many(count),
        );
        assert(last.popped_many((count + 1) as nat) == next.popped_many(count));
        assert(last.popped_many(count) == next.popped_many((count - 1) as nat));
        let both = composed(q, r);
        assert(relocate(both, values[i]) == relocate(r, relocate(q, values[i])));
        assert(trace[i].moved(both, last.popped_many((j - i) as nat)));
    }
}

/// The cell down a list of a well-formed memory is in use.
pub proof fn lemma_tail_allocated(memory: MemoryView, list: Cons, index: nat)
    requires
        memory.wf(),
        memory.allocated(list.index as int),
    ensures
        memory.tail(list, index) matches Some(cell) ==> memory.allocated(cell.index as int),
    decreases index,
{
    if index > 0 {
        lemma_valid_slots(memory, list.index as int);
        if let Value::Cons(next) = memory.cdr(list) {
            lemma_tail_allocated(memory, next, (index - 1) as nat);
        }
    }
}

/// The frame on a list of a well-formed memory is in use.
pub proof fn lemma_frame_allocated(memory: MemoryView, list: Cons, limit: nat)
    requires
        memory.wf(),
        memory.allocated(list.index as int),
    ensures
        memory.frame(list, limit) matches Ok(frame) ==> memory.allocated(frame.index as int),
    decreases limit,
{
    lemma_valid_slots(memory, list.index as int);
    if let Value::Cons(next) = memory.cdr(list) {
        if next.tag != FRAME_TAG && limit > 0 {
            lemma_frame_allocated(memory, next, (limit - 1) as nat);
        }
    }
}

/// The second slot of a cell carries the frame tag.
pub open spec fn framed(memory: MemoryView, cell: int) -> bool {
    match memory.heap[cell + 1] {
        Value::Cons(next) => next.tag == FRAME_TAG,
        Value::Number(_) => false,
    }
}

/// The frame on a list is a cell whose second slot carries the frame tag.
pub proof fn lemma_frame_framed(memory: MemoryView, list: Cons, limit: nat)
    ensures
        memory.frame(list, limit) matches Ok(frame) ==> framed(memory, frame.index as int),
    decreases limit,
{
    if let Value::Cons(next) = memory.cdr(list) {
        if next.tag != FRAME_TAG && limit > 0 {
            lemma_frame_framed(memory, next, (limit - 1) as nat);
        }
    }
}

/// Tail calls take no space: a tail call of a procedure allocates no cell
/// and makes no frame.  Every cell whose second slot carries the frame tag
/// after the call carried it before, so that the frames are never more after
/// a tail call than before it, however many tail calls follow one another.
/// The arguments are followed by the frame that was on the stack before the
/// call, which keeps the instruction that called and the stack to return
/// with, and whose second slot now refers to the environment of the procedure
/// under the frame tag.
pub proof fn lemma_tail_call_keeps_frame(memory: MemoryView, procedure: Cons, call: Call, frame: Cons)
    requires
        memory.wf(),
        memory.is_tail(),
        memory.allocated(procedure.index as int),
        memory.call(procedure) == Ok::<Call, Error>(call),
        memory.frame(memory.stack, (memory.used / 2) as nat) == Ok::<Cons, Error>(frame),
    ensures
        memory.call_step(procedure).1 == Ok::<bool, Error>(false),
        memory.call_step(procedure).0.used == memory.used,
        memory.call_step(procedure).0.start == memory.start,
        forall|cell: int|
            memory.allocated(cell) && #[trigger] framed(memory.call_step(procedure).0, cell)
                ==> framed(memory, cell),
        memory.call_step(procedure).0.car(frame) == memory.car(frame),
        memory.call_step(procedure).0.cdr(frame) == Value::Cons(
            call.environment.with_tag(FRAME_TAG),
        ),
        call.last.index != frame.index ==> memory.call_step(procedure).0.cdr(call.last)
            == Value::Cons(frame.with_tag(0)),
        memory.call_step(procedure).0.code == call.body,
{
    lemma_tail_allocated(memory, memory.stack, call.count as nat);
    lemma_frame_allocated(memory, memory.stack, (memory.used / 2) as nat);
    lemma_frame_framed(memory, memory.stack, (memory.used / 2) as nat);
    let new = memory.call_step(procedure).0;
    assert forall|cell: int| memory.allocated(cell) && #[trigger] framed(new, cell) implies framed(
        memory,
        cell,
    ) by {
        if cell != frame.index && cell != call.last.index {
            assert(new.heap[cell + 1] == memory.heap[cell + 1]);
        }
    }
}

/// An instruction calls a procedure in a tail call and goes through.
pub open spec fn tail_call(memory: MemoryView, new: MemoryView) -> bool {
    &&& memory.wf()
    &&& memory.is_tail()
    &&& memory.instruction()->Ok_0.tag == APPLY
    &&& memory.procedure() is Ok
    &&& memory.procedure()->Ok_0 is Cons
    &&& memory.step() == (new, Ok::<bool, Error>(false))
}

/// Each memory but the last is made into the next by a tail call of a
/// procedure.
pub open spec fn tail_calls(trace: Seq<MemoryView>) -> bool {
    forall|i: int| 0 <= i < trace.len() - 1 ==> tail_call(#[trigger] trace[i], trace[i + 1])
}

/// A run of tail calls takes no space, however long it is: after any number
/// of tail calls that follow one another, as many cells are in use as before
/// the first, and every cell whose second slot carries the frame tag carried
/// it before the first.
pub proof fn lemma_tail_calls_keep_frames(trace: Seq<MemoryView>, i: int)
    requires
        tail_calls(trace),
        0 <= i < trace.len(),
    ensures
        trace[i].used == trace[0].used,
        trace[i].start == trace[0].start,
        forall|cell: int|
            trace[0].allocated(cell) && #[trigger] framed(trace[i], cell) ==> framed(
                trace[0],
                cell,
            ),
    decreases i,
{
    if i > 0 {
        lemma_tail_calls_keep_frames(trace, i - 1);
        let memory = trace[i - 1];
        assert(tail_call(memory, trace[i]));
        let procedure = memory.procedure()->Ok_0->Cons_0;
        let call = memory.call(procedure)->Ok_0;
        let frame = memory.frame(memory.stack, (memory.used / 2) as nat)->Ok_0;
        assert(memory.step() == memory.call_step(procedure));
        assert(memory.allocated(procedure.index as int)) by {
            match memory.car(memory.code) {
                Value::Cons(cell) => {
                    lemma_valid_slots(memory, memory.code.index as int);
                    lemma_valid_slots(memory, cell.index as int);
                },
                Value::Number(index) => {
                    lemma_tail_allocated(memory, memory.stack, index.0 as nat);
                    lemma_valid_slots(memory, memory.operand()->Ok_0.index as int);
                },
            }
        }
        lemma_tail_call_keeps_frame(memory, procedure, call, frame);
        assert forall|cell: int| trace[0].allocated(cell) && #[trigger] framed(
            trace[i],
            cell,
        ) implies framed(trace[0], cell) by {
            assert(memory.allocated(cell));
            assert(framed(memory, cell));
        }
    }
}

/// The number of arguments is enforced: an instruction that applies a
/// procedure to a number of arguments other than the number of its parameters
/// fails, and leaves the memory and the primitives as they were.
pub proof fn lemma_arity_enforced<T: PrimitiveSet>(
    primitives: T,
    memory: MemoryView,
    procedure: Cons,
    code: Cons,
    after: T,
    new: MemoryView,
    result: Result<bool, Error>,
)
    requires
        stepping(primitives, memory, after, new, result),
        memory.instruction() is Ok,
        memory.instruction()->Ok_0.tag == APPLY,
        memory.procedure() == Ok::<Value, Error>(Value::Cons(procedure)),
        memory.car(procedure) == Value::Cons(code),
        memory.car(code) is Number,
        memory.cdr(code) is Cons,
        memory.cdr(procedure) is Cons,
        memory.stack != memory.null,
        memory.car(memory.stack) is Number,
        memory.car(memory.stack) != memory.car(code),
    ensures
        result == Err::<bool, Error>(Error::ArgumentCount),
        new == memory,
        after == primitives,
{
}

/// A return goes back to its call.  A call that is no tail call made the
/// cell of the number of arguments into a frame, and a cell of the
/// instruction that called and the stack under the arguments.  Whatever the
/// procedure made of the memory since: where the frame on its stack is that
/// frame, and the frame, that cell and the instruction that called are as the
/// call left them, the return goes on behind the instruction that called,
/// with the value on top of the stack pushed on the stack under the
/// arguments, and stores nothing but the second slot of the stack's cell.
pub proof fn lemma_return_after_call(
    memory: MemoryView,
    procedure: Cons,
    call: Call,
    next: Cons,
    later: MemoryView,
)
    requires
        memory.wf(),
        !memory.full(),
        !memory.is_tail(),
        memory.instruction() == Ok::<Cons, Error>(next),
        memory.call(procedure) == Ok::<Call, Error>(call),
        memory.code.index != memory.stack.index,
        memory.code.index != call.last.index,
        later.layout(),
        later.allocated(later.stack.index as int),
        later.stack != later.null,
        later.frame(later.stack, (later.used / 2) as nat) is Ok,
        later.frame(later.stack, (later.used / 2) as nat)->Ok_0.index == memory.stack.index,
        later.car(memory.stack) == memory.called(call).car(memory.stack),
        later.car(memory.next()) == memory.called(call).car(memory.next()),
        later.cdr(memory.next()) == memory.called(call).cdr(memory.next()),
        later.cdr(memory.code) == memory.called(call).cdr(memory.code),
    ensures
        next.tag == APPLY && memory.procedure() == Ok::<Value, Error>(Value::Cons(procedure))
            ==> memory.step() == (memory.called(call), Ok::<bool, Error>(false)),
        later.returned().1 == Ok::<bool, Error>(false),
        later.returned().0.code == next,
        later.returned().0.top_result() == Ok::<Value, Error>(later.car(later.stack)),
        later.returned().0.popped().stack == call.rest,
        later.returned().0.used == later.used,
        forall|slot: int|
            0 <= slot < later.heap.len() && slot != later.stack.index + 1
                ==> later.returned().0.heap[slot] == later.heap[slot],
{
    let made = memory.called(call);
    let frame = later.frame(later.stack, (later.used / 2) as nat)->Ok_0;
    lemma_tail_allocated(memory, memory.stack, call.count as nat);

    assert(made.car(memory.stack) == Value::Cons(memory.next()));
    assert(made.car(memory.next()) == Value::Cons(memory.code));
    assert(made.cdr(memory.next()) == Value::Cons(call.rest));
    assert(made.cdr(memory.code) == Value::Cons(next));
    assert(later.car(frame) == later.car(memory.stack));
}

/// A call and the return that belongs to it.  A procedure without
/// parameters, whose first instruction pushes a constant and whose second
/// returns, is called in a call that is no tail call, in a space with room
/// for two cells.  After the call, the push and the return the run goes on
/// behind the instruction that called; the constant is on top of the stack,
/// and under it the stack that was under the number of arguments.  The cells
/// that were in use are as they were but for the cell of the number of
/// arguments, which was the frame.
pub proof fn lemma_call_and_return(
    memory: MemoryView,
    procedure: Cons,
    call: Call,
    next: Cons,
    then: Cons,
    end: Cons,
)
    requires
        memory.wf(),
        memory.room(2),
        !memory.is_tail(),
        memory.instruction() == Ok::<Cons, Error>(next),
        next.tag == APPLY,
        memory.procedure() == Ok::<Value, Error>(Value::Cons(procedure)),
        memory.allocated(procedure.index as int),
        memory.call(procedure) == Ok::<Call, Error>(call),
        call.count == 0,
        memory.cdr(call.body) == Value::Cons(then),
        then.tag == super::instruction::CONSTANT,
        memory.cdr(then) == Value::Cons(end),
        end.index == memory.null.index,
        memory.code.index != memory.stack.index,
        call.body.index != memory.stack.index,
        then.index != memory.stack.index,
    ensures
        memory.step().1 == Ok::<bool, Error>(false),
        memory.step().0.step().1 == Ok::<bool, Error>(false),
        memory.step().0.step().0.is_tail(),
        memory.step().0.step().0.returned().1 == Ok::<bool, Error>(false),
        ({
            let new = memory.step().0.step().0.returned().0;
            &&& new.code == next
            &&& new.top_result() == Ok::<Value, Error>(memory.car(call.body))
            &&& new.popped().stack == call.rest
            &&& new.used == memory.used + 4
            &&& forall|cell: int|
                memory.allocated(cell) && cell != memory.stack.index ==> new.heap[cell]
                    == memory.heap[cell] && new.heap[cell + 1] == memory.heap[cell + 1]
        }),
{
    let made = memory.called(call);
    lemma_valid_slots(memory, procedure.index as int);
    lemma_valid_slots(memory, memory.car(procedure)->Cons_0.index as int);
    assert(memory.allocated(call.body.index as int));
    lemma_valid_slots(memory, call.body.index as int);
    assert(memory.allocated(then.index as int));
    assert(memory.step() == (made, Ok::<bool, Error>(false)));
    assert(call.last == memory.stack);
    assert(made.cdr(made.code) == Value::Cons(then));
    assert(made.car(made.code) == memory.car(call.body));
    assert(!made.full());

    let pushed = made.step().0;
    assert(made.step() == made.push_step(memory.car(call.body)));
    assert(pushed.code == then);
    assert(pushed.cdr(then) == Value::Cons(end));
    assert(pushed.stack == made.next());
    assert(pushed.cdr(pushed.stack) == Value::Cons(memory.stack.with_tag(0)));
    assert(pushed.cdr(memory.stack) == Value::Cons(call.environment.with_tag(FRAME_TAG)));
    assert(pushed.frame(memory.stack.with_tag(0), ((pushed.used / 2) - 1) as nat)
        == Ok::<Cons, Error>(memory.stack.with_tag(0)));
    assert(pushed.frame(pushed.stack, (pushed.used / 2) as nat) == Ok::<Cons, Error>(
        memory.stack.with_tag(0),
    ));
    lemma_return_after_call(memory, procedure, call, next, pushed);
}

/// An instruction that applies no primitive and finds the room that it
/// needs is a function of the memory, and so is a run through it: where the
/// instruction neither ends the run nor fails, the run goes on from what the
/// instruction made, with one instruction less to go; else the run ends with
/// what the instruction made and returned.  The instruction leaves the
/// primitives as they were.
pub proof fn lemma_run_instruction<T: PrimitiveSet>(
    primitives: T,
    memory: MemoryView,
    limit: nat,
    after: T,
    new: MemoryView,
    result: Result<bool, Error>,
)
    requires
        running(primitives, memory, limit, after, new, result),
        limit > 0,
        memory.primitive() is None,
        !(memory.needs_room() && memory.full()),
    ensures
        if memory.step().1 == Ok::<bool, Error>(false) {
            running(primitives, memory.step().0, (limit - 1) as nat, after, new, result)
        } else {
            after == primitives && new == memory.step().0 && result == memory.step().1
        },
{
}

} // verus!
