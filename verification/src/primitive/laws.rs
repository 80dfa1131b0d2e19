//! What holds of runs that apply the small set of primitives.

use super::small::{SmallPrimitiveSet, ADD, WRITE, WRITE_ERROR};
use crate::code::format::{decoded, encoded_program};
use crate::code::laws::lemma_round_trip;
use crate::code::{InstructionView, Operand, ProgramView};
use crate::device::Device;
use crate::vm::cons::Cons;
use crate::vm::engine::running;
use crate::vm::error::Error;
use crate::vm::instruction::{APPLY, CONSTANT, FRAME_TAG, HALT, NOP};
use crate::vm::laws::lemma_run_instruction;
use crate::vm::loading::{name_numbers, Loading};
use crate::vm::model::MemoryView;
use crate::vm::number::Number;
use crate::vm::value::Value;
use vstd::prelude::*;
use vstd::wrapping::u64_specs::wrapping_add;

verus! {

/// A primitive of the small set that uses no device and allocates nothing
/// is a function of the memory, and so is a run through the instruction that
/// applies it.  Where the primitive fails, the run ends with its error.
/// Else the instruction returns to the caller, after a tail call, or moves
/// on; where that neither ends the run nor fails, the run goes on from there
/// with one instruction less to go.  The instruction leaves the primitives as
/// they were.
pub proof fn lemma_run_primitive<D: Device>(
    primitives: SmallPrimitiveSet<D>,
    memory: MemoryView,
    primitive: u64,
    limit: nat,
    after: SmallPrimitiveSet<D>,
    new: MemoryView,
    result: Result<bool, Error>,
)
    requires
        running(primitives, memory, limit, after, new, result),
        limit > 0,
        memory.primitive() == Some(Number(primitive)),
        primitive != WRITE,
        primitive != WRITE_ERROR,
        !MemoryView::allocates(primitive),
    ensures
        match memory.operated(primitive) {
            (mid, Err(error)) => after == primitives && new == mid && result == Err::<bool, Error>(
                error,
            ),
            (mid, Ok(_)) => if mid.resumed(memory.is_tail()).1 == Ok::<bool, Error>(false) {
                running(
                    primitives,
                    mid.resumed(memory.is_tail()).0,
                    (limit - 1) as nat,
                    after,
                    new,
                    result,
                )
            } else {
                after == primitives && (new, result) == mid.resumed(memory.is_tail())
            },
        },
{
}

/// The program that adds two numbers: it pushes the one and the other, and
/// applies the primitive that adds in a tail call.
pub open spec fn sum(x: u64, y: u64) -> ProgramView {
    ProgramView {
        symbols: Seq::empty(),
        instructions: seq![
            InstructionView::Constant(x),
            InstructionView::Constant(y),
            InstructionView::Apply(Operand::Global(ADD), true),
        ],
    }
}

/// The reference to the cell that is `cells` cells behind the cells in use
/// of a memory.
spec fn behind(memory: MemoryView, cells: int) -> Cons {
    Cons { index: (memory.start + memory.used + 2 * cells) as usize, tag: 0 }
}

/// The second memory holds the program that adds two numbers behind the
/// cells of the first: the variable of the primitive, the three instructions
/// from the last to the first, and the frame that the run returns through.
/// Its program counter and its stack are at two cells, and as many cells as
/// `cells` are in use behind the cells of the first.
spec fn holds_sum(
    memory: MemoryView,
    x: u64,
    y: u64,
    new: MemoryView,
    code: Cons,
    stack: Cons,
    cells: int,
) -> bool {
    let base = memory.start + memory.used;
    &&& new.start == memory.start
    &&& new.size == memory.size
    &&& new.used == memory.used + 2 * cells
    &&& new.heap.len() == memory.heap.len()
    &&& new.null == memory.null
    &&& new.code == code
    &&& new.stack == stack
    &&& new.heap[base] == Value::Number(Number(ADD))
    &&& new.heap[base + 2] == Value::Cons(behind(memory, 0))
    &&& new.heap[base + 3] == Value::Cons(memory.null.with_tag(APPLY))
    &&& new.heap[base + 4] == Value::Number(Number(y))
    &&& new.heap[base + 5] == Value::Cons(behind(memory, 1).with_tag(CONSTANT))
    &&& new.heap[base + 6] == Value::Number(Number(x))
    &&& new.heap[base + 7] == Value::Cons(behind(memory, 2).with_tag(CONSTANT))
    &&& new.heap[base + 8] == Value::Cons(memory.null)
    &&& new.heap[base + 9] == Value::Cons(memory.code.with_tag(NOP))
    &&& new.heap[base + 10] == Value::Cons(behind(memory, 4))
    &&& new.heap[base + 11] == Value::Cons(memory.stack)
    &&& new.heap[base + 12] == Value::Cons(behind(memory, 5))
    &&& new.heap[base + 13] == Value::Cons(memory.null.with_tag(FRAME_TAG))
    &&& forall|slot: int| memory.start <= slot < base ==> new.heap[slot] == memory.heap[slot]
}

/// The start of loading a program without names.
spec fn starting(memory: MemoryView) -> Loading {
    Loading { memory, globals: Seq::empty(), symbols: name_numbers(Seq::<Seq<char>>::empty()) }
}

/// The memory with the instructions of the program that adds two numbers
/// behind its cells in use, from the last instruction to the first.
spec fn with_instructions(memory: MemoryView, x: u64, y: u64) -> MemoryView {
    memory.with_cell(Value::Number(Number(ADD)), Value::Number(Number(ADD))).with_cell(
        Value::Cons(behind(memory, 0)),
        Value::Cons(memory.null.with_tag(APPLY)),
    ).with_cell(
        Value::Number(Number(y)),
        Value::Cons(behind(memory, 1).with_tag(CONSTANT)),
    ).with_cell(Value::Number(Number(x)), Value::Cons(behind(memory, 2).with_tag(CONSTANT)))
}

/// The memory with the program that adds two numbers behind its cells in
/// use: the instructions and the frame that the run returns through.
spec fn with_sum(memory: MemoryView, x: u64, y: u64) -> MemoryView {
    with_instructions(memory, x, y).with_cell(
        Value::Cons(memory.null),
        Value::Cons(memory.code.with_tag(NOP)),
    ).with_cell(Value::Cons(behind(memory, 4)), Value::Cons(memory.stack)).with_cell(
        Value::Cons(behind(memory, 5)),
        Value::Cons(memory.null.with_tag(FRAME_TAG)),
    ).with_stack(behind(memory, 6)).with_code(behind(memory, 3))
}

/// The instructions of the program that adds two numbers are laid out from
/// the last to the first.
proof fn lemma_sum_chained(memory: MemoryView, x: u64, y: u64)
    requires
        memory.wf(),
        memory.room(7),
    ensures
        starting(memory).chain(sum(x, y).instructions, memory.code) is Ok,
        starting(memory).chain(sum(x, y).instructions, memory.code)->Ok_0.1 == behind(memory, 3),
        starting(memory).chain(sum(x, y).instructions, memory.code)->Ok_0.0.memory
            == with_instructions(memory, x, y),
{
    let instructions = sum(x, y).instructions;
    let start = starting(memory);
    let variable = start.variable(ADD);
    assert(variable is Ok);
    assert(start.operand(Operand::Global(ADD)) is Ok);
    let applies = start.instruction(instructions[2], memory.code);
    assert(applies == start.operand_cell(Operand::Global(ADD), memory.null, APPLY));
    assert(applies is Ok);
    assert(applies->Ok_0.1 == behind(memory, 1));
    let second = applies->Ok_0.0.instruction(instructions[1], applies->Ok_0.1);
    assert(second is Ok);
    assert(second->Ok_0.1 == behind(memory, 2));
    let first = second->Ok_0.0.instruction(instructions[0], second->Ok_0.1);
    assert(first is Ok);
    assert(first->Ok_0.1 == behind(memory, 3));

    let two = instructions.drop_last();
    let one = two.drop_last();
    assert(instructions.last() == instructions[2]);
    assert(two.last() == instructions[1]);
    assert(one.last() == instructions[0]);
    assert(one.drop_last().len() == 0);
    assert(first->Ok_0.0.chain(one.drop_last(), first->Ok_0.1) == first);
    assert(second->Ok_0.0.chain(one, second->Ok_0.1) == first);
    assert(applies->Ok_0.0.chain(two, applies->Ok_0.1) == first);
    assert(start.chain(instructions, memory.code) == first);
}

/// Loading the program that adds two numbers lays it out behind the cells
/// in use.
proof fn lemma_sum_loaded(memory: MemoryView, x: u64, y: u64)
    requires
        memory.wf(),
        memory.room(7),
    ensures
        memory.loaded(sum(x, y)) == Ok::<MemoryView, Error>(with_sum(memory, x, y)),
{
    lemma_sum_chained(memory, x, y);
    let chained = starting(memory).chain(sum(x, y).instructions, memory.code)->Ok_0;
    assert(sum(x, y).symbols == Seq::<Seq<char>>::empty());
    assert(memory.loaded(sum(x, y)) == chained.0.started(chained.1));
    assert(chained.0.memory.used == memory.used + 8);
}

/// The cells of the program that adds two numbers.
proof fn lemma_sum_held(memory: MemoryView, x: u64, y: u64)
    requires
        memory.wf(),
        memory.room(7),
    ensures
        holds_sum(
            memory,
            x,
            y,
            with_sum(memory, x, y),
            behind(memory, 3),
            behind(memory, 6),
            7,
        ),
{
}

/// The first instruction pushes the one number.
proof fn lemma_sum_first(memory: MemoryView, x: u64, y: u64, start: MemoryView)
    requires
        memory.wf(),
        memory.room(9),
        holds_sum(memory, x, y, start, behind(memory, 3), behind(memory, 6), 7),
    ensures
        start.primitive() is None,
        !start.full(),
        start.step().1 == Ok::<bool, Error>(false),
        holds_sum(
            memory,
            x,
            y,
            start.step().0,
            behind(memory, 2).with_tag(CONSTANT),
            behind(memory, 7),
            8,
        ),
        start.step().0.car(behind(memory, 7)) == Value::Number(Number(x)),
        start.step().0.cdr(behind(memory, 7)) == Value::Cons(behind(memory, 6)),
{
    assert(start.step() == start.push_step(Value::Number(Number(x))));
}

/// The second instruction pushes the other number.
proof fn lemma_sum_second(memory: MemoryView, x: u64, y: u64, one: MemoryView)
    requires
        memory.wf(),
        memory.room(9),
        holds_sum(memory, x, y, one, behind(memory, 2).with_tag(CONSTANT), behind(memory, 7), 8),
        one.car(behind(memory, 7)) == Value::Number(Number(x)),
        one.cdr(behind(memory, 7)) == Value::Cons(behind(memory, 6)),
    ensures
        one.primitive() is None,
        !one.full(),
        one.step().1 == Ok::<bool, Error>(false),
        holds_sum(
            memory,
            x,
            y,
            one.step().0,
            behind(memory, 1).with_tag(CONSTANT),
            behind(memory, 8),
            9,
        ),
        one.step().0.car(behind(memory, 7)) == Value::Number(Number(x)),
        one.step().0.cdr(behind(memory, 7)) == Value::Cons(behind(memory, 6)),
        one.step().0.car(behind(memory, 8)) == Value::Number(Number(y)),
        one.step().0.cdr(behind(memory, 8)) == Value::Cons(behind(memory, 7)),
{
    assert(one.step() == one.push_step(Value::Number(Number(y))));
}

/// The third instruction adds the numbers and returns behind the
/// instruction that the program counter was at before the program was
/// loaded.
proof fn lemma_sum_third(memory: MemoryView, x: u64, y: u64, two: MemoryView)
    requires
        memory.wf(),
        memory.room(9),
        holds_sum(memory, x, y, two, behind(memory, 1).with_tag(CONSTANT), behind(memory, 8), 9),
        two.car(behind(memory, 7)) == Value::Number(Number(x)),
        two.cdr(behind(memory, 7)) == Value::Cons(behind(memory, 6)),
        two.car(behind(memory, 8)) == Value::Number(Number(y)),
        two.cdr(behind(memory, 8)) == Value::Cons(behind(memory, 7)),
    ensures
        two.primitive() == Some(Number(ADD)),
        two.is_tail(),
        two.operated(ADD).1 is Ok,
        two.operated(ADD).0.returned().1 == Ok::<bool, Error>(false),
        ({
            let back = two.operated(ADD).0.returned().0;
            &&& back.code == memory.code.with_tag(NOP)
            &&& back.cdr(back.code) == memory.cdr(memory.code)
            &&& back.top_result() == Ok::<Value, Error>(
                Value::Number(Number(wrapping_add(x, y))),
            )
            &&& back.popped().stack == memory.stack
        }),
{
    let added = two.operated(ADD).0;
    assert(two.operated(ADD) == two.operated_binary(ADD));
    assert(two.top_result() == Ok::<Value, Error>(Value::Number(Number(y))));
    assert(two.popped().stack == behind(memory, 7));
    assert(two.popped().top_value() == Ok::<Value, Error>(Value::Number(Number(x))));
    assert(added.stack == behind(memory, 7));
    assert(added.car(added.stack) == Value::Number(Number(wrapping_add(x, y))));
    assert(added.frame(behind(memory, 6), (added.used / 2 - 1) as nat) == Ok::<Cons, Error>(
        behind(memory, 6),
    ));
    assert(added.frame(added.stack, (added.used / 2) as nat) == Ok::<Cons, Error>(
        behind(memory, 6),
    ));
}

/// The sum of two constants.  The program that adds two numbers can be
/// written, and its bytes decode to it.  It fits into a memory with room for
/// seven cells.  Where the program counter was at an instruction that ends a
/// run and the space has room for two cells more, a run of four instructions
/// or more through the program ends: it returns that it ended, the sum of the
/// two numbers is on top of the stack, and under it is the stack as it was.
pub proof fn lemma_sum_of_constants<D: Device>(
    primitives: SmallPrimitiveSet<D>,
    memory: MemoryView,
    x: u64,
    y: u64,
    limit: nat,
    after: SmallPrimitiveSet<D>,
    new: MemoryView,
    result: Result<bool, Error>,
)
    requires
        memory.wf(),
        memory.room(9),
        memory.instruction() is Ok,
        memory.instruction()->Ok_0.tag == HALT,
        limit >= 4,
        memory.loaded(sum(x, y)) is Ok ==> running(
            primitives,
            memory.loaded(sum(x, y))->Ok_0,
            limit,
            after,
            new,
            result,
        ),
    ensures
        decoded(encoded_program(sum(x, y))) == Ok::<ProgramView, crate::code::Error>(sum(x, y)),
        memory.loaded(sum(x, y)) is Ok,
        result == Ok::<bool, Error>(true),
        after == primitives,
        new.top_result() == Ok::<Value, Error>(Value::Number(Number(wrapping_add(x, y)))),
        new.popped().stack == memory.stack,
{
    let instructions = sum(x, y).instructions;
    assert(crate::code::format::valid_instructions(instructions)) by {
        let two = instructions.drop_last();
        let one = two.drop_last();
        assert(one.drop_last().len() == 0);
        assert(crate::code::format::valid_instructions(one.drop_last()));
        assert(crate::code::format::valid(one.last()));
        assert(crate::code::format::valid_instructions(one));
        assert(crate::code::format::valid(two.last()));
        assert(crate::code::format::valid_instructions(two));
        assert(crate::code::format::valid(instructions.last()));
    }
    assert(crate::code::format::valid_program(sum(x, y)));
    lemma_round_trip(sum(x, y));
    lemma_sum_loaded(memory, x, y);
    lemma_sum_held(memory, x, y);

    let start = memory.loaded(sum(x, y))->Ok_0;
    lemma_sum_first(memory, x, y, start);
    lemma_run_instruction(primitives, start, limit, after, new, result);
    let one = start.step().0;
    lemma_sum_second(memory, x, y, one);
    lemma_run_instruction(primitives, one, (limit - 1) as nat, after, new, result);
    let two = one.step().0;
    lemma_sum_third(memory, x, y, two);
    lemma_run_primitive(primitives, two, ADD, (limit - 2) as nat, after, new, result);
    let back = two.operated(ADD).0.returned().0;
    lemma_run_instruction(primitives, back, (limit - 3) as nat, after, new, result);
}

} // verus!
