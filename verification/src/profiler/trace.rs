//! The text of a record: the type, the names of the procedures on the stack
//! and the time.
//!
//! The stack is walked from its top.  A frame holds the instruction that
//! called; its operand stands for the procedure.  A local variable has no
//! name and is written as `<local>`.  The cell of a global variable holds its
//! name, a list of the numbers of its characters under the symbol tag, which
//! are written in UTF-8, or else its number, which is written in decimal;
//! where it holds neither, the
//! walk has reached the top and ends with `<top>`.  Each name is followed by
//! a semicolon, and the walk goes on at the stack that the frame returns
//! with.

use super::record_type::RecordType;
use crate::vm::cons::Cons;
use crate::vm::instruction::{FRAME_TAG, SYMBOL_TAG};
use crate::vm::memory::Memory;
use crate::vm::model::MemoryView;
use crate::vm::value::Value;
use vstd::prelude::*;
use vstd::utf8::{encode_scalar, is_scalar};

verus! {

/// The decimal digits of a number.
pub open spec fn decimal_text(number: nat) -> Seq<u8>
    decreases number,
{
    if number < 10 {
        seq![(48 + number) as u8]
    } else {
        decimal_text(number / 10).push((48 + number % 10) as u8)
    }
}

/// The bytes of `<local>`.
pub open spec fn local_name() -> Seq<u8> {
    seq![60u8, 108u8, 111u8, 99u8, 97u8, 108u8, 62u8]
}

/// The bytes of `<top>`.
pub open spec fn top_name() -> Seq<u8> {
    seq![60u8, 116u8, 111u8, 112u8, 62u8]
}

/// The character in UTF-8 whose number a number is, or the replacement
/// character in UTF-8 where it is the number of no character.
pub open spec fn character(number: u64) -> Seq<u8> {
    if number <= 0x10FFFF && is_scalar(number as u32) {
        encode_scalar(number as u32)
    } else {
        encode_scalar(0xFFFD)
    }
}

impl MemoryView {
    /// The name that a list of the numbers of characters spells, read over
    /// at most `limit` cells.
    pub open spec fn spelled(self, list: Cons, limit: nat) -> Seq<u8>
        decreases limit,
    {
        if limit == 0 || list.index == self.null.index {
            Seq::empty()
        } else {
            match self.car(list) {
                Value::Cons(_) => Seq::empty(),
                Value::Number(number) => character(number.0) + match self.cdr(list) {
                    Value::Cons(rest) => self.spelled(rest, (limit - 1) as nat),
                    Value::Number(_) => Seq::empty(),
                },
            }
        }
    }

    /// The name of the procedure that an operand stands for, or nothing at
    /// the top.
    pub open spec fn procedure_name(self, operand: Value) -> Option<Seq<u8>> {
        match operand {
            Value::Number(_) => Some(local_name()),
            Value::Cons(cell) => match self.cdr(cell) {
                Value::Number(number) => Some(decimal_text(number.0 as nat)),
                Value::Cons(name) => if name.tag == SYMBOL_TAG {
                    Some(self.spelled(name, (self.used / 2) as nat))
                } else {
                    None
                },
            },
        }
    }

    /// The names of the procedures on a stack, walked over at most `limit`
    /// cells.
    pub open spec fn traced(self, stack: Cons, limit: nat) -> Seq<u8>
        decreases limit,
    {
        if limit == 0 || stack.index == self.null.index {
            Seq::empty()
        } else {
            match self.cdr(stack) {
                Value::Number(_) => Seq::empty(),
                Value::Cons(next) => if next.tag != FRAME_TAG {
                    self.traced(next, (limit - 1) as nat)
                } else {
                    match self.car(stack) {
                        Value::Number(_) => Seq::empty(),
                        Value::Cons(saved) => match self.car(saved) {
                            Value::Number(_) => Seq::empty(),
                            Value::Cons(caller) => match self.procedure_name(self.car(caller)) {
                                None => top_name(),
                                Some(name) => name.push(59) + match self.cdr(saved) {
                                    Value::Number(_) => Seq::empty(),
                                    Value::Cons(rest) => self.traced(rest, (limit - 1) as nat),
                                },
                            },
                        },
                    }
                },
            }
        }
    }

    /// The line of a record: the type, the names of the procedures on the
    /// stack and the time, parted by tabs.
    pub open spec fn record_line(self, record_type: RecordType, time: u64) -> Seq<u8> {
        record_type.name().push(9) + self.traced(self.stack, (self.used / 2) as nat).push(9)
            + decimal_text(time as nat).push(10)
    }
}

/// Writes the decimal digits of a number behind the bytes written so far.
pub fn write_decimal(buffer: &mut Vec<u8>, number: u64)
    ensures
        final(buffer)@ == old(buffer)@ + decimal_text(number as nat),
    decreases number,
{
    if number >= 10 {
        write_decimal(buffer, number / 10);
    }
    buffer.push((48 + number % 10) as u8);
    proof {
        if number < 10 {
            assert(buffer@ =~= old(buffer)@ + decimal_text(number as nat));
        } else {
            assert(buffer@ =~= old(buffer)@ + decimal_text(number as nat));
        }
    }
}

/// Writes the character whose number a number is in UTF-8.
fn write_character(buffer: &mut Vec<u8>, number: u64)
    ensures
        final(buffer)@ == old(buffer)@ + character(number),
{
    let scalar: u32 = if number <= 0x10FFFF && !(0xD800 <= number && number <= 0xDFFF) {
        number as u32
    } else {
        0xFFFD
    };

    if scalar <= 0x7F {
        buffer.push((scalar & 0x7F) as u8);
    } else if scalar <= 0x7FF {
        buffer.push(0xC0 | ((scalar >> 6) & 0x1F) as u8);
        buffer.push(0x80 | (scalar & 0x3F) as u8);
    } else if scalar <= 0xFFFF {
        buffer.push(0xE0 | ((scalar >> 12) & 0x0F) as u8);
        buffer.push(0x80 | ((scalar >> 6) & 0x3F) as u8);
        buffer.push(0x80 | (scalar & 0x3F) as u8);
    } else {
        buffer.push(0xF0 | ((scalar >> 18) & 0x7) as u8);
        buffer.push(0x80 | ((scalar >> 12) & 0x3F) as u8);
        buffer.push(0x80 | ((scalar >> 6) & 0x3F) as u8);
        buffer.push(0x80 | (scalar & 0x3F) as u8);
    }
    assert(buffer@ =~= old(buffer)@ + encode_scalar(scalar));
}

/// Writes the name that a list of the numbers of characters spells.
fn write_spelled(buffer: &mut Vec<u8>, memory: &Memory, list: Cons)
    requires
        memory@.wf(),
        memory@.allocated(list.index as int),
    ensures
        final(buffer)@ == old(buffer)@ + memory@.spelled(list, (memory@.used / 2) as nat),
{
    let mut current = list;
    let mut limit = memory.allocation_index() / 2;

    assert(buffer@ + memory@.spelled(current, limit as nat) =~= old(buffer)@ + memory@.spelled(
        list,
        (memory@.used / 2) as nat,
    ));
    loop
        invariant_except_break
            buffer@ + memory@.spelled(current, limit as nat) == old(buffer)@ + memory@.spelled(
                list,
                (memory@.used / 2) as nat,
            ),
        invariant
            memory@.wf(),
            memory@.allocated(current.index as int),
        ensures
            buffer@ == old(buffer)@ + memory@.spelled(list, (memory@.used / 2) as nat),
        decreases limit,
    {
        let ghost before = buffer@;
        let ghost rest = memory@.spelled(current, limit as nat);

        if limit == 0 || current.index() == memory.null().index() {
            assert(before + rest =~= before);
            break;
        }
        match memory.car(current) {
            Value::Cons(_) => {
                assert(before + rest =~= before);
                break;
            },
            Value::Number(number) => {
                let code = number.to_u64();

                write_character(buffer, code);
                match memory.cdr(current) {
                    Value::Cons(next) => {
                        limit = limit - 1;
                        current = next;
                        assert(buffer@ + memory@.spelled(current, limit as nat) =~= before + rest);
                    },
                    Value::Number(_) => {
                        assert(buffer@ =~= before + rest);
                        break;
                    },
                }
            },
        }
    }
}

/// Writes the bytes of `<local>`.
fn write_local(buffer: &mut Vec<u8>)
    ensures
        final(buffer)@ == old(buffer)@ + local_name(),
{
    buffer.push(60);
    buffer.push(108);
    buffer.push(111);
    buffer.push(99);
    buffer.push(97);
    buffer.push(108);
    buffer.push(62);
    assert(buffer@ =~= old(buffer)@ + local_name());
}

/// Writes the bytes of `<top>`.
fn write_top(buffer: &mut Vec<u8>)
    ensures
        final(buffer)@ == old(buffer)@ + top_name(),
{
    buffer.push(60);
    buffer.push(116);
    buffer.push(111);
    buffer.push(112);
    buffer.push(62);
    assert(buffer@ =~= old(buffer)@ + top_name());
}

/// Writes the name of the procedure that an operand stands for, and tells
/// whether it has one.
fn write_name(buffer: &mut Vec<u8>, memory: &Memory, operand: Value) -> (named: bool)
    requires
        memory@.wf(),
        memory@.valid(operand),
    ensures
        match memory@.procedure_name(operand) {
            Some(name) => named && final(buffer)@ == old(buffer)@ + name,
            None => !named && final(buffer)@ == old(buffer)@,
        },
{
    match operand {
        Value::Number(_) => {
            write_local(buffer);
            true
        },
        Value::Cons(cell) => match memory.cdr(cell) {
            Value::Number(number) => {
                write_decimal(buffer, number.to_u64());
                true
            },
            Value::Cons(name) => {
                if name.tag() == SYMBOL_TAG {
                    write_spelled(buffer, memory, name);
                    true
                } else {
                    false
                }
            },
        },
    }
}

/// Writes the names of the procedures on the stack.
pub fn write_trace(buffer: &mut Vec<u8>, memory: &Memory)
    requires
        memory@.wf(),
    ensures
        final(buffer)@ == old(buffer)@ + memory@.traced(
            memory@.stack,
            (memory@.used / 2) as nat,
        ),
{
    let mut current = memory.stack();
    let mut limit = memory.allocation_index() / 2;
    let ghost all = memory@.traced(memory@.stack, (memory@.used / 2) as nat);

    assert(buffer@ + memory@.traced(current, limit as nat) =~= old(buffer)@ + all);
    loop
        invariant_except_break
            buffer@ + memory@.traced(current, limit as nat) == old(buffer)@ + all,
        invariant
            memory@.wf(),
            memory@.allocated(current.index as int),
        ensures
            buffer@ == old(buffer)@ + all,
        decreases limit,
    {
        let ghost before = buffer@;
        let ghost rest = memory@.traced(current, limit as nat);

        if limit == 0 || current.index() == memory.null().index() {
            assert(before + rest =~= before);
            break;
        }
        let next = match memory.cdr(current) {
            Value::Cons(next) => next,
            Value::Number(_) => {
                assert(before + rest =~= before);
                break;
            },
        };
        if next.tag() != FRAME_TAG {
            current = next;
            limit = limit - 1;
            continue;
        }
        let saved = match memory.car(current) {
            Value::Cons(saved) => saved,
            Value::Number(_) => {
                assert(before + rest =~= before);
                break;
            },
        };
        let caller = match memory.car(saved) {
            Value::Cons(caller) => caller,
            Value::Number(_) => {
                assert(before + rest =~= before);
                break;
            },
        };
        let operand = memory.car(caller);

        if !write_name(buffer, memory, operand) {
            write_top(buffer);
            assert(buffer@ =~= before + rest);
            break;
        }
        buffer.push(59);
        match memory.cdr(saved) {
            Value::Cons(rest_of_stack) => {
                current = rest_of_stack;
                limit = limit - 1;
                proof {
                    let name = memory@.procedure_name(operand)->Some_0;
                    assert(buffer@ + memory@.traced(current, limit as nat) =~= before + (name.push(
                        59,
                    ) + memory@.traced(current, limit as nat)));
                }
            },
            Value::Number(_) => {
                proof {
                    let name = memory@.procedure_name(operand)->Some_0;
                    assert(buffer@ =~= before + (name.push(59) + Seq::<u8>::empty()));
                }
                break;
            },
        }
    }
}

/// Writes the line of a record.
pub fn write_record(buffer: &mut Vec<u8>, memory: &Memory, record_type: RecordType, time: u64)
    requires
        memory@.wf(),
    ensures
        final(buffer)@ == old(buffer)@ + memory@.record_line(record_type, time),
{
    record_type.write(buffer);
    buffer.push(9);
    write_trace(buffer, memory);
    buffer.push(9);
    write_decimal(buffer, time);
    buffer.push(10);
    assert(buffer@ =~= old(buffer)@ + memory@.record_line(record_type, time));
}

/// Reading the decimal digits of a number gives the number.
pub proof fn lemma_decimal_round_trip(number: nat)
    ensures
        super::text::decimal(decimal_text(number)) == Some(number),
        decimal_text(number).len() >= 1,
    decreases number,
{
    let text = decimal_text(number);
    if number >= 10 {
        lemma_decimal_round_trip(number / 10);
        assert(text.drop_last() =~= decimal_text(number / 10));
        assert(text.last() == (48 + number % 10) as u8);
    } else {
        assert(text.last() == (48 + number) as u8);
    }
}

} // verus!
