//! How a program is laid out in a memory.
//!
//! Each instruction becomes a cell, made from the last instruction of a
//! chain to the first.  The first slot of the cell holds the operand: a
//! number as it is, the number of a local variable, the reference to the cell
//! of a global variable, the first instruction of a branch, or the reference
//! to the code of a procedure.  The second slot refers to the instruction
//! that comes next, under the tag of the opcode.  A global variable is a cell
//! that is made where the variable is met first; its first slot holds the
//! value of the variable, at first its own number, which stands for the
//! primitive of that number.  Its second slot refers to its name under the
//! symbol tag, a list of the numbers of the characters of the name, where the
//! program has a name for it, and else holds its number.

use super::cons::Cons;
use super::engine::{PrimitiveSet, Vm};
use super::error::Error;
use super::instruction::{APPLY, CONSTANT, FRAME_TAG, GET, HALT, IF, NOP, SET, SKIP, SYMBOL_TAG};
use super::memory::Memory;
use super::model::MemoryView;
use super::number::Number;
use super::strings::{lemma_with_numbers, lemma_with_numbers_keeps};
use super::value::Value;
use crate::code::instruction::{lemma_views, views};
use crate::code::program::names;
use crate::code::{Instruction, InstructionView, Operand, Program, ProgramView};
use vstd::prelude::*;
use vstd::string::StrSliceExecFns;

verus! {

/// The model of a program that is being loaded: the memory, the cells of
/// the global variables met so far, each with its number, and the names of
/// the program in bytes.
pub struct Loading {
    pub memory: MemoryView,
    pub globals: Seq<(u64, Cons)>,
    pub symbols: Seq<Seq<u64>>,
}

/// A program that is being loaded and the cell that was made last, or the
/// failure.
pub type Loaded = Result<(Loading, Cons), Error>;

/// The cell of a global variable among those met so far.
pub open spec fn global(globals: Seq<(u64, Cons)>, number: u64) -> Option<Cons>
    decreases globals.len(),
{
    if globals.len() == 0 {
        None
    } else if globals.last().0 == number {
        Some(globals.last().1)
    } else {
        global(globals.drop_last(), number)
    }
}

/// The numbers of the characters of a name.
pub open spec fn code_points(name: Seq<char>) -> Seq<u64> {
    Seq::new(name.len(), |j: int| name[j] as u64)
}

/// The names as lists of the numbers of their characters.
pub open spec fn name_numbers(symbols: Seq<Seq<char>>) -> Seq<Seq<u64>> {
    Seq::new(symbols.len(), |i: int| code_points(symbols[i]))
}

impl Loading {
    /// A cell of two values is put behind the cells in use, where there is
    /// room.
    pub open spec fn cell(self, car: Value, cdr: Value) -> Loaded {
        if self.memory.full() {
            Err(Error::OutOfMemory)
        } else {
            Ok(
                (
                    Loading { memory: self.memory.with_cell(car, cdr), ..self },
                    self.memory.next(),
                ),
            )
        }
    }

    /// A cell of a value and the reference to the next instruction under an
    /// opcode.
    pub open spec fn instruction_cell(self, car: Value, next: Cons, opcode: u8) -> Loaded {
        self.cell(car, Value::Cons(next.with_tag(opcode)))
    }

    /// The cell of a global variable that is met first, with its name where
    /// the program has one for it.
    pub open spec fn variable(self, number: u64) -> Loaded {
        if number < self.symbols.len() {
            let name = self.symbols[number as int];
            if !self.memory.room(name.len() + 1) {
                Err(Error::OutOfMemory)
            } else {
                (Loading { memory: self.memory.with_numbers(name), ..self }).cell(
                    Value::Number(Number(number)),
                    Value::Cons(self.memory.numbers_head(name).with_tag(SYMBOL_TAG)),
                )
            }
        } else {
            self.cell(Value::Number(Number(number)), Value::Number(Number(number)))
        }
    }

    /// The value that an operand is loaded as, and the cell of a global
    /// variable that is met first.
    pub open spec fn operand(self, operand: Operand) -> Result<(Loading, Value), Error> {
        match operand {
            Operand::Local(number) => Ok((self, Value::Number(Number(number)))),
            Operand::Global(number) => match global(self.globals, number) {
                Some(cell) => Ok((self, Value::Cons(cell))),
                None => match self.variable(number) {
                    Err(error) => Err(error),
                    Ok((loading, cell)) => Ok(
                        (
                            Loading { globals: loading.globals.push((number, cell)), ..loading },
                            Value::Cons(cell),
                        ),
                    ),
                },
            },
        }
    }

    /// The cell of an instruction with an operand.
    pub open spec fn operand_cell(self, operand: Operand, next: Cons, opcode: u8) -> Loaded {
        match self.operand(operand) {
            Err(error) => Err(error),
            Ok((loading, value)) => loading.instruction_cell(value, next, opcode),
        }
    }

    /// The cell of an instruction in front of the instruction `next`.  The
    /// instructions of a branch and of a body are made in front of it as
    /// well: a jump at their end goes into the instructions that follow.
    pub open spec fn instruction(self, instruction: InstructionView, next: Cons) -> Loaded
        decreases instruction,
    {
        match instruction {
            InstructionView::Constant(number) => self.instruction_cell(
                Value::Number(Number(number)),
                next,
                CONSTANT,
            ),
            InstructionView::Get(operand) => self.operand_cell(operand, next, GET),
            InstructionView::Store(operand) => self.operand_cell(operand, next, SET),
            InstructionView::Nop(number) => self.instruction_cell(
                Value::Number(Number(number)),
                next,
                NOP,
            ),
            InstructionView::Apply(operand, tail) => self.operand_cell(
                operand,
                if tail {
                    self.memory.null
                } else {
                    next
                },
                APPLY,
            ),
            InstructionView::Skip(count) => match self.memory.tail(next, count as nat) {
                None => Err(Error::IllegalInstruction),
                Some(target) => self.instruction_cell(Value::Number(Number(count)), target, SKIP),
            },
            InstructionView::Halt => self.instruction_cell(
                Value::Number(Number(0)),
                self.memory.null,
                HALT,
            ),
            InstructionView::If(then) => match self.chain(then, next) {
                Err(error) => Err(error),
                Ok((loading, branch)) => loading.instruction_cell(Value::Cons(branch), next, IF),
            },
            InstructionView::Close(arity, body) => match self.chain(body, next) {
                Err(error) => Err(error),
                Ok((loading, first)) => match loading.cell(
                    Value::Number(Number(arity)),
                    Value::Cons(first),
                ) {
                    Err(error) => Err(error),
                    Ok((loading, code)) => loading.instruction_cell(
                        Value::Cons(code),
                        next,
                        CONSTANT,
                    ),
                },
            },
        }
    }

    /// The cells of a chain of instructions in front of the instruction
    /// `next`, and the first of them.
    pub open spec fn chain(self, instructions: Seq<InstructionView>, next: Cons) -> Loaded
        decreases instructions,
    {
        if instructions.len() == 0 {
            Ok((self, next))
        } else {
            match self.instruction(instructions.last(), next) {
                Err(error) => Err(error),
                Ok((loading, cell)) => loading.chain(instructions.drop_last(), cell),
            }
        }
    }
}

impl Loading {
    /// The memory with the program at a first instruction: the stack gets a
    /// frame under which it is kept, as of a call by an instruction that does
    /// nothing in front of the instruction that the program counter was at
    /// and has the empty list for its operand, and the program counter goes to
    /// the first instruction.
    pub open spec fn started(self, first: Cons) -> Result<MemoryView, Error> {
        match self.instruction_cell(Value::Cons(self.memory.null), self.memory.code, NOP) {
            Err(error) => Err(error),
            Ok((loading, caller)) => match loading.cell(
                Value::Cons(caller),
                Value::Cons(self.memory.stack),
            ) {
                Err(error) => Err(error),
                Ok((loading, saved)) => match loading.cell(
                    Value::Cons(saved),
                    Value::Cons(self.memory.null.with_tag(FRAME_TAG)),
                ) {
                    Err(error) => Err(error),
                    Ok((loading, frame)) => Ok(loading.memory.with_stack(frame).with_code(first)),
                },
            },
        }
    }
}

impl MemoryView {
    /// What loading a program makes of the memory, or the failure.  The
    /// program ends at the instruction that the program counter was at.
    pub open spec fn loaded(self, program: ProgramView) -> Result<MemoryView, Error> {
        let loading = Loading {
            memory: self,
            globals: Seq::empty(),
            symbols: name_numbers(program.symbols),
        };
        match loading.chain(program.instructions, self.code) {
            Err(error) => Err(error),
            Ok((loading, first)) => loading.started(first),
        }
    }
}

/// The cells of the global variables are in use.
pub open spec fn globals_allocated(memory: MemoryView, globals: Seq<(u64, Cons)>) -> bool {
    forall|i: int| 0 <= i < globals.len() ==> memory.allocated(#[trigger] globals[i].1.index as int)
}

/// The second memory holds what the first holds in its cells in use, and
/// more cells: nothing was collected, and the registers stayed.
pub open spec fn grown(old: MemoryView, new: MemoryView) -> bool {
    &&& new.start == old.start
    &&& new.size == old.size
    &&& new.used >= old.used
    &&& new.heap.len() == old.heap.len()
    &&& new.code == old.code
    &&& new.stack == old.stack
    &&& new.no == old.no
    &&& new.yes == old.yes
    &&& new.null == old.null
    &&& forall|s: int| old.start <= s < old.start + old.used ==> #[trigger] new.heap[s] == old.heap[s]
}

/// The cell of a global variable among those met so far is one of them.
proof fn lemma_global(globals: Seq<(u64, Cons)>, number: u64)
    ensures
        global(globals, number) matches Some(cell) ==> exists|i: int|
            0 <= i < globals.len() && #[trigger] globals[i].1 == cell,
    decreases globals.len(),
{
    if globals.len() > 0 && globals.last().0 != number {
        lemma_global(globals.drop_last(), number);
        if let Some(cell) = global(globals.drop_last(), number) {
            let i = choose|i: int|
                0 <= i < globals.drop_last().len() && #[trigger] globals.drop_last()[i].1 == cell;
            assert(globals[i].1 == cell);
        }
    } else if globals.len() > 0 {
        assert(globals[globals.len() - 1].1 == globals.last().1);
    }
}

/// The cells of the global variables of a program as it is loaded.
pub struct Loader {
    globals: Vec<(u64, Cons)>,
}

impl Loader {
    /// Looks for the cell of a global variable.
    fn global(&self, number: u64) -> (result: Option<Cons>)
        ensures
            result == global(self.globals@, number),
    {
        let mut index = self.globals.len();

        assert(self.globals@.subrange(0, index as int) =~= self.globals@);
        while index > 0
            invariant
                index <= self.globals.len(),
                global(self.globals@.subrange(0, index as int), number) == global(
                    self.globals@,
                    number,
                ),
            decreases index,
        {
            let ghost front = self.globals@.subrange(0, index as int);

            index = index - 1;
            proof {
                assert(front.last() == self.globals@[index as int]);
                assert(front.drop_last() =~= self.globals@.subrange(0, index as int));
            }
            if self.globals[index].0 == number {
                return Some(self.globals[index].1);
            }
        }
        None
    }

    /// The model of the loader with a memory and the names of a program.
    pub closed spec fn with(&self, memory: MemoryView, symbols: Seq<Vec<u64>>) -> Loading {
        Loading { memory, globals: self.globals@, symbols: lists(symbols) }
    }

    /// Puts a cell behind the cells in use, where there is room.
    fn cell(
        &self,
        memory: &mut Memory,
        car: Value,
        cdr: Value,
        Ghost(symbols): Ghost<Seq<Vec<u64>>>,
    ) -> (result: Result<Cons, Error>)
        requires
            old(memory)@.wf(),
            old(memory)@.valid(car),
            old(memory)@.valid(cdr),
            globals_allocated(old(memory)@, self.globals@),
        ensures
            final(memory)@.wf(),
            grown(old(memory)@, final(memory)@),
            globals_allocated(final(memory)@, self.globals@),
            match self.with(old(memory)@, symbols).cell(car, cdr) {
                Ok((loading, cell)) => result == Ok::<Cons, Error>(cell) && loading == self.with(
                    final(memory)@,
                    symbols,
                ) && final(memory)@.allocated(cell.index as int),
                Err(error) => result == Err::<Cons, Error>(error) && final(memory)@ == old(memory)@,
            },
    {
        if memory.allocation_index() == memory.space_size() {
            return Err(Error::OutOfMemory);
        }
        memory.allocate(car, cdr)
    }

    /// Makes the cell of a global variable that is met first.
    fn variable(&self, memory: &mut Memory, number: u64, symbols: &Vec<Vec<u64>>) -> (result: Result<
        Cons,
        Error,
    >)
        requires
            old(memory)@.wf(),
            globals_allocated(old(memory)@, self.globals@),
        ensures
            final(memory)@.wf(),
            grown(old(memory)@, final(memory)@),
            globals_allocated(final(memory)@, self.globals@),
            match self.with(old(memory)@, symbols@).variable(number) {
                Ok((loading, cell)) => result == Ok::<Cons, Error>(cell) && loading == self.with(
                    final(memory)@,
                    symbols@,
                ) && final(memory)@.allocated(cell.index as int),
                Err(error) => result == Err::<Cons, Error>(error),
            },
    {
        let value = Value::Number(Number::new(number));

        if number < symbols.len() as u64 {
            let name = symbols[number as usize].as_slice();
            let ghost before = memory@;

            proof {
                assert(lists(symbols@)[number as int] == name@);
            }
            if name.len() >= (memory.space_size() - memory.allocation_index()) / 2 {
                return Err(Error::OutOfMemory);
            }
            proof {
                lemma_with_numbers(before, name@);
                lemma_with_numbers_keeps(before, name@);
            }
            let head = memory.build_numbers(name);

            self.cell(memory, value, Value::Cons(head.set_tag(SYMBOL_TAG)), Ghost(symbols@))
        } else {
            self.cell(memory, value, value, Ghost(symbols@))
        }
    }

    /// Returns the value that an operand is loaded as.
    fn operand(&mut self, memory: &mut Memory, operand: Operand, symbols: &Vec<Vec<u64>>) -> (result:
        Result<Value, Error>)
        requires
            old(memory)@.wf(),
            globals_allocated(old(memory)@, old(self).globals@),
        ensures
            final(memory)@.wf(),
            grown(old(memory)@, final(memory)@),
            globals_allocated(final(memory)@, final(self).globals@),
            match old(self).with(old(memory)@, symbols@).operand(operand) {
                Ok((loading, value)) => result == Ok::<Value, Error>(value) && loading == final(self).with(final(memory)@, symbols@) && final(memory)@.valid(value),
                Err(error) => result == Err::<Value, Error>(error),
            },
    {
        match operand {
            Operand::Local(number) => Ok(Value::Number(Number::new(number))),
            Operand::Global(number) => match self.global(number) {
                Some(cell) => {
                    proof {
                        lemma_global(self.globals@, number);
                    }
                    Ok(Value::Cons(cell))
                },
                None => {
                    let cell = match self.variable(memory, number, symbols) {
                        Ok(cell) => cell,
                        Err(error) => {
                            return Err(error);
                        },
                    };
                    self.globals.push((number, cell));
                    Ok(Value::Cons(cell))
                },
            },
        }
    }

    /// Makes the cell of an instruction with an operand.
    fn operand_cell(
        &mut self,
        memory: &mut Memory,
        operand: Operand,
        next: Cons,
        opcode: u8,
        symbols: &Vec<Vec<u64>>,
    ) -> (result: Result<Cons, Error>)
        requires
            old(memory)@.wf(),
            old(memory)@.allocated(next.index as int),
            globals_allocated(old(memory)@, old(self).globals@),
        ensures
            final(memory)@.wf(),
            grown(old(memory)@, final(memory)@),
            globals_allocated(final(memory)@, final(self).globals@),
            match old(self).with(old(memory)@, symbols@).operand_cell(operand, next, opcode) {
                Ok((loading, cell)) => result == Ok::<Cons, Error>(cell) && loading == final(self).with(final(memory)@, symbols@) && final(memory)@.allocated(cell.index as int),
                Err(error) => result == Err::<Cons, Error>(error),
            },
    {
        let value = match self.operand(memory, operand, symbols) {
            Ok(value) => value,
            Err(error) => {
                return Err(error);
            },
        };
        self.cell(memory, value, Value::Cons(next.set_tag(opcode)), Ghost(symbols@))
    }

    /// Makes the cell of an instruction.
    fn instruction(
        &mut self,
        memory: &mut Memory,
        instruction: &Instruction,
        next: Cons,
        symbols: &Vec<Vec<u64>>,
    ) -> (result: Result<Cons, Error>)
        requires
            old(memory)@.wf(),
            old(memory)@.allocated(next.index as int),
            globals_allocated(old(memory)@, old(self).globals@),
        ensures
            final(memory)@.wf(),
            grown(old(memory)@, final(memory)@),
            globals_allocated(final(memory)@, final(self).globals@),
            match old(self).with(old(memory)@, symbols@).instruction(instruction@, next) {
                Ok((loading, cell)) => result == Ok::<Cons, Error>(cell) && loading == final(self).with(final(memory)@, symbols@) && final(memory)@.allocated(cell.index as int),
                Err(error) => result == Err::<Cons, Error>(error),
            },
        decreases instruction,
    {
        match instruction {
            Instruction::Constant(number) => self.cell(
                memory,
                Value::Number(Number::new(*number)),
                Value::Cons(next.set_tag(CONSTANT)),
                Ghost(symbols@),
            ),
            Instruction::Get(operand) => self.operand_cell(memory, *operand, next, GET, symbols),
            Instruction::Store(operand) => self.operand_cell(memory, *operand, next, SET, symbols),
            Instruction::Nop(number) => self.cell(
                memory,
                Value::Number(Number::new(*number)),
                Value::Cons(next.set_tag(NOP)),
                Ghost(symbols@),
            ),
            Instruction::Apply(operand, tail) => {
                let next = if *tail {
                    memory.null()
                } else {
                    next
                };
                self.operand_cell(memory, *operand, next, APPLY, symbols)
            },
            Instruction::Skip(count) => {
                let target = match memory.tail(next, *count) {
                    Ok(target) => target,
                    Err(_) => {
                        return Err(Error::IllegalInstruction);
                    },
                };
                self.cell(
                    memory,
                    Value::Number(Number::new(*count)),
                    Value::Cons(target.set_tag(SKIP)),
                    Ghost(symbols@),
                )
            },
            Instruction::Halt => {
                let null = memory.null();
                self.cell(
                    memory,
                    Value::Number(Number::new(0)),
                    Value::Cons(null.set_tag(HALT)),
                    Ghost(symbols@),
                )
            },
            Instruction::If(then) => {
                let branch = match self.chain(memory, then, next, symbols) {
                    Ok(branch) => branch,
                    Err(error) => {
                        return Err(error);
                    },
                };
                self.cell(
                    memory,
                    Value::Cons(branch),
                    Value::Cons(next.set_tag(IF)),
                    Ghost(symbols@),
                )
            },
            Instruction::Close(arity, body) => {
                let first = match self.chain(memory, body, next, symbols) {
                    Ok(first) => first,
                    Err(error) => {
                        return Err(error);
                    },
                };
                let code = match self.cell(
                    memory,
                    Value::Number(Number::new(*arity)),
                    Value::Cons(first),
                    Ghost(symbols@),
                ) {
                    Ok(code) => code,
                    Err(error) => {
                        return Err(error);
                    },
                };
                self.cell(
                    memory,
                    Value::Cons(code),
                    Value::Cons(next.set_tag(CONSTANT)),
                    Ghost(symbols@),
                )
            },
        }
    }

    /// Makes the cells of a chain of instructions and returns the first.
    fn chain(
        &mut self,
        memory: &mut Memory,
        instructions: &Vec<Instruction>,
        next: Cons,
        symbols: &Vec<Vec<u64>>,
    ) -> (result: Result<Cons, Error>)
        requires
            old(memory)@.wf(),
            old(memory)@.allocated(next.index as int),
            globals_allocated(old(memory)@, old(self).globals@),
        ensures
            final(memory)@.wf(),
            grown(old(memory)@, final(memory)@),
            globals_allocated(final(memory)@, final(self).globals@),
            match old(self).with(old(memory)@, symbols@).chain(views(instructions@), next) {
                Ok((loading, cell)) => result == Ok::<Cons, Error>(cell) && loading == final(self).with(final(memory)@, symbols@) && final(memory)@.allocated(cell.index as int),
                Err(error) => result == Err::<Cons, Error>(error),
            },
        decreases instructions,
    {
        let mut index = instructions.len();
        let mut first = next;
        let ghost all = views(instructions@);

        proof {
            lemma_views(instructions@);
            assert(all.subrange(0, index as int) =~= all);
        }
        while index > 0
            invariant
                index <= instructions.len(),
                all == views(instructions@),
                all.len() == instructions.len(),
                forall|i: int| 0 <= i < instructions.len() ==> #[trigger] all[i] == instructions[i]@,
                memory@.wf(),
                memory@.allocated(first.index as int),
                grown(old(memory)@, memory@),
                globals_allocated(memory@, self.globals@),
                self.with(memory@, symbols@).chain(all.subrange(0, index as int), first) == old(self).with(old(memory)@, symbols@).chain(all, next),
            decreases index,
        {
            let ghost front = all.subrange(0, index as int);

            index = index - 1;
            proof {
                assert(front.last() == all[index as int]);
                assert(front.drop_last() =~= all.subrange(0, index as int));
            }
            first = match self.instruction(memory, &instructions[index], first, symbols) {
                Ok(cell) => cell,
                Err(error) => {
                    return Err(error);
                },
            };
        }
        proof {
            assert(all.subrange(0, 0) =~= Seq::empty());
        }
        Ok(first)
    }
}

/// The vectors of numbers as sequences of numbers.
pub open spec fn lists(items: Seq<Vec<u64>>) -> Seq<Seq<u64>> {
    Seq::new(items.len(), |i: int| items[i]@)
}

impl Loader {
    /// Puts the frame of a program on the stack and moves the program
    /// counter to its first instruction.
    fn start(
        &self,
        memory: &mut Memory,
        first: Cons,
        Ghost(symbols): Ghost<Seq<Vec<u64>>>,
    ) -> (result: Result<(), Error>)
        requires
            old(memory)@.wf(),
            old(memory)@.allocated(first.index as int),
            globals_allocated(old(memory)@, self.globals@),
        ensures
            final(memory)@.wf(),
            match self.with(old(memory)@, symbols).started(first) {
                Ok(started) => result is Ok && final(memory)@ == started,
                Err(error) => result == Err::<(), Error>(error) && grown(
                    old(memory)@,
                    final(memory)@,
                ),
            },
    {
        let end = memory.code();
        let stack = memory.stack();
        let null = memory.null();
        let caller = match self.cell(
            memory,
            Value::Cons(null),
            Value::Cons(end.set_tag(NOP)),
            Ghost(symbols),
        ) {
            Ok(caller) => caller,
            Err(error) => {
                return Err(error);
            },
        };
        let saved = match self.cell(
            memory,
            Value::Cons(caller),
            Value::Cons(stack),
            Ghost(symbols),
        ) {
            Ok(saved) => saved,
            Err(error) => {
                return Err(error);
            },
        };
        let frame = match self.cell(
            memory,
            Value::Cons(saved),
            Value::Cons(null.set_tag(FRAME_TAG)),
            Ghost(symbols),
        ) {
            Ok(frame) => frame,
            Err(error) => {
                return Err(error);
            },
        };
        memory.set_stack(frame);
        memory.set_code(first);
        Ok(())
    }
}

/// Returns the names of a program as lists of the numbers of their
/// characters.
fn symbol_numbers(symbols: &Vec<String>) -> (result: Vec<Vec<u64>>)
    ensures
        lists(result@) == name_numbers(names(symbols@)),
{
    let mut result: Vec<Vec<u64>> = Vec::new();
    let mut index: usize = 0;

    while index < symbols.len()
        invariant
            index <= symbols.len(),
            result.len() == index,
            forall|i: int| 0 <= i < index ==> #[trigger] result[i]@ == code_points(symbols[i]@),
        decreases symbols.len() - index,
    {
        let name = symbols[index].as_str();
        let length = name.unicode_len();
        let mut numbers: Vec<u64> = Vec::new();
        let mut position: usize = 0;

        while position < length
            invariant
                position <= length,
                length == name@.len(),
                numbers.len() == position,
                forall|j: int| 0 <= j < position ==> #[trigger] numbers[j] == name@[j] as u64,
            decreases length - position,
        {
            numbers.push(name.get_char(position) as u32 as u64);
            position = position + 1;
        }
        assert(numbers@ =~= code_points(name@));
        result.push(numbers);
        index = index + 1;
    }
    assert(lists(result@) =~= name_numbers(names(symbols@)));
    result
}

/// The second memory holds in its slots in use what the first holds, and no
/// more slots are in use: what was put behind them is given up, and the
/// registers stayed.
pub open spec fn kept(old: MemoryView, new: MemoryView) -> bool {
    &&& grown(old, new)
    &&& new.used == old.used
}

impl<T: PrimitiveSet> Vm<T> {
    /// Loads a program: the instructions become cells, the stack gets a
    /// frame to return from the program with, and the program counter goes to
    /// the first instruction.  Nothing is collected.  Where the program does
    /// not fit in the space, it fails, and nothing is left of it: the slots in
    /// use and the registers are as they were.
    pub fn load(&mut self, program: &Program) -> (result: Result<(), Error>)
        requires
            old(self).memory@.wf(),
        ensures
            final(self).memory@.wf(),
            final(self).primitive_set == old(self).primitive_set,
            match old(self).memory@.loaded(program@) {
                Ok(memory) => result is Ok && final(self).memory@ == memory,
                Err(error) => result == Err::<(), Error>(error) && kept(
                    old(self).memory@,
                    final(self).memory@,
                ),
            },
    {
        let mut loader = Loader { globals: Vec::new() };
        let end = self.memory.code();
        let used = self.memory.allocation_index();
        let symbols = symbol_numbers(program.symbols());
        let ghost before = self.memory@;

        let first = match loader.chain(&mut self.memory, program.instructions(), end, &symbols) {
            Ok(first) => first,
            Err(error) => {
                self.memory.release(used, Ghost(before));
                return Err(error);
            },
        };
        let ghost middle = self.memory@;
        let result = loader.start(&mut self.memory, first, Ghost(symbols@));

        if result.is_err() {
            proof {
                lemma_grown_twice(before, middle, self.memory@);
            }
            self.memory.release(used, Ghost(before));
        }
        result
    }

    /// Decodes a program from bytes and loads it.  Where the bytes are no
    /// program, the memory stays as it is; where the program does not fit,
    /// nothing is left of it.
    pub fn initialize(&mut self, codes: &[u8]) -> (result: Result<(), Error>)
        requires
            old(self).memory@.wf(),
        ensures
            final(self).memory@.wf(),
            final(self).primitive_set == old(self).primitive_set,
            match crate::code::format::decoded(codes@) {
                Err(error) => {
                    &&& result == Err::<(), Error>(Error::Code(error))
                    &&& final(self).memory@ == old(self).memory@
                },
                Ok(program) => match old(self).memory@.loaded(program) {
                    Ok(memory) => result is Ok && final(self).memory@ == memory,
                    Err(error) => result == Err::<(), Error>(error) && kept(
                        old(self).memory@,
                        final(self).memory@,
                    ),
                },
            },
    {
        match crate::code::decode(codes) {
            Ok(program) => self.load(&program),
            Err(error) => Err(Error::Code(error)),
        }
    }
}

/// A memory that has grown and grown again has grown.
pub proof fn lemma_grown_twice(first: MemoryView, second: MemoryView, third: MemoryView)
    requires
        grown(first, second),
        grown(second, third),
    ensures
        grown(first, third),
{
    assert forall|s: int| first.start <= s < first.start + first.used implies #[trigger] third.heap[s]
        == first.heap[s] by {
        assert(second.heap[s] == first.heap[s]);
        assert(third.heap[s] == second.heap[s]);
    }
}

} // verus!
