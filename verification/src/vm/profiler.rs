use super::engine::{running, stepping, PrimitiveSet, Vm};
use super::error::Error;
use super::instruction::APPLY;
use super::memory::Memory;
use super::model::MemoryView;
use super::value::Value;
use vstd::prelude::*;

verus! {

/// What an observer is told of.
#[derive(Clone, Copy, Debug, PartialEq, Eq, Structural)]
pub enum Event {
    /// A procedure is about to be called.
    Call,
    /// A procedure is about to be called in a tail call.
    ReturnCall,
    /// A procedure has returned.
    Return,
}

/// An observer of a run.  It is told of the calls and the returns and sees
/// the memory, which it cannot change.
pub trait Profiler: Sized {
    /// What being told of an event may make of the observer.  Of an
    /// observer that does not say, anything.
    open spec fn told(self, memory: MemoryView, event: Event, after: Self) -> bool {
        true
    }

    /// Is told that a procedure is about to be called.
    fn profile_call(&mut self, memory: &Memory)
        requires
            memory@.wf(),
        ensures
            (*old(self)).told(memory@, Event::Call, *final(self)),
    ;

    /// Is told that a procedure is about to be called in a tail call.
    fn profile_return_call(&mut self, memory: &Memory)
        requires
            memory@.wf(),
        ensures
            (*old(self)).told(memory@, Event::ReturnCall, *final(self)),
    ;

    /// Is told that a procedure has returned.
    fn profile_return(&mut self, memory: &Memory)
        requires
            memory@.wf(),
        ensures
            (*old(self)).told(memory@, Event::Return, *final(self)),
    ;
}

impl MemoryView {
    /// The instruction applies a procedure that is a cell.
    pub open spec fn calls(self) -> bool {
        match self.instruction() {
            Err(_) => false,
            Ok(next) => next.tag == APPLY && match self.procedure() {
                Ok(Value::Cons(_)) => true,
                _ => false,
            },
        }
    }

    /// The instruction applies a primitive in a tail call: where it
    /// succeeds, it returns to the caller.
    pub open spec fn returning(self) -> bool {
        self.primitive() is Some && self.is_tail()
    }
}

/// What an instruction makes of an observer.  Before an instruction that
/// applies a procedure that is a cell, the observer is told of the call, or
/// of the tail call, with the memory before the instruction.  After an
/// instruction that applied a primitive in a tail call and succeeded, the
/// observer is told of the return, with the memory after the instruction.  It
/// is told of nothing else.
pub open spec fn observing<P: Profiler>(
    profiler: P,
    memory: MemoryView,
    after: P,
    new: MemoryView,
    result: Result<bool, Error>,
) -> bool {
    exists|mid: P|
        {
            &&& #[trigger] called(profiler, memory, mid)
            &&& if memory.returning() && result is Ok {
                mid.told(new, Event::Return, after)
            } else {
                after == mid
            }
        }
}

/// What the instruction of a memory makes of an observer before it runs.
pub open spec fn called<P: Profiler>(profiler: P, memory: MemoryView, after: P) -> bool {
    if memory.calls() {
        profiler.told(
            memory,
            if memory.is_tail() {
                Event::ReturnCall
            } else {
                Event::Call
            },
            after,
        )
    } else {
        after == profiler
    }
}

/// What a run of at most `limit` instructions makes of a set of primitives,
/// a memory and an observer, and what it returns: the instructions are run
/// one after another as in `running`, and the observer is told of each as in
/// `observing`.
pub open spec fn watching<T: PrimitiveSet, P: Profiler>(
    primitives: T,
    memory: MemoryView,
    profiler: P,
    limit: nat,
    after: T,
    new: MemoryView,
    seen: P,
    result: Result<bool, Error>,
) -> bool
    decreases limit,
{
    if limit == 0 {
        after == primitives && new == memory && seen == profiler && result == Ok::<bool, Error>(
            false,
        )
    } else {
        exists|next: T, mid: MemoryView, told: P, done: Result<bool, Error>|
            {
                &&& #[trigger] stepping(primitives, memory, next, mid, done)
                &&& #[trigger] observing(profiler, memory, told, mid, done)
                &&& mid.wf()
                &&& if done == Ok::<bool, Error>(false) {
                    watching(next, mid, told, (limit - 1) as nat, after, new, seen, result)
                } else {
                    after == next && new == mid && seen == told && result == done
                }
            }
    }
}

/// A run with an observer is the run without it.
pub proof fn lemma_watching_runs<T: PrimitiveSet, P: Profiler>(
    primitives: T,
    memory: MemoryView,
    profiler: P,
    limit: nat,
    after: T,
    new: MemoryView,
    seen: P,
    result: Result<bool, Error>,
)
    requires
        watching(primitives, memory, profiler, limit, after, new, seen, result),
    ensures
        running(primitives, memory, limit, after, new, result),
    decreases limit,
{
    if limit > 0 {
        let (next, mid, told, done) = choose|
            next: T,
            mid: MemoryView,
            told: P,
            done: Result<bool, Error>,
        |
            {
                &&& #[trigger] stepping(primitives, memory, next, mid, done)
                &&& #[trigger] observing(profiler, memory, told, mid, done)
                &&& mid.wf()
                &&& if done == Ok::<bool, Error>(false) {
                    watching(next, mid, told, (limit - 1) as nat, after, new, seen, result)
                } else {
                    after == next && new == mid && seen == told && result == done
                }
            };
        if done == Ok::<bool, Error>(false) {
            lemma_watching_runs(next, mid, told, (limit - 1) as nat, after, new, seen, result);
        }
        assert(stepping(primitives, memory, next, mid, done));
    }
}

impl<T: PrimitiveSet> Vm<T> {
    /// Runs the instruction at the program counter as `step` does, and tells
    /// an observer of a call before and of a return after it.
    pub fn step_with<P: Profiler>(&mut self, profiler: &mut P) -> (result: Result<bool, Error>)
        requires
            old(self).memory@.wf(),
        ensures
            final(self).memory@.wf(),
            stepping(
                old(self).primitive_set,
                old(self).memory@,
                final(self).primitive_set,
                final(self).memory@,
                result,
            ),
            observing(
                *old(profiler),
                old(self).memory@,
                *final(profiler),
                final(self).memory@,
                result,
            ),
    {
        let (primitive, tail, call) = self.event();

        if call {
            if tail {
                profiler.profile_return_call(&self.memory);
            } else {
                profiler.profile_call(&self.memory);
            }
        }
        let ghost mid = *profiler;

        assert(called(*old(profiler), old(self).memory@, mid));
        let result = self.step();

        if primitive && tail && result.is_ok() {
            profiler.profile_return(&self.memory);
        }
        result
    }

    /// Runs at most `limit` instructions as `run` does, with an observer
    /// that is told of each call and each return.
    pub fn run_with<P: Profiler>(&mut self, profiler: &mut P, limit: usize) -> (result: Result<
        bool,
        Error,
    >)
        requires
            old(self).memory@.wf(),
        ensures
            final(self).memory@.wf(),
            watching(
                old(self).primitive_set,
                old(self).memory@,
                *old(profiler),
                limit as nat,
                final(self).primitive_set,
                final(self).memory@,
                *final(profiler),
                result,
            ),
            running(
                old(self).primitive_set,
                old(self).memory@,
                limit as nat,
                final(self).primitive_set,
                final(self).memory@,
                result,
            ),
    {
        let mut count: usize = 0;

        while count < limit
            invariant
                count <= limit,
                self.memory@.wf(),
                forall|after: T, new: MemoryView, seen: P, result: Result<bool, Error>| #[trigger]
                    watching(
                        self.primitive_set,
                        self.memory@,
                        *profiler,
                        (limit - count) as nat,
                        after,
                        new,
                        seen,
                        result,
                    ) ==> watching(
                        old(self).primitive_set,
                        old(self).memory@,
                        *old(profiler),
                        limit as nat,
                        after,
                        new,
                        seen,
                        result,
                    ),
            decreases limit - count,
        {
            let ghost primitives = self.primitive_set;
            let ghost memory = self.memory@;
            let ghost observer = *profiler;
            let done = self.step_with(profiler);

            match done {
                Ok(false) => {},
                _ => {
                    proof {
                        assert(watching(
                            primitives,
                            memory,
                            observer,
                            (limit - count) as nat,
                            self.primitive_set,
                            self.memory@,
                            *profiler,
                            done,
                        ));
                        lemma_watching_runs(
                            old(self).primitive_set,
                            old(self).memory@,
                            *old(profiler),
                            limit as nat,
                            self.primitive_set,
                            self.memory@,
                            *profiler,
                            done,
                        );
                    }
                    return done;
                },
            }
            count = count + 1;
            proof {
                assert forall|after: T, new: MemoryView, seen: P, result: Result<bool, Error>| #[trigger]
                    watching(
                        self.primitive_set,
                        self.memory@,
                        *profiler,
                        (limit - count) as nat,
                        after,
                        new,
                        seen,
                        result,
                    ) implies watching(
                    old(self).primitive_set,
                    old(self).memory@,
                    *old(profiler),
                    limit as nat,
                    after,
                    new,
                    seen,
                    result,
                ) by {
                    assert(stepping(primitives, memory, self.primitive_set, self.memory@, done));
                    assert(observing(observer, memory, *profiler, self.memory@, done));
                    assert(watching(
                        primitives,
                        memory,
                        observer,
                        (limit - (count - 1)) as nat,
                        after,
                        new,
                        seen,
                        result,
                    ));
                }
            }
        }
        proof {
            assert(watching(
                self.primitive_set,
                self.memory@,
                *profiler,
                (limit - count) as nat,
                self.primitive_set,
                self.memory@,
                *profiler,
                Ok::<bool, Error>(false),
            ));
            lemma_watching_runs(
                old(self).primitive_set,
                old(self).memory@,
                *old(profiler),
                limit as nat,
                self.primitive_set,
                self.memory@,
                *profiler,
                Ok::<bool, Error>(false),
            );
        }
        Ok(false)
    }
}

} // verus!
