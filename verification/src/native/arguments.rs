//! The arguments of a function of the host: at most sixteen values, kept
//! without allocation in a vector of the crate `heapless`.

use crate::vm::error::Error;
use crate::vm::memory::Memory;
use crate::vm::value::Value;
use vstd::prelude::*;

verus! {

/// The greatest number of arguments of a function of the host.
pub const MAXIMUM_ARGUMENT_COUNT: usize = 16;

/// The arguments of a function of the host, the one pushed first in front.
#[verifier::external_body]
pub struct Arguments {
    values: heapless::Vec<Value, 16>,
}

/// The values that arguments hold.
pub uninterp spec fn arguments(arguments: Arguments) -> Seq<Value>;

/// Makes arguments with `heapless::Vec::new`, which constructs an empty
/// vector.
#[verifier::external_body]
fn no_arguments() -> (result: Arguments)
    ensures
        arguments(result) == Seq::<Value>::empty(),
{
    Arguments { values: heapless::Vec::new() }
}

/// Puts a value behind the others with `heapless::Vec::push`, which appends
/// the item while the length is below the capacity, and else hands it back
/// and leaves the vector.
#[verifier::external_body]
fn add_argument(list: &mut Arguments, value: Value) -> (added: bool)
    ensures
        added == (arguments(*old(list)).len() < MAXIMUM_ARGUMENT_COUNT),
        arguments(*final(list)) == if added {
            arguments(*old(list)).push(value)
        } else {
            arguments(*old(list))
        },
{
    list.values.push(value).is_ok()
}

/// Returns the values as a slice with `heapless::Vec::as_slice`.
#[verifier::external_body]
fn argument_slice(list: &Arguments) -> (result: &[Value])
    ensures
        result@ == arguments(*list),
{
    list.values.as_slice()
}

impl Arguments {
    /// Returns the number of arguments.
    pub fn len(&self) -> (result: usize)
        ensures
            result == arguments(*self).len(),
    {
        argument_slice(self).len()
    }

    /// Returns an argument.
    pub fn get(&self, index: usize) -> (result: Option<Value>)
        ensures
            result == if index < arguments(*self).len() {
                Some(arguments(*self)[index as int])
            } else {
                None
            },
    {
        let values = argument_slice(self);

        if index < values.len() {
            Some(values[index])
        } else {
            None
        }
    }
}

/// Pops the arguments of a function of a number of parameters from the
/// stack and returns them with the one pushed first in front.  A function of
/// more than sixteen parameters cannot be called: it fails, and nothing is
/// popped.  Else the values are popped up to the first failure.
pub fn pop_arguments(memory: &mut Memory, arity: usize) -> (result: Result<Arguments, Error>)
    requires
        old(memory)@.wf(),
    ensures
        final(memory)@.wf(),
        arity > MAXIMUM_ARGUMENT_COUNT ==> final(memory)@ == old(memory)@ && result is Err
            && result->Err_0 == Error::ArgumentCount,
        arity <= MAXIMUM_ARGUMENT_COUNT ==> final(memory)@ == old(memory)@.popped_many(arity as nat)
            && match old(memory)@.top_many(arity as nat) {
            Ok(values) => result is Ok && arguments(result->Ok_0) == values,
            Err(error) => result is Err && result->Err_0 == error,
        },
{
    if arity > MAXIMUM_ARGUMENT_COUNT {
        return Err(Error::ArgumentCount);
    }
    let values = match memory.pop_many(arity) {
        Ok(values) => values,
        Err(error) => {
            return Err(error);
        },
    };
    let mut list = no_arguments();
    let mut index: usize = 0;

    while index < values.len()
        invariant
            index <= values.len() <= MAXIMUM_ARGUMENT_COUNT,
            arguments(list) == values@.subrange(0, index as int),
        decreases values.len() - index,
    {
        let added = add_argument(&mut list, values[index]);

        assert(added);
        index = index + 1;
        assert(arguments(list) =~= values@.subrange(0, index as int));
    }
    assert(values@.subrange(0, index as int) =~= values@);
    Ok(list)
}

} // verus!
