use super::context::ProcessContext;
use vstd::prelude::*;

verus! {

/// A context without a command line and without an environment.
#[derive(Debug)]
pub struct VoidProcessContext {}

impl VoidProcessContext {
    /// Creates a context.
    pub fn new() -> (result: Self)
        ensures
            result == (VoidProcessContext {  }),
    {
        VoidProcessContext {  }
    }
}

impl ProcessContext for VoidProcessContext {
    /// The command line is empty.
    open spec fn commanding(&self, result: Seq<Vec<u8>>) -> bool {
        result.len() == 0
    }

    /// The environment is empty.
    open spec fn surrounding(&self, result: Seq<(Vec<u8>, Vec<u8>)>) -> bool {
        result.len() == 0
    }

    fn command_line(&self) -> (result: Vec<Vec<u8>>) {
        Vec::new()
    }

    fn environment_variables(&self) -> (result: Vec<(Vec<u8>, Vec<u8>)>) {
        Vec::new()
    }
}

} // verus!
