use vstd::prelude::*;

verus! {

/// The context of a process.  What it returns is the business of the host;
/// a context may say what it returns.
pub trait ProcessContext {
    /// What the context may give for the command line.  Of a context that
    /// does not say, anything.
    open spec fn commanding(&self, result: Seq<Vec<u8>>) -> bool {
        true
    }

    /// What the context may give for the environment.  Of a context that
    /// does not say, anything.
    open spec fn surrounding(&self, result: Seq<(Vec<u8>, Vec<u8>)>) -> bool {
        true
    }

    /// Returns the arguments of the command line.
    fn command_line(&self) -> (result: Vec<Vec<u8>>)
        ensures
            self.commanding(result@),
    ;

    /// Returns the variables of the environment, each a name and a value.
    fn environment_variables(&self) -> (result: Vec<(Vec<u8>, Vec<u8>)>)
        ensures
            self.surrounding(result@),
    ;
}

} // verus!
