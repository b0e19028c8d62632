//! What went wrong outside the queue.

use vstd::prelude::*;

verus! {

/// Something outside the queue did not work: git, the merge gate's shell, a log file.
/// The queue does not interpret it, only reports it.
#[derive(Debug, PartialEq, Eq)]
pub struct Failure {
    pub message: String,
}

impl Failure {
    pub fn new(message: &str) -> (r: Self)
        ensures
            r@ == message@,
    {
        Failure { message: message.to_string() }
    }
}

impl View for Failure {
    type V = Seq<char>;

    open spec fn view(&self) -> Seq<char> {
        self.message@
    }
}

impl Clone for Failure {
    fn clone(&self) -> (r: Self)
        ensures
            r == *self,
    {
        Failure { message: self.message.clone() }
    }
}

} // verus!
