use vstd::prelude::*;

verus! {

/// An error that carries a human-readable description.
#[derive(Debug)]
pub struct GenericError {
    details: String,
}

impl GenericError {
    /// The description carried by this error.
    pub closed spec fn message(&self) -> Seq<char> {
        self.details@
    }

    /// Builds an error with the given description.
    pub fn new(msg: String) -> (r: GenericError)
        ensures
            r.message() == msg@,
    {
        GenericError { details: msg }
    }

    /// The description this error was built with.
    pub fn details(&self) -> (r: &String)
        ensures
            r@ == self.message(),
    {
        &self.details
    }
}

} // verus!
