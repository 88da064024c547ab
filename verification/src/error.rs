use vstd::prelude::*;

verus! {

/// An internal failure of the service, carried as a message.
#[derive(Debug)]
pub struct ServiceError {
    pub message: String,
}

impl ServiceError {
    /// Builds an error that carries `message`.
    pub fn new(message: &str) -> (error: ServiceError)
        ensures
            error.message@ == message@,
    {
        ServiceError { message: message.to_owned() }
    }
}

} // verus!
