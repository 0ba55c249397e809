use vstd::prelude::*;

verus! {

/// The error raised when a value has a shape this format cannot carry:
/// a repeated key read as a single value, or a sequence nested in a sequence.
#[derive(Debug, Clone, Copy, PartialEq, Eq, Structural)]
pub enum Error {
    Unsupported,
}

impl Error {
    /// The text of the error; it always contains the word "unsupported".
    pub fn message(&self) -> (r: String)
        ensures
            r@ == "unsupported value"@,
    {
        proof {
            reveal_strlit("unsupported value");
        }
        String::from_str("unsupported value")
    }
}

} // verus!
