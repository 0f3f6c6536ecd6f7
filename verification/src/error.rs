use vstd::prelude::*;

verus! {

/// Error reported when persisted data (an activity line, a category line or a
/// whole file) does not match the expected format.
#[derive(Debug)]
pub struct ParseError {
    pub msg: String,
}

impl ParseError {
    pub fn new(msg: &str) -> (r: ParseError)
        ensures
            r.msg@ == msg@,
    {
        ParseError { msg: msg.to_owned() }
    }

    /// Human-readable description of the error.
    pub fn message(&self) -> (r: String)
        ensures
            r@ == "ParseError: "@ + self.msg@,
    {
        let mut r = String::new();
        r.append("ParseError: ");
        r.append(self.msg.as_str());
        r
    }
}

} // verus!
