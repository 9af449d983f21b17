use vstd::prelude::*;
use vstd::string::*;

verus! {

/// A failure of the web page, described by a message.
#[derive(Debug)]
pub struct Error {
    message: String,
}

impl Error {
    pub closed spec fn spec_message(&self) -> Seq<char> {
        self.message@
    }

    pub fn new(message: String) -> (error: Self)
        ensures
            error.spec_message() == message@,
    {
        Self { message }
    }

    /// An error that names what was being attempted, followed by the description of the
    /// failure that stopped it.
    pub fn with_context(context: &str, source: &str) -> (error: Self)
        ensures
            error.spec_message() == context@ + ": "@ + source@,
    {
        let mut message = String::from_str(context);
        message.append(": ");
        message.append(source);
        Self::new(message)
    }

    pub fn message(&self) -> (message: &str)
        ensures
            message@ == self.spec_message(),
    {
        self.message.as_str()
    }
}

} // verus!
