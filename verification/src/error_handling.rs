use vstd::prelude::*;

verus! {

/// An error encountered while locating, generating, or loading
/// a configuration file.
///
/// `ConfigError` is a string based error: its message says which operation
/// failed and why.
#[derive(Debug)]
pub struct ConfigError {
    message: String,
}

impl View for ConfigError {
    type V = Seq<char>;

    /// The message the error carries.
    closed spec fn view(&self) -> Seq<char> {
        self.message@
    }
}

/// The text shown for an error with the given message: `Error: <message>`.
pub open spec fn display_text(message: Seq<char>) -> Seq<char> {
    "Error: "@ + message
}

impl ConfigError {
    /// Creates an error carrying `content` as its message.
    pub fn new(content: String) -> (err: Self)
        ensures
            err@ == content@,
    {
        Self { message: content }
    }

    /// The message the error carries.
    pub fn message(&self) -> (m: &str)
        ensures
            m@ == self@,
    {
        self.message.as_str()
    }

    /// The text a user is shown for this error: the message behind `Error: `.
    pub fn to_string(&self) -> (text: String)
        ensures
            text@ == display_text(self@),
    {
        let text = String::from_str("Error: ");
        text.concat(self.message.as_str())
    }
}

} // verus!
