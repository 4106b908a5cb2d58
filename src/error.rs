use vstd::prelude::*;

use crate::text::{copy_string, join3};

verus! {

/// An error meant for a person: a message and an optional hint on what to
/// do about it.
#[derive(Debug)]
pub struct UserError {
    pub message: String,
    pub hint: Option<String>,
}

impl UserError {
    pub fn new(message: String) -> (r: UserError)
        ensures
            r.message@ == message@,
            r.hint is None,
    {
        UserError { message, hint: None }
    }

    pub fn with_hint(self, hint: String) -> (r: UserError)
        ensures
            r.message@ == self.message@,
            r.hint matches Some(h) && h@ == hint@,
    {
        UserError { hint: Some(hint), ..self }
    }

    /// The text shown to the user: the message, then the hint after a blank
    /// line and `Tip: `.
    pub fn render(&self) -> (r: String)
        ensures
            self.hint is None ==> r@ == self.message@,
            self.hint matches Some(h) ==> r@ == self.message@ + "\n\nTip: "@ + h@,
    {
        match &self.hint {
            None => copy_string(&self.message),
            Some(h) => join3(self.message.as_str(), "\n\nTip: ", h.as_str()),
        }
    }
}

} // verus!
