use vstd::prelude::*;

verus! {

/// One bulletin-board message: who wrote it and what it says.
#[derive(Debug, PartialEq, Eq)]
pub struct Message {
    pub user: String,
    pub text: String,
}

impl Message {
    pub fn new(user: String, text: String) -> (m: Message)
        ensures
            m.user == user,
            m.text == text,
    {
        Message { text, user }
    }
}

} // verus!
