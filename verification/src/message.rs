use vstd::prelude::*;

verus! {

/// The abstract value of a [`Message`]: its reference id and its payload
/// bytes.
pub struct MessageView {
    pub id: Seq<char>,
    pub text: Seq<u8>,
}

/// An immutable broker message: an opaque reference id (the `refer`
/// attribute of the `send` frame that carried it) and the payload bytes
/// (the full XML bytes of that frame).
pub struct Message {
    id: String,
    text: Vec<u8>,
}

impl View for Message {
    type V = MessageView;

    closed spec fn view(&self) -> MessageView {
        MessageView { id: self.id@, text: self.text@ }
    }
}

impl Clone for Message {
    fn clone(&self) -> (r: Self)
        ensures
            r@ == self@,
    {
        Message { id: self.id.clone(), text: self.text.clone() }
    }
}

impl Message {
    /// Creates a message from its payload bytes and its reference id.
    pub fn new(text: Vec<u8>, id: String) -> (m: Message)
        ensures
            m@.id == id@,
            m@.text == text@,
    {
        Message { id, text }
    }

    /// The reference id used as the acknowledgement key.
    pub fn id(&self) -> (r: &String)
        ensures
            r@ == self@.id,
    {
        &self.id
    }

    /// The payload bytes delivered verbatim to consumers.
    pub fn text(&self) -> (r: &Vec<u8>)
        ensures
            r@ == self@.text,
    {
        &self.text
    }
}

} // verus!
