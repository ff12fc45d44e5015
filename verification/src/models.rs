//! Plain data the surrounding application sends and receives as message
//! bodies.

use vstd::prelude::*;

verus! {

/// An error reply body: a message for the client.
#[derive(Debug)]
pub struct ErrorResponse {
    pub message: String,
}

impl ErrorResponse {
    /// An error reply with the given message.
    pub fn new(message: String) -> (r: ErrorResponse)
        ensures
            r.message@ == message@,
    {
        ErrorResponse { message }
    }
}

/// A submitted form, wrapping its payload.
#[derive(Debug)]
pub struct Form<T>(pub T);

/// The form a paste is created from: its content bytes.
#[derive(Debug)]
pub struct PasteForm {
    pub data: Vec<u8>,
}

impl PasteForm {
    /// A form with the given content.
    pub fn new(data: Vec<u8>) -> (r: PasteForm)
        ensures
            r.data@ == data@,
    {
        PasteForm { data }
    }

    /// The content of the paste.
    pub fn data(&self) -> (r: &[u8])
        ensures
            r@ == self.data@,
    {
        self.data.as_slice()
    }
}

/// The reply to a paste creation: the new paste's identifier.
#[derive(Debug)]
pub struct PasteCreateResponse {
    pub id: i32,
}

impl PasteCreateResponse {
    /// A reply carrying the given identifier.
    pub fn new(id: i32) -> (r: PasteCreateResponse)
        ensures
            r.id == id,
    {
        PasteCreateResponse { id }
    }
}

} // verus!
