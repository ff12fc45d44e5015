//! User, token, and session data as the surrounding application stores
//! them. The stores and providers that talk to a database live outside
//! the engine; these are the plain values they exchange.

use vstd::prelude::*;

verus! {

/// A user known to the core store, by username alone.
#[derive(Debug)]
pub struct CoreUser {
    pub username: String,
}

impl CoreUser {
    /// A user with the given username.
    pub fn new(username: String) -> (r: CoreUser)
        ensures
            r.username@ == username@,
    {
        CoreUser { username }
    }
}

/// An authentication token: the username it certifies.
#[derive(Debug)]
pub struct Token {
    pub username: String,
}

impl Token {
    /// A token for the given username.
    pub fn new(username: String) -> (r: Token)
        ensures
            r.username@ == username@,
    {
        Token { username }
    }

    /// The username this token certifies.
    pub fn username(&self) -> (r: &str)
        ensures
            r@ == self.username@,
    {
        self.username.as_str()
    }
}

/// The core user store. Its database-backed operations live with the
/// surrounding application.
pub struct CoreUserStore;

/// The core authentication provider. Its database-backed operations live
/// with the surrounding application.
pub struct CoreAuthProvider {}

/// A session, by its identifier.
#[derive(Debug)]
pub struct Session {
    pub session_id: String,
}

impl Session {
    /// A session with the given identifier.
    pub fn new(session_id: String) -> (r: Session)
        ensures
            r.session_id@ == session_id@,
    {
        Session { session_id }
    }

    /// The session identifier.
    pub fn session_id(&self) -> (r: &str)
        ensures
            r@ == self.session_id@,
    {
        self.session_id.as_str()
    }
}

/// A stored user: numeric identifier and username.
#[derive(Debug)]
pub struct BaseUser {
    pub id: i32,
    pub username: String,
}

impl BaseUser {
    /// A user with the given identifier and username.
    pub fn new(id: i32, username: String) -> (r: BaseUser)
        ensures
            r.id == id,
            r.username@ == username@,
    {
        BaseUser { id, username }
    }
}

} // verus!
