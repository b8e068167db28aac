use vstd::prelude::*;

use crate::config::Login;
use crate::text::str_eq;

verus! {

/// An error carried out of request handling: a human-readable message. How
/// it is rendered to the client is the transport layer's business.
#[derive(Debug)]
pub struct AppError(pub String);

impl AppError {
    /// The message text.
    pub fn message(&self) -> (r: &String)
        ensures
            r@ == self.0@,
    {
        &self.0
    }
}

/// What `str::to_lowercase` returns for a text: a fixed function of the
/// characters alone.
pub uninterp spec fn lower_of(s: Seq<char>) -> Seq<char>;

/// Relies on `str::to_lowercase`: the lowercased text depends on the input
/// characters alone.
#[verifier::external_body]
fn lowercase(s: &str) -> (r: String)
    ensures
        r@ == lower_of(s@),
{
    s.to_lowercase()
}

/// Whether the presented credentials match some configured login: user names
/// are compared case-insensitively, passwords exactly.
pub open spec fn spec_login_ok(logins: Seq<Login>, username: Seq<char>, password: Seq<char>) -> bool {
    exists|i: int|
        #![trigger logins[i]]
        0 <= i < logins.len() && lower_of(logins[i].username@) == lower_of(username)
            && logins[i].password@ == password
}

/// Decides whether the presented credentials match a configured login.
pub fn check_login(logins: &Vec<Login>, username: &str, password: &str) -> (r: bool)
    ensures
        r == spec_login_ok(logins@, username@, password@),
{
    let lu = lowercase(username);
    let mut i: usize = 0;
    while i < logins.len()
        invariant
            i <= logins@.len(),
            lu@ == lower_of(username@),
            forall|j: int|
                #![trigger logins@[j]]
                0 <= j < i ==> !(lower_of(logins@[j].username@) == lower_of(username@)
                    && logins@[j].password@ == password@),
        decreases logins@.len() - i,
    {
        let cu = lowercase(logins[i].username.as_str());
        if str_eq(cu.as_str(), lu.as_str()) && str_eq(logins[i].password.as_str(), password) {
            proof {
                assert(0 <= i < logins@.len() && lower_of(logins@[i as int].username@) == lower_of(
                    username@,
                ) && logins@[i as int].password@ == password@);
            }
            return true;
        }
        i = i + 1;
    }
    false
}

} // verus!
