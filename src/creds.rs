//! A user's login.
use vstd::prelude::*;

verus! {

/// The email and password that a session logs in with.
pub struct Creds {
    email: String,
    password: String,
}

impl Creds {
    pub closed spec fn email_view(&self) -> Seq<char> {
        self.email@
    }

    pub closed spec fn password_view(&self) -> Seq<char> {
        self.password@
    }

    pub fn new(email: String, password: String) -> (r: Self)
        ensures
            r.email_view() == email@,
            r.password_view() == password@,
    {
        Creds { email, password }
    }

    pub fn email(&self) -> (r: &str)
        ensures
            r@ == self.email_view(),
    {
        self.email.as_str()
    }

    pub fn password(&self) -> (r: &str)
        ensures
            r@ == self.password_view(),
    {
        self.password.as_str()
    }
}

} // verus!
