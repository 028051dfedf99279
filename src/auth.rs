//! The credentials a client hands over before logging in.
use vstd::prelude::*;

verus! {

#[derive(Clone)]
pub struct Auth {
    pub password: Option<String>,
    pub username: Option<String>,
}

pub struct AuthSession {
    pub auth: Auth,
}

impl AuthSession {
    pub fn new() -> (r: Self)
        ensures
            r.auth.password is None,
            r.auth.username is None,
    {
        AuthSession { auth: AuthSession::new_auth() }
    }

    fn new_auth() -> (r: Auth)
        ensures
            r.password is None,
            r.username is None,
    {
        Auth { password: None, username: None }
    }

    /// Hands out the collected credentials and starts over.
    pub fn consume(&mut self) -> (r: Auth)
        ensures
            r.password == old(self).auth.password,
            r.username == old(self).auth.username,
            final(self).auth.password is None,
            final(self).auth.username is None,
    {
        let ret = Auth { password: self.auth.password.clone(), username: self.auth.username.clone() };
        self.auth = AuthSession::new_auth();
        ret
    }

    pub fn set_password(&mut self, password: String)
        ensures
            final(self).auth.password == Some(password),
            final(self).auth.username == old(self).auth.username,
    {
        self.auth.password = Some(password);
    }

    pub fn set_username(&mut self, username: String)
        ensures
            final(self).auth.username == Some(username),
            final(self).auth.password == old(self).auth.password,
    {
        self.auth.username = Some(username);
    }
}

} // verus!
