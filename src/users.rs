//! User accounts and a builder for them.
use vstd::prelude::*;

verus! {

#[derive(Debug, Clone, Copy, PartialEq, Eq, Structural)]
pub enum UserType {
    Free,
    Basic,
    Pro,
    Premium,
}

#[derive(Debug)]
pub struct User {
    pub name: String,
    pub pass: String,
    pub mail: Option<String>,
    pub phone: Option<String>,
    pub address: Option<String>,
    pub user_type: UserType,
}

#[derive(Debug)]
pub struct UserBuilder {
    pub name: Option<String>,
    pub pass: Option<String>,
    pub mail: Option<String>,
    pub phone: Option<String>,
    pub address: Option<String>,
    pub user_type: UserType,
}

impl UserBuilder {
    /// A builder with nothing set, for a free account.
    pub fn new() -> (r: Self)
        ensures
            r.name is None,
            r.pass is None,
            r.mail is None,
            r.phone is None,
            r.address is None,
            r.user_type == UserType::Free,
    {
        UserBuilder { name: None, pass: None, mail: None, phone: None, address: None, user_type: UserType::Free }
    }

    pub fn name(self, n: &str) -> (r: Self)
        ensures
            r.name matches Some(s) && s@ == n@,
            r.pass == self.pass,
            r.mail == self.mail,
            r.phone == self.phone,
            r.address == self.address,
            r.user_type == self.user_type,
    {
        UserBuilder { name: Some(n.to_owned()), ..self }
    }

    pub fn pass(self, p: &str) -> (r: Self)
        ensures
            r.pass matches Some(s) && s@ == p@,
            r.name == self.name,
            r.mail == self.mail,
            r.phone == self.phone,
            r.address == self.address,
            r.user_type == self.user_type,
    {
        UserBuilder { pass: Some(p.to_owned()), ..self }
    }

    pub fn mail(self, m: &str) -> (r: Self)
        ensures
            r.mail matches Some(s) && s@ == m@,
            r.name == self.name,
            r.pass == self.pass,
            r.phone == self.phone,
            r.address == self.address,
            r.user_type == self.user_type,
    {
        UserBuilder { mail: Some(m.to_owned()), ..self }
    }

    pub fn phone(self, p: &str) -> (r: Self)
        ensures
            r.phone matches Some(s) && s@ == p@,
            r.name == self.name,
            r.pass == self.pass,
            r.mail == self.mail,
            r.address == self.address,
            r.user_type == self.user_type,
    {
        UserBuilder { phone: Some(p.to_owned()), ..self }
    }

    pub fn address(self, a: &str) -> (r: Self)
        ensures
            r.address matches Some(s) && s@ == a@,
            r.name == self.name,
            r.pass == self.pass,
            r.mail == self.mail,
            r.phone == self.phone,
            r.user_type == self.user_type,
    {
        UserBuilder { address: Some(a.to_owned()), ..self }
    }

    pub fn user_type(self, ut: UserType) -> (r: Self)
        ensures
            r.user_type == ut,
            r.name == self.name,
            r.pass == self.pass,
            r.mail == self.mail,
            r.phone == self.phone,
            r.address == self.address,
    {
        UserBuilder { user_type: ut, ..self }
    }

    /// The user; a name and a password are required.
    pub fn build(self) -> (r: User)
        requires
            self.name is Some,
            self.pass is Some,
        ensures
            r.name == self.name->Some_0,
            r.pass == self.pass->Some_0,
            r.mail == self.mail,
            r.phone == self.phone,
            r.address == self.address,
            r.user_type == self.user_type,
    {
        let name = match self.name {
            Some(n) => n,
            None => String::new(),
        };
        let pass = match self.pass {
            Some(p) => p,
            None => String::new(),
        };
        User { name, pass, mail: self.mail, phone: self.phone, address: self.address, user_type: self.user_type }
    }
}

impl User {
    pub fn change_subscription(&mut self, ut: UserType)
        ensures
            final(self).user_type == ut,
            final(self).name == old(self).name,
            final(self).pass == old(self).pass,
            final(self).mail == old(self).mail,
            final(self).phone == old(self).phone,
            final(self).address == old(self).address,
    {
        self.user_type = ut;
    }
}

} // verus!
