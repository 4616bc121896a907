//! A small builder for user records, kept with full contracts: each step
//! fixes exactly the fields it names.

use vstd::prelude::*;

verus! {

/// A user record.
pub struct User {
    pub name: String,
    pub age: u32,
    pub email: Option<String>,
}

/// Accumulates a [`User`]'s fields step by step.
pub struct UserBuilder {
    pub name: String,
    pub age: u32,
    pub email: Option<String>,
}

impl UserBuilder {
    /// Start a builder with a name and an age and no email.
    pub fn new(name: String, age: u32) -> (b: UserBuilder)
        ensures
            b.name == name,
            b.age == age,
            b.email is None,
    {
        Self { name, age, email: None }
    }

    /// Set the email, keeping the other fields.
    pub fn email(self, email: String) -> (b: UserBuilder)
        ensures
            b.name == self.name,
            b.age == self.age,
            b.email == Some(email),
    {
        UserBuilder { email: Some(email), ..self }
    }

    /// Finish: the built user carries exactly the builder's fields.
    pub fn build(self) -> (u: User)
        ensures
            u.name == self.name,
            u.age == self.age,
            u.email == self.email,
    {
        User { name: self.name, age: self.age, email: self.email }
    }
}

} // verus!
