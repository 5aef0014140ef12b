use vstd::prelude::*;
use crate::guard::Id;

verus! {

/// A user as the database stores it.
pub struct User {
    pub username: String,
    pub color: String,
    pub password: String,
}

/// A chat message as the database stores it.
pub struct Message {
    pub id: Id,
    pub username: String,
    pub message: String,
}

/// The row written for a new user.
pub struct NewUser<'a> {
    pub username: &'a str,
    pub color: &'a str,
    pub password: &'a str,
}

/// The row written for a new message.
pub struct NewMessage<'a> {
    pub id: Id,
    pub username: &'a str,
    pub message: &'a str,
}

impl<'a> NewUser<'a> {
    /// The row that stores `user`.
    pub fn from_user(user: &'a User) -> (r: NewUser<'a>)
        ensures
            r.username@ == user.username@,
            r.color@ == user.color@,
            r.password@ == user.password@,
    {
        NewUser {
            username: user.username.as_str(),
            color: user.color.as_str(),
            password: user.password.as_str(),
        }
    }
}

impl<'a> NewMessage<'a> {
    /// The row that stores `message`.
    pub fn from_message(message: &'a Message) -> (r: NewMessage<'a>)
        ensures
            r.id == message.id,
            r.username@ == message.username@,
            r.message@ == message.message@,
    {
        NewMessage {
            id: message.id,
            username: message.username.as_str(),
            message: message.message.as_str(),
        }
    }
}

/// A copy of a user.
fn copy_user(user: &User) -> (r: User)
    ensures
        r == *user,
{
    User {
        username: user.username.clone(),
        color: user.color.clone(),
        password: user.password.clone(),
    }
}

/// A copy of a message.
fn copy_message(message: &Message) -> (r: Message)
    ensures
        r == *message,
{
    Message { id: message.id, username: message.username.clone(), message: message.message.clone() }
}

/// The first of the loaded users with this name, or the error text when none has it.
pub fn find_user(rows: &Vec<User>, username: &String) -> (r: Result<User, String>)
    ensures
        match r {
            Ok(u) => exists|i: int|
                0 <= i < rows.len() && rows[i].username@ == username@ && u == rows[i] && forall|
                    j: int,
                | 0 <= j < i ==> rows[j].username@ != username@,
            Err(e) => e@ == "Empty query result"@ && forall|j: int|
                0 <= j < rows.len() ==> rows[j].username@ != username@,
        },
{
    let mut i: usize = 0;
    while i < rows.len()
        invariant
            i <= rows.len(),
            forall|j: int| 0 <= j < i ==> rows[j].username@ != username@,
        decreases rows.len() - i,
    {
        if rows[i].username.eq(username) {
            return Ok(copy_user(&rows[i]));
        }
        i = i + 1;
    }
    Err("Empty query result".to_owned())
}

/// The first of the loaded messages with this id, or the error text when none has it.
pub fn find_message(rows: &Vec<Message>, id: Id) -> (r: Result<Message, String>)
    ensures
        match r {
            Ok(m) => exists|i: int|
                0 <= i < rows.len() && rows[i].id == id && m == rows[i] && forall|j: int|
                    0 <= j < i ==> rows[j].id != id,
            Err(e) => e@ == "Empty query result"@ && forall|j: int|
                0 <= j < rows.len() ==> rows[j].id != id,
        },
{
    let mut i: usize = 0;
    while i < rows.len()
        invariant
            i <= rows.len(),
            forall|j: int| 0 <= j < i ==> rows[j].id != id,
        decreases rows.len() - i,
    {
        if rows[i].id == id {
            return Ok(copy_message(&rows[i]));
        }
        i = i + 1;
    }
    Err("Empty query result".to_owned())
}

} // verus!
