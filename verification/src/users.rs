use vstd::prelude::*;
use vstd::hash_map::StringHashMap;

verus! {

/// A registered user as the chat keeps it in memory.
pub struct User {
    pub username: String,
    pub color: String,
    pub password: String,
}

/// The registered users, each under its name.
pub struct UserTable {
    users: StringHashMap<User>,
}

impl View for UserTable {
    type V = Map<Seq<char>, User>;

    closed spec fn view(&self) -> Map<Seq<char>, User> {
        self.users@
    }
}

impl UserTable {
    /// Keeps `user` under its name, in place of any user of that name.
    pub fn insert(&mut self, user: User)
        ensures
            final(self)@ == old(self)@.insert(user.username@, user),
    {
        let name = user.username.clone();
        self.users.insert(name, user);
    }

    /// The user of this name, if any.
    pub fn get(&self, name: &str) -> (r: Option<&User>)
        ensures
            match r {
                Some(u) => self@.contains_key(name@) && *u == self@[name@],
                None => !self@.contains_key(name@),
            },
    {
        self.users.get(name)
    }

    /// Whether a signed-in identity names a registered user.
    pub fn is_known(&self, identity: Option<&str>) -> (r: bool)
        ensures
            r == (identity matches Some(name) && self@.contains_key(name@)),
    {
        match identity {
            Some(name) => self.users.contains_key(name),
            None => false,
        }
    }
}

impl Default for UserTable {
    fn default() -> (r: UserTable)
        ensures
            r@ == Map::<Seq<char>, User>::empty(),
    {
        UserTable { users: StringHashMap::new() }
    }
}

} // verus!
