use vstd::prelude::*;
use std::collections::HashMap;
use vstd::set_lib::{FiniteRange, lemma_len_subset};
use vstd::string::{StrSliceExecFns, StringExecFns};
use vstd::utf8::encode_utf8;
use crate::text::opt_str_view;

verus! {

broadcast use vstd::std_specs::hash::group_hash_axioms;

/// A chat message: the raw text and who sent it.
#[derive(Clone, Default)]
pub struct Message {
    pub message: Vec<u8>,
    pub username: String,
}

/// The sessions of the chat, each under the id it got when it connected.
pub struct ChatServer {
    sessions: HashMap<usize, String>,
}

impl View for ChatServer {
    type V = Map<usize, Seq<char>>;

    closed spec fn view(&self) -> Map<usize, Seq<char>> {
        self.sessions@.map_values(|name: String| name@)
    }
}

/// `id` is the least id that no session holds.
pub open spec fn is_least_free_id(sessions: Map<usize, Seq<char>>, id: usize) -> bool {
    &&& !sessions.contains_key(id)
    &&& forall|j: usize| j < id ==> sessions.contains_key(j)
}

impl ChatServer {
    /// The least id that no session holds.
    pub fn get_new_id(&self) -> (id: usize)
        ensures
            is_least_free_id(self@, id),
    {
        let mut id: usize = 0;
        while self.sessions.contains_key(&id)
            invariant
                forall|j: usize| j < id ==> self.sessions@.contains_key(j),
                id <= self.sessions@.len(),
            decreases self.sessions@.len() - id,
        {
            proof {
                let taken = <usize as FiniteRange>::range_set(0, id).insert(id);
                <usize as FiniteRange>::range_properties(0, id);
                assert(taken.subset_of(self.sessions@.dom()));
                lemma_len_subset(taken, self.sessions@.dom());
                assert(self.sessions.len() == self.sessions@.len());
            }
            id = id + 1;
        }
        id
    }

    /// Registers a session for `username` under the least free id, and returns that id.
    pub fn connect(&mut self, username: String) -> (id: usize)
        ensures
            is_least_free_id(old(self)@, id),
            final(self)@ == old(self)@.insert(id, username@),
    {
        let id = self.get_new_id();
        let ghost name = username@;
        self.sessions.insert(id, username);
        assert(self@ =~= old(self)@.insert(id, name));
        id
    }

    /// Forgets the session with this id.
    pub fn disconnect(&mut self, session_id: usize)
        ensures
            final(self)@ == old(self)@.remove(session_id),
    {
        self.sessions.remove(&session_id);
        assert(self@ =~= old(self)@.remove(session_id));
    }
}

impl Default for ChatServer {
    fn default() -> (r: ChatServer)
        ensures
            r@ == Map::<usize, Seq<char>>::empty(),
    {
        let r = ChatServer { sessions: HashMap::new() };
        assert(r@ =~= Map::<usize, Seq<char>>::empty());
        r
    }
}

/// A user's chat session: its id at the chat server and the user's name.
pub struct WsChatSession {
    pub id: usize,
    pub username: String,
}

impl WsChatSession {
    /// A session of `username` that has no id from the chat server yet.
    pub fn new(username: String) -> (r: WsChatSession)
        ensures
            r.id == 0,
            r.username@ == username@,
    {
        WsChatSession { id: 0, username: username }
    }
}

/// The color a user's name is shown in: the user's own, or white for an unknown user.
pub open spec fn shown_color(stored_color: Option<Seq<char>>) -> Seq<char> {
    match stored_color {
        Some(c) => c,
        None => "#ffffff"@,
    }
}

/// The HTML line that shows a chat message: the sender's name in its color, then the text.
pub open spec fn chat_line(color: Seq<char>, username: Seq<char>, text: Seq<u8>) -> Seq<u8> {
    encode_utf8("<code style=\"color:"@ + color + "\">"@ + username + " </code>"@) + text + encode_utf8(
        "<br/>"@,
    )
}

/// The HTML line that shows `message`, its sender's name in `stored_color` (white when the
/// sender is unknown).
pub fn render_message(stored_color: Option<&str>, message: &Message) -> (r: Vec<u8>)
    ensures
        r@ == chat_line(shown_color(opt_str_view(stored_color)), message.username@, message.message@),
{
    let color: &str = match stored_color {
        Some(c) => c,
        None => "#ffffff",
    };
    let mut open = String::from_str("<code style=\"color:");
    open.append(color);
    open.append("\">");
    open.append(message.username.as_str());
    open.append(" </code>");
    let mut line = open.as_str().as_bytes_vec();
    let mut text = message.message.clone();
    assert(text@ =~= message.message@);
    line.append(&mut text);
    let mut close = "<br/>".as_bytes_vec();
    line.append(&mut close);
    line
}

} // verus!
