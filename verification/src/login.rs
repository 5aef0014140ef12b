use vstd::prelude::*;
use vstd::string::{StrSliceExecFns, StringExecFns};
use vstd::utf8::encode_utf8;
use crypto::digest::Digest;
use crypto::sha3::Sha3;
use crate::text::{opt_view, opt_ref_view};
use crate::users::User;

verus! {

/// What the login form sends; any field may be missing.
pub struct Login {
    pub username: Option<String>,
    pub password0: Option<String>,
    pub repassword: Option<String>,
    pub usercolor: Option<String>,
}

/// What to do with a login form.
pub enum LoginDecision {
    /// Show the login page again with this error text.
    Refuse(String),
    /// The user exists and gave the right password: sign in under this name.
    SignIn(String),
    /// A new user: store this user, then sign in under its name.
    Register(User),
}

/// The SHA3-256 digest of the UTF-8 bytes of a text, written in hexadecimal.
pub uninterp spec fn sha3_256_hex(input: Seq<char>) -> Seq<char>;

/// The digest under which a password is stored.
///
/// Calls rust-crypto's `Sha3::sha3_256`, feeds it the text with `Digest::input_str` and reads
/// it back with `Digest::result_str`. Trusted to give `sha3_256_hex` of the text, a value
/// that depends on the text alone; nothing more is claimed of it.
#[verifier::external_body]
fn hash(input: &str) -> (r: String)
    ensures
        r@ == sha3_256_hex(input@),
{
    let mut hasher = Sha3::sha3_256();
    hasher.input_str(input);
    hasher.result_str()
}

/// The length in bytes of a text's UTF-8 encoding, as `str::len` reports it.
pub open spec fn byte_len(s: Seq<char>) -> usize {
    encode_utf8(s).len() as usize
}

/// A character that may stand in a color: `#` or a hexadecimal digit.
pub open spec fn is_color_char(c: char) -> bool {
    ||| c == '#'
    ||| ('0' <= c && c <= '9')
    ||| ('a' <= c && c <= 'f')
    ||| ('A' <= c && c <= 'F')
}

/// A color the form may give: seven bytes, each a `#` or a hexadecimal digit.
pub open spec fn color_understood(color: Seq<char>) -> bool {
    &&& byte_len(color) == 7
    &&& forall|i: int| 0 <= i < color.len() ==> is_color_char(#[trigger] color[i])
}

/// What is wrong with the user name, if anything.
pub open spec fn username_errors(username: Option<Seq<char>>) -> Seq<char> {
    match username {
        None => "undefined username. "@,
        Some(u) => if byte_len(u) < 2 {
            "username too short. "@
        } else if byte_len(u) > 12 {
            "username too large. "@
        } else {
            Seq::empty()
        },
    }
}

/// All that is wrong with a login form, given the stored digest of the named user's
/// password (when the user exists) and the digest of the password the form gives.
pub open spec fn login_errors(
    username: Option<Seq<char>>,
    password0: Option<Seq<char>>,
    repassword: Option<Seq<char>>,
    usercolor: Option<Seq<char>>,
    stored_password: Option<Seq<char>>,
    password_hash: Option<Seq<char>>,
) -> Seq<char> {
    let name_errors = username_errors(username);
    if name_errors.len() > 0 {
        name_errors
    } else {
        let no_password = if password0 is None {
            "No password. "@
        } else {
            Seq::empty()
        };
        match stored_password {
            Some(stored) => {
                let re_register = match repassword {
                    Some(r) => if r.len() > 0 {
                        "Re-register? "@
                    } else {
                        Seq::empty()
                    },
                    None => Seq::empty(),
                };
                let wrong = match password_hash {
                    Some(h) => if h != stored {
                        "Wrong password. "@
                    } else {
                        Seq::empty()
                    },
                    None => Seq::empty(),
                };
                no_password + re_register + wrong
            },
            None => {
                let once = if repassword is None {
                    "Enter password twice. "@
                } else {
                    Seq::empty()
                };
                let color = match usercolor {
                    None => "undefined usercolor. "@,
                    Some(c) => if color_understood(c) {
                        Seq::empty()
                    } else {
                        "could not understand color. "@
                    },
                };
                no_password + once + color
            },
        }
    }
}

/// The decision fits the form: refuse with the errors when there are some, else sign in
/// a known user, else register the new user with the given color and password digest.
pub open spec fn decision_fits(
    d: LoginDecision,
    form: Login,
    stored_password: Option<Seq<char>>,
    password_hash: Option<Seq<char>>,
) -> bool {
    let errors = login_errors(
        opt_view(form.username),
        opt_view(form.password0),
        opt_view(form.repassword),
        opt_view(form.usercolor),
        stored_password,
        password_hash,
    );
    match d {
        LoginDecision::Refuse(text) => errors.len() > 0 && text@ == errors,
        LoginDecision::SignIn(name) => {
            &&& errors.len() == 0
            &&& stored_password is Some
            &&& opt_view(form.username) == Some(name@)
        },
        LoginDecision::Register(user) => {
            &&& errors.len() == 0
            &&& stored_password is None
            &&& opt_view(form.username) == Some(user.username@)
            &&& opt_view(form.usercolor) == Some(user.color@)
            &&& password_hash == Some(user.password@)
        },
    }
}

/// Whether a color of the form is understood: seven bytes of `#` and hexadecimal digits.
pub fn understand_color(color: &String) -> (r: bool)
    ensures
        r == color_understood(color@),
{
    if color.as_str().len() != 7 {
        return false;
    }
    let n = color.as_str().unicode_len();
    let mut i: usize = 0;
    while i < n
        invariant
            n == color@.len(),
            i <= n,
            forall|j: int| 0 <= j < i ==> is_color_char(#[trigger] color@[j]),
        decreases n - i,
    {
        let c = color.as_str().get_char(i);
        if c == '#' || (c as u32 >= '0' as u32 && c as u32 <= '9' as u32) || (c as u32 >= 'a' as u32
            && c as u32 <= 'f' as u32) || (c as u32 >= 'A' as u32 && c as u32 <= 'F' as u32) {
            i = i + 1;
        } else {
            return false;
        }
    }
    true
}

/// Decides on a login form, given the stored digest of the named user's password (when the
/// user exists) and the digest of the password the form gives (when it gives one).
pub fn login_decision_hashed(
    form: &Login,
    stored_password: Option<&String>,
    password_hash: Option<&String>,
) -> (r: LoginDecision)
    requires
        password_hash is Some <==> form.password0 is Some,
    ensures
        decision_fits(r, *form, opt_ref_view(stored_password), opt_ref_view(password_hash)),
{
    proof {
        reveal_strlit("undefined username. ");
        reveal_strlit("username too short. ");
        reveal_strlit("username too large. ");
        reveal_strlit("No password. ");
        reveal_strlit("Re-register? ");
        reveal_strlit("Wrong password. ");
        reveal_strlit("Enter password twice. ");
        reveal_strlit("undefined usercolor. ");
        reveal_strlit("could not understand color. ");
    }
    let mut s = String::new();
    match &form.username {
        None => {
            s.append("undefined username. ");
        },
        Some(username) => {
            if username.as_str().len() < 2 {
                s.append("username too short. ");
            } else if username.as_str().len() > 12 {
                s.append("username too large. ");
            }
        },
    }
    if s.as_str().is_empty() {
        if form.password0.is_none() {
            s.append("No password. ");
        }
        match stored_password {
            Some(stored) => {
                match &form.repassword {
                    Some(repassword) => {
                        if !repassword.as_str().is_empty() {
                            s.append("Re-register? ");
                        }
                    },
                    None => {},
                }
                match password_hash {
                    Some(given) => {
                        if !given.eq(stored) {
                            s.append("Wrong password. ");
                        }
                    },
                    None => {},
                }
            },
            None => {
                if form.repassword.is_none() {
                    s.append("Enter password twice. ");
                }
                match &form.usercolor {
                    None => {
                        s.append("undefined usercolor. ");
                    },
                    Some(usercolor) => {
                        if !understand_color(usercolor) {
                            s.append("could not understand color. ");
                        }
                    },
                }
            },
        }
    }
    if !s.as_str().is_empty() {
        return LoginDecision::Refuse(s);
    }
    let username = match &form.username {
        Some(u) => u.clone(),
        None => {
            return LoginDecision::Refuse(s);
        },
    };
    match stored_password {
        Some(_) => LoginDecision::SignIn(username),
        None => {
            let color = match &form.usercolor {
                Some(c) => c.clone(),
                None => "#000000".to_owned(),
            };
            let password = match password_hash {
                Some(h) => h.clone(),
                None => String::new(),
            };
            LoginDecision::Register(User { username, color, password })
        },
    }
}

/// Decides on a login form, given the stored digest of the named user's password when the
/// user exists: the password the form gives is digested with SHA3-256 for the comparison
/// and for a new user's record.
pub fn login_decision(form: &Login, stored_password: Option<&String>) -> (r: LoginDecision)
    ensures
        decision_fits(
            r,
            *form,
            opt_ref_view(stored_password),
            match form.password0 {
                Some(p) => Some(sha3_256_hex(p@)),
                None => None,
            },
        ),
{
    let password_hash: Option<String> = match &form.password0 {
        Some(p) => Some(hash(p.as_str())),
        None => None,
    };
    login_decision_hashed(form, stored_password, password_hash.as_ref())
}

} // verus!
