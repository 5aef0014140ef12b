use shaat::users::{User, UserTable};
use shaat::login::{login_decision, login_decision_hashed, understand_color, Login, LoginDecision};

const ABC_DIGEST: &str = "3a985da74fe225b2045c172d6bd390bd855f086e3e9d525b46bfe24511431532";

fn form(u: Option<&str>, p: Option<&str>, r: Option<&str>, c: Option<&str>) -> Login {
    Login {
        username: u.map(|s| s.to_string()),
        password0: p.map(|s| s.to_string()),
        repassword: r.map(|s| s.to_string()),
        usercolor: c.map(|s| s.to_string()),
    }
}

fn refused(d: LoginDecision) -> String {
    match d {
        LoginDecision::Refuse(s) => s,
        _ => panic!("expected a refusal"),
    }
}

#[test]
fn new_user_is_registered_with_digest() {
    let d = login_decision(&form(Some("ann"), Some("abc"), Some("abc"), Some("#a1B2c3")), None);
    match d {
        LoginDecision::Register(u) => {
            assert_eq!(u.username, "ann");
            assert_eq!(u.color, "#a1B2c3");
            assert_eq!(u.password, ABC_DIGEST);
        }
        _ => panic!("expected a registration"),
    }
}

#[test]
fn known_user_with_right_password_signs_in() {
    let stored = ABC_DIGEST.to_string();
    let d = login_decision(&form(Some("ann"), Some("abc"), None, None), Some(&stored));
    match d {
        LoginDecision::SignIn(name) => assert_eq!(name, "ann"),
        _ => panic!("expected a sign in"),
    }
    let d2 = login_decision(&form(Some("ann"), Some("abc"), Some(""), None), Some(&stored));
    assert!(matches!(d2, LoginDecision::SignIn(_)));
}

#[test]
fn wrong_password_is_refused() {
    let stored = ABC_DIGEST.to_string();
    let d = login_decision(&form(Some("ann"), Some("abd"), None, None), Some(&stored));
    assert_eq!(refused(d), "Wrong password. ");
}

#[test]
fn username_errors() {
    assert_eq!(refused(login_decision(&form(None, Some("x"), None, None), None)), "undefined username. ");
    assert_eq!(refused(login_decision(&form(Some("a"), Some("x"), None, None), None)), "username too short. ");
    assert_eq!(
        refused(login_decision(&form(Some("abcdefghijklm"), Some("x"), None, None), None)),
        "username too large. "
    );
    // Lengths count bytes: six two-byte letters are twelve bytes, seven are fourteen.
    assert!(!matches!(
        login_decision(&form(Some("éééééé"), Some("x"), Some("x"), Some("#000000")), None),
        LoginDecision::Refuse(_)
    ));
    assert_eq!(
        refused(login_decision(&form(Some("ééééééé"), Some("x"), Some("x"), Some("#000000")), None)),
        "username too large. "
    );
}

#[test]
fn errors_of_a_new_user_add_up() {
    assert_eq!(
        refused(login_decision(&form(Some("ann"), None, None, None), None)),
        "No password. Enter password twice. undefined usercolor. "
    );
    assert_eq!(
        refused(login_decision(&form(Some("ann"), Some("p"), Some("p"), Some("red")), None)),
        "could not understand color. "
    );
    assert_eq!(
        refused(login_decision(&form(Some("ann"), Some("p"), Some("p"), Some("#12345g")), None)),
        "could not understand color. "
    );
}

#[test]
fn errors_of_a_known_user_add_up() {
    let stored = ABC_DIGEST.to_string();
    assert_eq!(
        refused(login_decision(&form(Some("ann"), Some("zzz"), Some("zzz"), None), Some(&stored))),
        "Re-register? Wrong password. "
    );
    assert_eq!(
        refused(login_decision(&form(Some("ann"), None, Some("x"), None), Some(&stored))),
        "No password. Re-register? "
    );
}

#[test]
fn colors() {
    assert!(understand_color(&"#00ffAA".to_string()));
    assert!(understand_color(&"#######".to_string()));
    assert!(!understand_color(&"#00ffA".to_string()));
    assert!(!understand_color(&"#00ffAAB".to_string()));
    assert!(!understand_color(&"#00fféA".to_string()));
}

#[test]
fn decision_from_given_digest() {
    let stored = "s".to_string();
    let given = "s".to_string();
    let d = login_decision_hashed(&form(Some("bob"), Some("pw"), None, None), Some(&stored), Some(&given));
    assert!(matches!(d, LoginDecision::SignIn(_)));
    let other = "t".to_string();
    let d2 = login_decision_hashed(&form(Some("bob"), Some("pw"), None, None), Some(&stored), Some(&other));
    assert_eq!(refused(d2), "Wrong password. ");
}

#[test]
fn user_table_knows_registered_names() {
    let mut t = UserTable::default();
    assert!(!t.is_known(Some("ann")));
    t.insert(User { username: "ann".to_string(), color: "#000000".to_string(), password: "p".to_string() });
    assert!(t.is_known(Some("ann")));
    assert!(!t.is_known(Some("bob")));
    assert!(!t.is_known(None));
    assert_eq!(t.get("ann").map(|u| u.password.clone()), Some("p".to_string()));
    t.insert(User { username: "ann".to_string(), color: "#ffffff".to_string(), password: "q".to_string() });
    assert_eq!(t.get("ann").map(|u| u.color.clone()), Some("#ffffff".to_string()));
    assert!(t.get("bob").is_none());
}
