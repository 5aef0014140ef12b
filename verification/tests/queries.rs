use shaat::graphql::{parse_id, query_latest};
use shaat::models::{find_message, find_user, Message, NewMessage, NewUser, User};
use shaat::{MessageGuard, Messages};

#[test]
fn parse_agrees_with_std() {
    let cases = [
        "0", "42", "-42", "+7", "", "-", "+", "007", "1a", " 1", "9223372036854775807",
        "9223372036854775808", "-9223372036854775808", "-9223372036854775809",
        "99999999999999999999999", "-0", "١",
    ];
    for c in cases.iter() {
        assert_eq!(parse_id(c), c.parse::<i64>().ok(), "case {:?}", c);
    }
}

#[test]
fn query_needs_a_count_that_is_not_negative() {
    let mut m: Messages<String> = Messages::default();
    for t in ["a", "b", "c"].iter() {
        m.insert_message(t.to_string()).unwrap();
    }
    assert_eq!(query_latest(&m, "2"), Ok(vec!["b".to_string(), "c".to_string()]));
    assert_eq!(query_latest(&m, "-1"), Err("Invalid id".to_string()));
    assert_eq!(query_latest(&m, "two"), Err("Invalid id".to_string()));
    assert_eq!(query_latest(&m, "0").unwrap().len(), 3);
}

fn user(name: &str) -> User {
    User { username: name.to_string(), color: "#000000".to_string(), password: format!("pw-{}", name) }
}

#[test]
fn first_user_with_the_name_is_found() {
    let mut rows = vec![user("ann"), user("bob")];
    rows.push(User { username: "bob".to_string(), color: "#ffffff".to_string(), password: "x".to_string() });
    let found = find_user(&rows, &"bob".to_string()).unwrap();
    assert_eq!(found.password, "pw-bob");
    assert_eq!(found.color, "#000000");
    assert_eq!(find_user(&rows, &"cid".to_string()).err(), Some("Empty query result".to_string()));
}

#[test]
fn message_is_found_by_id() {
    let rows = vec![
        Message { id: 3, username: "ann".to_string(), message: "hi".to_string() },
        Message { id: 5, username: "bob".to_string(), message: "yo".to_string() },
    ];
    let m = find_message(&rows, 5).unwrap();
    assert_eq!(m.username, "bob");
    assert_eq!(m.message, "yo");
    assert_eq!(find_message(&rows, 4).err(), Some("Empty query result".to_string()));
}

#[test]
fn rows_borrow_the_fields() {
    let u = user("ann");
    let row = NewUser::from_user(&u);
    assert_eq!((row.username, row.color, row.password), ("ann", "#000000", "pw-ann"));
    let m = Message { id: 9, username: "ann".to_string(), message: "hey".to_string() };
    let mrow = NewMessage::from_message(&m);
    assert_eq!((mrow.id, mrow.username, mrow.message), (9, "ann", "hey"));
}

#[test]
fn graphiql_page_points_at_the_host() {
    let page = shaat::graphql::graphiql_page("example.org:8080");
    assert!(page.contains("var JUNIPER_URL = '//example.org:8080/graphql';"));
    assert_ne!(page, shaat::graphql::graphiql_page("other"));
    let empty = shaat::graphql::graphiql_page("");
    assert!(empty.contains("var JUNIPER_URL = '///graphql';"));
}
