use shaat::chat::{render_message, ChatServer, Message, WsChatSession};

#[test]
fn ids_are_the_least_free_ones() {
    let mut c = ChatServer::default();
    assert_eq!(c.get_new_id(), 0);
    assert_eq!(c.connect("ann".to_string()), 0);
    assert_eq!(c.connect("bob".to_string()), 1);
    assert_eq!(c.connect("cid".to_string()), 2);
    c.disconnect(1);
    assert_eq!(c.get_new_id(), 1);
    assert_eq!(c.connect("dan".to_string()), 1);
    assert_eq!(c.connect("eve".to_string()), 3);
}

#[test]
fn disconnect_undoes_connect() {
    let mut c = ChatServer::default();
    let id = c.connect("ann".to_string());
    c.disconnect(id);
    assert_eq!(c.get_new_id(), 0);
    c.disconnect(42);
    assert_eq!(c.get_new_id(), 0);
}

#[test]
fn new_session_has_no_id_yet() {
    let s = WsChatSession::new("ann".to_string());
    assert_eq!(s.id, 0);
    assert_eq!(s.username, "ann");
}

#[test]
fn message_line_uses_the_user_color() {
    let m = Message { message: b"hi there".to_vec(), username: "ann".to_string() };
    let line = render_message(Some("#12ab34"), &m);
    assert_eq!(String::from_utf8(line).unwrap(), "<code style=\"color:#12ab34\">ann </code>hi there<br/>");
}

#[test]
fn unknown_user_is_shown_in_white() {
    let m = Message { message: vec![0xff, 0x41], username: "zoë".to_string() };
    let line = render_message(None, &m);
    let mut expected = "<code style=\"color:#ffffff\">zoë </code>".as_bytes().to_vec();
    expected.extend_from_slice(&[0xff, 0x41]);
    expected.extend_from_slice(b"<br/>");
    assert_eq!(line, expected);
}
