use shaat::statiq::{mime_type, static_file_path};
use shaat::template::{insert_on_html, Insertions};

fn insertions() -> Insertions {
    let mut m = Insertions::new();
    m.insert("ERRORMESSAGE".to_string(), "Wrong password. ".to_string());
    m
}

fn render(page: &str) -> String {
    String::from_utf8(insert_on_html(page, &insertions())).unwrap()
}

#[test]
fn marker_lines_are_replaced() {
    assert_eq!(render("<p>\n  <!-- ERRORMESSAGE -->\n</p>\n"), "<p>\nWrong password. \n</p>\n");
}

#[test]
fn unknown_markers_become_empty_lines() {
    assert_eq!(render("a\n<!--NOTHING-->\nb"), "a\n\nb\n");
}

#[test]
fn plain_lines_are_kept_and_end_with_line_feeds() {
    assert_eq!(render("  x  \r\ny"), "  x  \ny\n");
    assert_eq!(render(""), "");
    assert_eq!(render("\n\n"), "\n\n");
    assert_eq!(render("a\r"), "a\r\n");
}

#[test]
fn markers_need_both_ends() {
    assert_eq!(render("<!-- ERRORMESSAGE\n"), "<!-- ERRORMESSAGE\n");
    assert_eq!(render("ERRORMESSAGE -->\n"), "ERRORMESSAGE -->\n");
}

#[test]
fn marker_text_loses_every_comment_mark() {
    assert_eq!(render("<!--ERROR<!--MESSAGE-->-->"), "Wrong password. \n");
    assert_eq!(render("\u{3000}<!--\u{a0}ERRORMESSAGE\t-->"), "Wrong password. \n");
    assert_eq!(render("<!-->"), "\n");
}

#[test]
fn rendering_agrees_with_std_on_plain_text() {
    let pages = ["one\n two \r\n<b>\r\nlast", "a\r", "\r\n\r\n", "x\n\n\ny\r\r\n", "\u{2028}\n"];
    for page in pages.iter() {
        let mut expected = String::new();
        for line in page.lines() {
            expected.push_str(line);
            expected.push('\n');
        }
        assert_eq!(render(page), expected, "page {:?}", page);
    }
}

#[test]
fn media_types_by_extension() {
    assert_eq!(mime_type("app.js"), Some("application/javascript"));
    assert_eq!(mime_type("style.min.css"), Some("text/css"));
    assert_eq!(mime_type("css"), Some("text/css"));
    assert_eq!(mime_type("page.html"), None);
    assert_eq!(mime_type("app.JS"), None);
    assert_eq!(mime_type("js."), None);
    assert_eq!(mime_type(""), None);
}

#[test]
fn static_paths_join_with_a_slash() {
    assert_eq!(static_file_path("/srv/static", "index.html"), "/srv/static/index.html");
}

#[test]
fn insertions_keep_the_last_value() {
    let mut m = Insertions::new();
    m.insert("K".to_string(), "one".to_string());
    m.insert("K".to_string(), "two".to_string());
    assert_eq!(m.get("K"), Some(&"two".to_string()));
    assert_eq!(m.get("L"), None);
    assert_eq!(String::from_utf8(insert_on_html("<!--K-->", &m)).unwrap(), "two\n");
}

#[test]
fn trimming_agrees_with_std() {
    let keys = [" \u{3000}K\u{85} ", "\u{200a}K\u{180e}", "\u{feff}K"];
    for key in keys.iter() {
        let mut m = Insertions::new();
        m.insert(key.trim().to_string(), "found".to_string());
        let page = format!("<!--{}-->", key);
        assert_eq!(String::from_utf8(insert_on_html(&page, &m)).unwrap(), "found\n", "key {:?}", key);
    }
}
