use keefuzz::item::Item;
use keefuzz::preview::{preview_fields, show_preview, write_preview};

#[test]
fn writes_available_fields() {
    let mut output = String::new();

    write_preview(
        &mut output,
        "https://example.com",
        "alice",
        "line 1\nline 2",
    );

    assert_eq!(
        output,
        "URL: https://example.com\nUsername: alice\nNotes:\n    line 1\n    line 2\n"
    );
}

#[test]
fn writes_no_data_message() {
    let mut output = String::new();

    write_preview(&mut output, "", "", "");

    assert_eq!(output, "-- No Data --\n");
}

#[test]
fn notes_lines_follow_std_lines() {
    let mut output = String::new();
    write_preview(&mut output, "", "", "a\r\nb\n\nc\r");
    assert_eq!(output, "Notes:\n    a\n    b\n    \n    c\r\n");
    let mut output = String::new();
    write_preview(&mut output, "", "", "only\n");
    assert_eq!(output, "Notes:\n    only\n");
    let mut output = String::new();
    write_preview(&mut output, "", "", "\n");
    assert_eq!(output, "Notes:\n    \n");
}

#[test]
fn writes_only_username() {
    let mut output = String::new();
    write_preview(&mut output, "", "bob", "");
    assert_eq!(output, "Username: bob\n");
}

#[test]
fn preview_fields_take_second_to_fourth_field() {
    let (u, n, t) = preview_fields("name\turl\tuser\tnotes\textra");
    assert_eq!((u.as_str(), n.as_str(), t.as_str()), ("url", "user", "notes"));
    let (u, n, t) = preview_fields("name only");
    assert_eq!((u.as_str(), n.as_str(), t.as_str()), ("", "", ""));
    let (u, n, t) = preview_fields("name\turl");
    assert_eq!((u.as_str(), n.as_str(), t.as_str()), ("url", "", ""));
}

#[test]
fn preview_of_a_listed_line_shows_its_entry() {
    let item = Item {
        group_path: vec!["Internet".into()],
        title: Some("Example".into()),
        url: Some("https://exa\tmple.com".into()),
        username: Some("alice".into()),
        notes: Some("one\ntwo".into()),
    };
    let line = item.into_fzf_line();
    let shown = show_preview(line.trim_end_matches('\0'));
    assert_eq!(
        shown,
        "URL: https://exa mple.com\nUsername: alice\nNotes:\n    one\n    two\n"
    );
}
