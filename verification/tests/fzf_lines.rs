use keefuzz::item::{sanitize, Item};

#[test]
fn uses_title_as_display_name() {
    let item = Item {
        group_path: vec!["Internet".into(), "Work".into()],
        title: Some("Example".into()),
        url: Some("https://example.com".into()),
        username: Some("alice".into()),
        notes: Some("login notes".into()),
    };

    assert_eq!(
        item.into_fzf_line(),
        "/Internet/Work/Example\thttps://example.com\talice\tlogin notes\0"
    );
}

#[test]
fn falls_back_to_url_username_then_no_name() {
    let url_item = Item {
        group_path: Vec::new(),
        title: None,
        url: Some("https://example.com".into()),
        username: Some("alice".into()),
        notes: None,
    };
    let username_item = Item {
        group_path: Vec::new(),
        title: None,
        url: None,
        username: Some("alice".into()),
        notes: None,
    };
    let unnamed_item = Item {
        group_path: Vec::new(),
        title: None,
        url: None,
        username: None,
        notes: None,
    };

    assert_eq!(
        url_item.into_fzf_line(),
        "/<https://example.com>\thttps://example.com\talice\t\0"
    );
    assert_eq!(username_item.into_fzf_line(), "/alice\t\talice\t\0");
    assert_eq!(unnamed_item.into_fzf_line(), "/<no name>\t\t\t\0");
}

#[test]
fn sanitizes_tabs_and_nuls() {
    let item = Item {
        group_path: vec!["Group\tOne".into()],
        title: Some("Ti\0tle".into()),
        url: Some("https://exa\tmple.com".into()),
        username: Some("ali\0ce".into()),
        notes: Some("line\t1\0".into()),
    };

    assert_eq!(
        item.into_fzf_line(),
        "/Group One/Title\thttps://exa mple.com\talice\tline 1\0"
    );
}

#[test]
fn empty_fields_are_passed_over_for_the_display_name() {
    let item = Item {
        group_path: vec!["G".into()],
        title: Some(String::new()),
        url: Some(String::new()),
        username: Some("bob".into()),
        notes: None,
    };
    assert_eq!(item.into_fzf_line(), "/G/bob\t\tbob\t\0");
}

#[test]
fn sanitize_drops_nul_and_turns_tab_into_space() {
    assert_eq!(sanitize("a\tb\0c\0"), "a bc");
    assert_eq!(sanitize(""), "");
    assert_eq!(sanitize("\0\0"), "");
}

#[test]
fn sanitize_twice_is_sanitize_once() {
    let once = sanitize("x\t\0y\t");
    assert_eq!(sanitize(&once), once);
}

#[test]
fn listed_line_has_four_fields_and_one_nul() {
    let item = Item {
        group_path: vec!["a\tb".into(), "c\0".into()],
        title: Some("t\t".into()),
        url: Some("u\0\t".into()),
        username: None,
        notes: Some("n\tn".into()),
    };
    let line = item.into_fzf_line();
    assert!(line.ends_with('\0'));
    assert_eq!(line.matches('\0').count(), 1);
    assert_eq!(line.trim_end_matches('\0').split('\t').count(), 4);
}
