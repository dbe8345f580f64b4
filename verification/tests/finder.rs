use keefuzz::finder::{fzf_args, interpret_finder, trim, FinderOutcome};

fn ids() -> Vec<usize> {
    vec![7, 3, 9]
}

#[test]
fn index_output_chooses_that_line() {
    match interpret_finder(&ids(), Some(0), b"1\n".to_vec()) {
        FinderOutcome::Chosen(id) => assert_eq!(id, 3),
        other => panic!("unexpected {:?}", other),
    }
    match interpret_finder(&ids(), Some(0), b"  +2 \r\n".to_vec()) {
        FinderOutcome::Chosen(id) => assert_eq!(id, 9),
        other => panic!("unexpected {:?}", other),
    }
}

#[test]
fn index_past_the_list_is_invalid() {
    match interpret_finder(&ids(), Some(0), b"3\n".to_vec()) {
        FinderOutcome::InvalidIndex(i) => assert_eq!(i, 3),
        other => panic!("unexpected {:?}", other),
    }
}

#[test]
fn non_numeric_output_is_reported_with_its_text() {
    match interpret_finder(&ids(), Some(0), b"abc\n".to_vec()) {
        FinderOutcome::NotAnIndex { string, .. } => assert_eq!(string, "abc\n"),
        other => panic!("unexpected {:?}", other),
    }
    match interpret_finder(&ids(), Some(0), b"-1".to_vec()) {
        FinderOutcome::NotAnIndex { string, .. } => assert_eq!(string, "-1"),
        other => panic!("unexpected {:?}", other),
    }
    match interpret_finder(&ids(), Some(0), b"99999999999999999999999".to_vec()) {
        FinderOutcome::NotAnIndex { .. } => {}
        other => panic!("unexpected {:?}", other),
    }
}

#[test]
fn non_utf8_output_is_reported() {
    match interpret_finder(&ids(), Some(0), vec![0xff, 0x31]) {
        FinderOutcome::NotUtf8(_) => {}
        other => panic!("unexpected {:?}", other),
    }
}

#[test]
fn no_match_and_interrupt_cancel() {
    assert!(matches!(interpret_finder(&ids(), Some(1), Vec::new()), FinderOutcome::Cancelled));
    assert!(matches!(interpret_finder(&ids(), Some(130), b"0".to_vec()), FinderOutcome::Cancelled));
}

#[test]
fn other_codes_fail_and_no_code_is_a_kill() {
    assert!(matches!(interpret_finder(&ids(), Some(2), Vec::new()), FinderOutcome::Failed(2)));
    assert!(matches!(interpret_finder(&ids(), None, Vec::new()), FinderOutcome::Killed));
}

#[test]
fn trim_removes_unicode_white_space_at_both_ends() {
    assert_eq!(trim(" \t\u{a0}x y\u{3000}\n"), "x y");
    assert_eq!(trim("   "), "");
    assert_eq!(trim(""), "");
    assert_eq!(trim("a"), "a");
}

#[test]
fn fzf_args_put_the_preview_command_before_the_user_options() {
    let args = fzf_args("/usr/bin/keefuzz", vec!["-e".to_string(), "--no-sort".to_string()]);
    assert_eq!(
        args,
        vec![
            "--height=~40%",
            "--reverse",
            "--read0",
            "--delimiter=\\t",
            "--with-nth={1}",
            "--accept-nth={n}",
            "--filepath-word",
            "--preview",
            "/usr/bin/keefuzz --show-preview {}",
            "-e",
            "--no-sort",
        ]
    );
}

#[test]
fn preview_command_quotes_a_program_path_with_spaces() {
    let args = fzf_args("/opt/my tools/keefuzz", Vec::new());
    assert_eq!(args.len(), 9);
    assert_eq!(args[8], "'/opt/my tools/keefuzz' --show-preview {}");
}
