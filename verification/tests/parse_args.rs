use keefuzz::cli::{Arguments, KeeFuzz, KeyProvider};
use lexopt::Parser;

#[test]
fn opts_after_database() {
    let parser = Parser::from_iter(["keefuzz", "passwords.kdbx", "--print"]);
    let args = Arguments::from_parser(parser).unwrap();
    assert_eq!(
        args,
        Arguments::Run(KeeFuzz {
            dbfile: "passwords.kdbx".into(),
            print: true,
            key_provider: KeyProvider::default(),
            fzf_options: Vec::new(),
        })
    );
}

#[test]
fn keefuzz_option_to_fzf() {
    let parser = Parser::from_iter(["keefuzz", "--fzf-options", "-p", "passwords.kdbx"]);
    let args = Arguments::from_parser(parser).unwrap();
    assert_eq!(
        args,
        Arguments::Run(KeeFuzz {
            dbfile: "passwords.kdbx".into(),
            print: false,
            key_provider: KeyProvider::default(),
            fzf_options: vec!["-p".into()],
        })
    );
}

#[test]
fn quoted_fzf_option() {
    let parser = Parser::from_iter([
        "keefuzz",
        "--fzf-options",
        "--preview-label 'Entry Details'",
        "passwords.kdbx",
    ]);
    let args = Arguments::from_parser(parser).unwrap();
    assert_eq!(
        args,
        Arguments::Run(KeeFuzz {
            dbfile: "passwords.kdbx".into(),
            print: false,
            key_provider: KeyProvider::default(),
            fzf_options: vec!["--preview-label".into(), "Entry Details".into()],
        })
    );
}

#[test]
fn later_key_options_replace_earlier_ones() {
    let parser = Parser::from_iter(["keefuzz", "-F", "pw.txt", "db.kdbx", "-k", "key.bin", "--no-key"]);
    let args = Arguments::from_parser(parser).unwrap();
    assert_eq!(
        args,
        Arguments::Run(KeeFuzz {
            dbfile: "db.kdbx".into(),
            print: false,
            key_provider: KeyProvider::NoKey,
            fzf_options: Vec::new(),
        })
    );
    let parser = Parser::from_iter(["keefuzz", "--no-key", "db.kdbx", "--password-file", "pw.txt"]);
    let args = Arguments::from_parser(parser).unwrap();
    assert_eq!(
        args,
        Arguments::Run(KeeFuzz {
            dbfile: "db.kdbx".into(),
            print: false,
            key_provider: KeyProvider::PasswordFile("pw.txt".into()),
            fzf_options: Vec::new(),
        })
    );
}

#[test]
fn help_version_and_preview_end_the_parse() {
    let parser = Parser::from_iter(["keefuzz", "-h", "--bogus"]);
    assert_eq!(Arguments::from_parser(parser).unwrap(), Arguments::Help);
    let parser = Parser::from_iter(["keefuzz", "db.kdbx", "--version"]);
    assert_eq!(Arguments::from_parser(parser).unwrap(), Arguments::Version);
    let parser = Parser::from_iter(["keefuzz", "--show-preview", "a\tb\tc\td", "x", "y"]);
    assert_eq!(
        Arguments::from_parser(parser).unwrap(),
        Arguments::ShowPreview("a\tb\tc\td".into())
    );
}

#[test]
fn missing_database_is_an_error() {
    let parser = Parser::from_iter(["keefuzz", "--print"]);
    let err = Arguments::from_parser(parser).unwrap_err();
    assert_eq!(err.to_string(), "no database specified");
}

#[test]
fn second_database_is_an_error() {
    let parser = Parser::from_iter(["keefuzz", "a.kdbx", "b.kdbx"]);
    assert!(Arguments::from_parser(parser).is_err());
}

#[test]
fn unknown_option_is_an_error() {
    let parser = Parser::from_iter(["keefuzz", "--frobnicate", "a.kdbx"]);
    let err = Arguments::from_parser(parser).unwrap_err();
    assert_eq!(err.to_string(), "invalid option '--frobnicate'");
}

#[test]
fn unsplittable_fzf_options_are_an_error() {
    let parser = Parser::from_iter(["keefuzz", "--fzf-options", "'open", "a.kdbx"]);
    let err = Arguments::from_parser(parser).unwrap_err();
    assert_eq!(
        err.to_string(),
        "failed to split --fzf-options argument: missing closing quote"
    );
}

#[test]
fn missing_option_value_is_an_error() {
    let parser = Parser::from_iter(["keefuzz", "a.kdbx", "--keyfile"]);
    assert!(Arguments::from_parser(parser).is_err());
}

#[test]
fn last_of_the_key_options_wins() {
    let parser = Parser::from_iter([
        "keefuzz", "-F", "pw.txt", "--no-key", "--keyfile", "key.bin", "db.kdbx",
    ]);
    assert_eq!(
        Arguments::from_parser(parser).unwrap(),
        Arguments::Run(KeeFuzz {
            dbfile: "db.kdbx".into(),
            print: false,
            key_provider: KeyProvider::Keyfile("key.bin".into()),
            fzf_options: Vec::new(),
        })
    );
}

#[test]
fn later_fzf_options_replace_earlier_ones() {
    let parser = Parser::from_iter(["keefuzz", "--fzf-options", "-a", "--fzf-options", "-b c", "db.kdbx"]);
    assert_eq!(
        Arguments::from_parser(parser).unwrap(),
        Arguments::Run(KeeFuzz {
            dbfile: "db.kdbx".into(),
            print: false,
            key_provider: KeyProvider::Prompt,
            fzf_options: vec!["-b".into(), "c".into()],
        })
    );
}

#[test]
fn second_positional_value_is_reported_as_unexpected() {
    let parser = Parser::from_iter(["keefuzz", "a.kdbx", "b.kdbx"]);
    match Arguments::from_parser(parser) {
        Err(lexopt::Error::UnexpectedArgument(v)) => assert_eq!(v, "b.kdbx"),
        other => panic!("unexpected {:?}", other),
    }
}

#[test]
fn short_version_after_database_gives_version() {
    let parser = Parser::from_iter(["keefuzz", "passwords.kdbx", "-V"]);
    assert_eq!(Arguments::from_parser(parser).unwrap(), Arguments::Version);
}

#[test]
fn second_positional_value_message_names_it() {
    let parser = Parser::from_iter(["keefuzz", "a.kdbx", "b.kdbx"]);
    let err = Arguments::from_parser(parser).unwrap_err();
    assert_eq!(err.to_string(), "unexpected argument \"b.kdbx\"");
}
