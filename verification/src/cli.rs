//! The command line: which options there are and what they set.

use vstd::prelude::*;
use std::path::PathBuf;
use crate::item::texts;
use crate::order::same_text;

verus! {

/// std's owned filesystem path.
#[verifier::external_type_specification]
#[verifier::external_body]
pub struct ExPathBuf(std::path::PathBuf);

/// lexopt's command-line parser.
#[verifier::external_type_specification]
#[verifier::external_body]
pub struct ExParser(lexopt::Parser);

/// lexopt's error for a command line it cannot make sense of.
#[verifier::external_type_specification]
#[verifier::external_body]
pub struct ExLexoptError(lexopt::Error);

/// shell-words' error for text it cannot split.
#[verifier::external_type_specification]
#[verifier::external_body]
pub struct ExSplitError(shell_words::ParseError);

/// Where the database's key comes from.
#[derive(Debug, PartialEq, Eq)]
pub enum KeyProvider {
    /// The password is asked for on the terminal.
    Prompt,
    /// The password is read from this file.
    PasswordFile(PathBuf),
    /// The database is unlocked with this key file.
    Keyfile(PathBuf),
    /// The database needs no key.
    NoKey,
}

impl Default for KeyProvider {
    /// Asking for the password is the default.
    fn default() -> (r: KeyProvider)
        ensures
            r == KeyProvider::Prompt,
    {
        KeyProvider::Prompt
    }
}

/// What a run over a database is told to do.
#[derive(Debug, PartialEq, Eq)]
pub struct KeeFuzz {
    pub dbfile: PathBuf,
    pub print: bool,
    pub key_provider: KeyProvider,
    pub fzf_options: Vec<String>,
}

/// What the command line asks for.
#[derive(Debug, PartialEq, Eq)]
pub enum Arguments {
    Run(KeeFuzz),
    ShowPreview(String),
    Help,
    Version,
}

/// One command-line argument as lexopt hands it out: a short option, a long
/// option without its dashes, or a positional value.
#[derive(Debug)]
pub enum CliArg {
    Short(char),
    Long(String),
    Value(PathBuf),
}

/// The text of a lexopt error, as its `Display` writes it.
pub uninterp spec fn error_message(e: lexopt::Error) -> Seq<char>;

/// The error for an argument that is not expected where it stands
/// (lexopt's `Arg::unexpected`).
///
/// Trusted: the contract claims, as lexopt's source shows, the message of
/// the error for an unexpected option (`invalid option '-c'` or
/// `invalid option '--name'`), and for a positional value the words that
/// open its message (`unexpected argument `). What follows them, the value
/// as std's `Debug` for `OsStr` quotes and escapes it, is left unsaid.
#[verifier::external_body]
fn unexpected_arg(arg: CliArg) -> (r: lexopt::Error)
    ensures
        arg matches CliArg::Short(c) ==> error_message(r) == "invalid option '-"@ + seq![c] + "'"@,
        arg matches CliArg::Long(name) ==> error_message(r) == "invalid option '--"@ + name@ + "'"@,
        arg is Value ==> "unexpected argument "@.is_prefix_of(error_message(r)),
{
    match arg {
        CliArg::Short(c) => lexopt::Arg::Short(c).unexpected(),
        CliArg::Long(s) => lexopt::Arg::Long(s.as_str()).unexpected(),
        CliArg::Value(v) => lexopt::Arg::Value(v.into_os_string()).unexpected(),
    }
}

/// A usage error with the given message (lexopt's `From<String>` for
/// `Error`).
///
/// Trusted: the contract claims, as lexopt's source shows (a custom error
/// displays as its message), that the error's text is the message.
#[verifier::external_body]
fn usage_error(message: String) -> (r: lexopt::Error)
    ensures
        error_message(r) == message@,
{
    lexopt::Error::from(message)
}

/// The words of a text as a POSIX shell would split it, or `None` when it
/// cannot be split (an open quote).
pub uninterp spec fn shell_words_split(s: Seq<char>) -> Option<Seq<Seq<char>>>;

/// Splits a text into words as a shell would (shell-words' `split`).
///
/// Trusted: the contract claims that the call's result is the value of
/// [`shell_words_split`] on the text, the failure included.
#[verifier::external_body]
fn shell_split(s: &str) -> (r: Result<Vec<String>, shell_words::ParseError>)
    ensures
        r is Ok <==> shell_words_split(s@) is Some,
        r matches Ok(v) ==> texts(v@) == shell_words_split(s@)->0,
{
    shell_words::split(s)
}

/// The message of a split error (shell-words' `Display` for `ParseError`).
///
/// Trusted: the contract claims the one message that shell-words writes.
#[verifier::external_body]
fn split_error_text(e: &shell_words::ParseError) -> (r: String)
    ensures
        r@ == "missing closing quote"@,
{
    e.to_string()
}

/// The message for `--fzf-options` text that cannot be split.
pub fn split_failure_message(e: &shell_words::ParseError) -> (r: String)
    ensures
        r@ == "failed to split --fzf-options argument: "@ + "missing closing quote"@,
{
    let mut m = String::from_str("failed to split --fzf-options argument: ");
    let reason = split_error_text(e);
    m.append(reason.as_str());
    m
}

/// What an argument does.
#[derive(Debug, PartialEq, Eq)]
pub enum ArgRole {
    FzfOptions,
    PasswordFile,
    Keyfile,
    NoKey,
    Print,
    ShowPreview,
    Help,
    Version,
    Database,
    Unexpected,
}

/// The role of an argument: `--fzf-options`, `-F`/`--password-file`,
/// `-k`/`--keyfile`, `--no-key`, `-p`/`--print`, `--show-preview`,
/// `-h`/`--help` and `-V`/`--version` are options; the first positional
/// value names the database; anything else is unexpected.
pub open spec fn spec_arg_role(arg: CliArg, have_database: bool) -> ArgRole {
    match arg {
        CliArg::Long(name) => if name@ == "fzf-options"@ {
            ArgRole::FzfOptions
        } else if name@ == "password-file"@ {
            ArgRole::PasswordFile
        } else if name@ == "keyfile"@ {
            ArgRole::Keyfile
        } else if name@ == "no-key"@ {
            ArgRole::NoKey
        } else if name@ == "print"@ {
            ArgRole::Print
        } else if name@ == "show-preview"@ {
            ArgRole::ShowPreview
        } else if name@ == "help"@ {
            ArgRole::Help
        } else if name@ == "version"@ {
            ArgRole::Version
        } else {
            ArgRole::Unexpected
        },
        CliArg::Short(c) => if c == 'F' {
            ArgRole::PasswordFile
        } else if c == 'k' {
            ArgRole::Keyfile
        } else if c == 'p' {
            ArgRole::Print
        } else if c == 'h' {
            ArgRole::Help
        } else if c == 'V' {
            ArgRole::Version
        } else {
            ArgRole::Unexpected
        },
        CliArg::Value(_) => if have_database {
            ArgRole::Unexpected
        } else {
            ArgRole::Database
        },
    }
}

/// The role of an argument, given whether a database was named already.
pub fn arg_role(arg: &CliArg, have_database: bool) -> (r: ArgRole)
    ensures
        r == spec_arg_role(*arg, have_database),
{
    match arg {
        CliArg::Long(name) => {
            let n = name.as_str();
            if same_text(n, "fzf-options") {
                ArgRole::FzfOptions
            } else if same_text(n, "password-file") {
                ArgRole::PasswordFile
            } else if same_text(n, "keyfile") {
                ArgRole::Keyfile
            } else if same_text(n, "no-key") {
                ArgRole::NoKey
            } else if same_text(n, "print") {
                ArgRole::Print
            } else if same_text(n, "show-preview") {
                ArgRole::ShowPreview
            } else if same_text(n, "help") {
                ArgRole::Help
            } else if same_text(n, "version") {
                ArgRole::Version
            } else {
                ArgRole::Unexpected
            }
        },
        CliArg::Short(c) => {
            if *c == 'F' {
                ArgRole::PasswordFile
            } else if *c == 'k' {
                ArgRole::Keyfile
            } else if *c == 'p' {
                ArgRole::Print
            } else if *c == 'h' {
                ArgRole::Help
            } else if *c == 'V' {
                ArgRole::Version
            } else {
                ArgRole::Unexpected
            }
        },
        CliArg::Value(_) => {
            if have_database {
                ArgRole::Unexpected
            } else {
                ArgRole::Database
            }
        },
    }
}

/// What one read of the command line gave: the next argument, the value of
/// an option, or that value as text.
pub enum ArgRead {
    Next(Result<Option<CliArg>, lexopt::Error>),
    Value(Result<PathBuf, lexopt::Error>),
    Text(Result<String, lexopt::Error>),
}

/// The kinds of read.
pub enum ReadKind {
    Next,
    Value,
    Text,
}

/// The kind of a read.
pub open spec fn read_kind(r: ArgRead) -> ReadKind {
    match r {
        ArgRead::Next(_) => ReadKind::Next,
        ArgRead::Value(_) => ReadKind::Value,
        ArgRead::Text(_) => ReadKind::Text,
    }
}

/// The kinds of a run of reads.
pub open spec fn kinds(log: Seq<ArgRead>) -> Seq<ReadKind> {
    log.map_values(|r: ArgRead| read_kind(r))
}

/// What lexopt gives for a run of reads on a parser that starts as
/// `origin`: `Parser::next` for each `Next`, `Parser::value` for each
/// `Value`, and `ValueExt::string` of the value just read for each `Text`.
/// (lexopt's parser holds the whole command line from the start, so this
/// depends on nothing else.)
pub uninterp spec fn lexopt_reads(origin: lexopt::Parser, calls: Seq<ReadKind>) -> Seq<ArgRead>;

/// How much of the command line a parser that starts as `origin` has left
/// after a run of reads: each argument that `Parser::next` hands out uses
/// some of it up, and reading a value never adds to it.
pub uninterp spec fn lexopt_pending(origin: lexopt::Parser, calls: Seq<ReadKind>) -> nat;

/// A command-line parser that keeps, as a ghost log, every read it made.
pub struct ArgReader {
    parser: lexopt::Parser,
    origin: Ghost<lexopt::Parser>,
    log: Ghost<Seq<ArgRead>>,
}

impl ArgReader {
    /// The parser as it was before any read.
    pub closed spec fn origin(&self) -> lexopt::Parser {
        self.origin@
    }

    /// Every read made so far, in order.
    pub closed spec fn log(&self) -> Seq<ArgRead> {
        self.log@
    }

    /// The reads made so far are what lexopt gives for them.
    pub open spec fn wf(&self) -> bool {
        self.log().len() == 0 || lexopt_reads(self.origin(), kinds(self.log())) == self.log()
    }

    /// How much of the command line is left.
    pub open spec fn pending(&self) -> nat {
        lexopt_pending(self.origin(), kinds(self.log()))
    }

    /// A reader over `parser`, with no reads made.
    pub fn new(parser: lexopt::Parser) -> (r: ArgReader)
        ensures
            r.origin() == parser,
            r.log() == Seq::<ArgRead>::empty(),
            r.wf(),
    {
        let ghost origin = parser;
        ArgReader { parser, origin: Ghost(origin), log: Ghost(Seq::empty()) }
    }

    /// The next argument of the command line (lexopt's `Parser::next`),
    /// `None` once it is used up.
    ///
    /// Trusted: the contract claims that the read is logged and is what
    /// lexopt gives for it, and that an argument handed out uses up some of
    /// the command line.
    #[verifier::external_body]
    fn next_arg(&mut self) -> (r: Result<Option<CliArg>, lexopt::Error>)
        requires
            old(self).wf(),
        ensures
            final(self).origin() == old(self).origin(),
            final(self).log() == old(self).log().push(ArgRead::Next(r)),
            lexopt_reads(final(self).origin(), kinds(final(self).log())) == final(self).log(),
            r matches Ok(Some(_)) ==> lexopt_pending(final(self).origin(), kinds(final(self).log()))
                < lexopt_pending(old(self).origin(), kinds(old(self).log())),
    {
        match self.parser.next() {
            Ok(Some(lexopt::Arg::Short(c))) => Ok(Some(CliArg::Short(c))),
            Ok(Some(lexopt::Arg::Long(s))) => Ok(Some(CliArg::Long(s.to_string()))),
            Ok(Some(lexopt::Arg::Value(v))) => Ok(Some(CliArg::Value(PathBuf::from(v)))),
            Ok(None) => Ok(None),
            Err(e) => Err(e),
        }
    }

    /// The value of the option just read (lexopt's `Parser::value`), taken
    /// even when it looks like an option.
    ///
    /// Trusted: the contract claims that the read is logged and is what
    /// lexopt gives for it, and that it adds nothing to what is left.
    #[verifier::external_body]
    fn option_value(&mut self) -> (r: Result<PathBuf, lexopt::Error>)
        requires
            old(self).wf(),
        ensures
            final(self).origin() == old(self).origin(),
            final(self).log() == old(self).log().push(ArgRead::Value(r)),
            lexopt_reads(final(self).origin(), kinds(final(self).log())) == final(self).log(),
            lexopt_pending(final(self).origin(), kinds(final(self).log())) <= lexopt_pending(
                old(self).origin(),
                kinds(old(self).log()),
            ),
    {
        self.parser.value().map(PathBuf::from)
    }

    /// The value just read, as text (lexopt's `ValueExt::string`), an error
    /// when it is not valid Unicode.
    ///
    /// Trusted: the contract claims that the read is logged and is what
    /// lexopt gives for it, and that it leaves the parser as it was.
    #[verifier::external_body]
    fn value_text(&mut self, value: PathBuf) -> (r: Result<String, lexopt::Error>)
        requires
            old(self).wf(),
            old(self).log().len() > 0,
            old(self).log().last() == ArgRead::Value(Ok(value)),
        ensures
            final(self).origin() == old(self).origin(),
            final(self).log() == old(self).log().push(ArgRead::Text(r)),
            lexopt_reads(final(self).origin(), kinds(final(self).log())) == final(self).log(),
            lexopt_pending(final(self).origin(), kinds(final(self).log())) <= lexopt_pending(
                old(self).origin(),
                kinds(old(self).log()),
            ),
    {
        lexopt::ValueExt::string(value.into_os_string())
    }
}

/// The settings made so far, as values.
pub struct ArgsView {
    pub database: Option<PathBuf>,
    pub print: bool,
    pub key_provider: KeyProvider,
    pub fzf_options: Seq<Seq<char>>,
}

/// A setting made by one argument that the parse goes on after.
pub enum SettingView {
    FzfOptions(Seq<Seq<char>>),
    PasswordFile(PathBuf),
    Keyfile(PathBuf),
    NoKey,
    Print,
    Database(PathBuf),
}

/// The settings before any argument: no database, no printing, the password
/// asked for, no extra finder options.
pub open spec fn initial_view() -> ArgsView {
    ArgsView {
        database: None,
        print: false,
        key_provider: KeyProvider::Prompt,
        fzf_options: Seq::empty(),
    }
}

/// What a setting does to the settings made so far: each replaces what the
/// same kind of setting did before it, and `--print` is never undone.
pub open spec fn spec_apply(s: ArgsView, setting: SettingView) -> ArgsView {
    match setting {
        SettingView::FzfOptions(v) => ArgsView { fzf_options: v, ..s },
        SettingView::PasswordFile(p) => ArgsView { key_provider: KeyProvider::PasswordFile(p), ..s },
        SettingView::Keyfile(p) => ArgsView { key_provider: KeyProvider::Keyfile(p), ..s },
        SettingView::NoKey => ArgsView { key_provider: KeyProvider::NoKey, ..s },
        SettingView::Print => ArgsView { print: true, ..s },
        SettingView::Database(p) => ArgsView { database: Some(p), ..s },
    }
}

/// The settings after a run of settings applied to `start`.
pub open spec fn settle(start: ArgsView, settings: Seq<SettingView>) -> ArgsView
    decreases settings.len(),
{
    if settings.len() == 0 {
        start
    } else {
        spec_apply(settle(start, settings.drop_last()), settings.last())
    }
}

/// `--print` anywhere turns printing on, and no later option turns it off.
pub proof fn lemma_print_is_sticky(start: ArgsView, settings: Seq<SettingView>)
    ensures
        settle(start, settings).print <==> (start.print || exists|i: int|
            0 <= i < settings.len() && #[trigger] settings[i] is Print),
    decreases settings.len(),
{
    if settings.len() > 0 {
        let init = settings.drop_last();
        lemma_print_is_sticky(start, init);
        if exists|i: int| 0 <= i < init.len() && #[trigger] init[i] is Print {
            let i = choose|i: int| 0 <= i < init.len() && #[trigger] init[i] is Print;
            assert(settings[i] is Print);
        }
        if settings.last() is Print {
            assert(settings[settings.len() - 1] is Print);
        }
        if exists|i: int| 0 <= i < settings.len() && #[trigger] settings[i] is Print {
            let i = choose|i: int| 0 <= i < settings.len() && #[trigger] settings[i] is Print;
            if i < init.len() {
                assert(init[i] is Print);
            }
        }
    }
}

/// The setting chooses where the database's key comes from.
pub open spec fn is_key_setting(s: SettingView) -> bool {
    s is PasswordFile || s is Keyfile || s is NoKey
}

/// The key source that a key setting chooses.
pub open spec fn key_of(s: SettingView) -> KeyProvider {
    match s {
        SettingView::PasswordFile(p) => KeyProvider::PasswordFile(p),
        SettingView::Keyfile(p) => KeyProvider::Keyfile(p),
        _ => KeyProvider::NoKey,
    }
}

/// The last of `-F`/`--password-file`, `-k`/`--keyfile` and `--no-key`
/// decides where the key comes from; without any, the starting source
/// stays.
pub proof fn lemma_last_key_option_wins(start: ArgsView, settings: Seq<SettingView>, i: int)
    requires
        -1 <= i < settings.len(),
        i >= 0 ==> is_key_setting(settings[i]),
        forall|j: int| i < j < settings.len() ==> !is_key_setting(#[trigger] settings[j]),
    ensures
        settle(start, settings).key_provider == if i >= 0 {
            key_of(settings[i])
        } else {
            start.key_provider
        },
    decreases settings.len(),
{
    if settings.len() > 0 {
        let init = settings.drop_last();
        if i != settings.len() - 1 {
            assert(!is_key_setting(settings[settings.len() - 1]));
            assert forall|j: int| i < j < init.len() implies !is_key_setting(#[trigger] init[j]) by {
                assert(init[j] == settings[j]);
            }
            lemma_last_key_option_wins(start, init, i);
        }
    }
}

/// The last `--fzf-options` decides the finder's extra options; without
/// any, the starting ones stay.
pub proof fn lemma_last_fzf_options_win(start: ArgsView, settings: Seq<SettingView>, i: int)
    requires
        -1 <= i < settings.len(),
        i >= 0 ==> settings[i] is FzfOptions,
        forall|j: int| i < j < settings.len() ==> !(#[trigger] settings[j] is FzfOptions),
    ensures
        settle(start, settings).fzf_options == if i >= 0 {
            settings[i]->FzfOptions_0
        } else {
            start.fzf_options
        },
    decreases settings.len(),
{
    if settings.len() > 0 {
        let init = settings.drop_last();
        if i != settings.len() - 1 {
            assert(!(settings[settings.len() - 1] is FzfOptions));
            assert forall|j: int| i < j < init.len() implies !(#[trigger] init[j] is FzfOptions) by {
                assert(init[j] == settings[j]);
            }
            lemma_last_fzf_options_win(start, init, i);
        }
    }
}

/// Settling a setting and then a run is settling the run on what that
/// setting made.
proof fn lemma_settle_front(s: ArgsView, first: SettingView, rest: Seq<SettingView>)
    ensures
        settle(s, seq![first] + rest) == settle(spec_apply(s, first), rest),
    decreases rest.len(),
{
    let all = seq![first] + rest;
    if rest.len() == 0 {
        assert(all == seq![first]);
        assert(all.drop_last() == Seq::<SettingView>::empty());
        assert(all.last() == first);
        assert(settle(s, all.drop_last()) == s);
        assert(rest == Seq::<SettingView>::empty());
    } else {
        lemma_settle_front(s, first, rest.drop_last());
        assert(all.drop_last() == seq![first] + rest.drop_last());
        assert(all.last() == rest.last());
        assert(settle(s, all) == spec_apply(settle(s, all.drop_last()), all.last()));
    }
}

/// A run over a database, as values.
pub struct KeeFuzzView {
    pub dbfile: PathBuf,
    pub print: bool,
    pub key_provider: KeyProvider,
    pub fzf_options: Seq<Seq<char>>,
}

/// What the command line asks for, as values.
pub enum ArgumentsView {
    Run(KeeFuzzView),
    ShowPreview(Seq<char>),
    Help,
    Version,
}

impl View for Arguments {
    type V = ArgumentsView;

    open spec fn view(&self) -> ArgumentsView {
        match self {
            Arguments::Run(kf) => ArgumentsView::Run(
                KeeFuzzView {
                    dbfile: kf.dbfile,
                    print: kf.print,
                    key_provider: kf.key_provider,
                    fzf_options: texts(kf.fzf_options@),
                },
            ),
            Arguments::ShowPreview(s) => ArgumentsView::ShowPreview(s@),
            Arguments::Help => ArgumentsView::Help,
            Arguments::Version => ArgumentsView::Version,
        }
    }
}

/// The run that the settings ask for, or `None` when no database is named.
pub open spec fn spec_finish(s: ArgsView) -> Option<ArgumentsView> {
    match s.database {
        Some(db) => Some(
            ArgumentsView::Run(
                KeeFuzzView {
                    dbfile: db,
                    print: s.print,
                    key_provider: s.key_provider,
                    fzf_options: s.fzf_options,
                },
            ),
        ),
        None => None,
    }
}

/// The settings made so far.
pub struct ArgsState {
    pub database: Option<PathBuf>,
    pub print: bool,
    pub key_provider: KeyProvider,
    pub fzf_options: Vec<String>,
}

impl View for ArgsState {
    type V = ArgsView;

    open spec fn view(&self) -> ArgsView {
        ArgsView {
            database: self.database,
            print: self.print,
            key_provider: self.key_provider,
            fzf_options: texts(self.fzf_options@),
        }
    }
}

impl ArgsState {
    /// The settings before any argument.
    pub fn new() -> (r: ArgsState)
        ensures
            r@ == initial_view(),
    {
        let r = ArgsState {
            database: None,
            print: false,
            key_provider: KeyProvider::Prompt,
            fzf_options: Vec::new(),
        };
        assert(texts(r.fzf_options@) == Seq::<Seq<char>>::empty());
        r
    }

    /// The run these settings ask for, or `None` when no database is named.
    pub fn finish(self) -> (r: Option<Arguments>)
        ensures
            match r {
                Some(a) => spec_finish(self@) == Some(a@),
                None => spec_finish(self@) is None,
            },
    {
        match self.database {
            Some(db) => Some(
                Arguments::Run(
                    KeeFuzz {
                        dbfile: db,
                        print: self.print,
                        key_provider: self.key_provider,
                        fzf_options: self.fzf_options,
                    },
                ),
            ),
            None => None,
        }
    }
}

/// How a parse ends.
pub enum ParseOutcome {
    /// The command line asks for this.
    Parsed(ArgumentsView),
    /// lexopt could not read an argument or a value.
    ReadFailed(lexopt::Error),
    /// This argument is not expected where it stands.
    Unexpected(CliArg),
    /// No database is named.
    NoDatabase,
    /// The `--fzf-options` text cannot be split.
    SplitFailed,
}

/// The result answers the outcome: the arguments asked for, lexopt's own
/// error, or an error with the message for what went wrong.
pub open spec fn answers(o: ParseOutcome, r: Result<Arguments, lexopt::Error>) -> bool {
    match o {
        ParseOutcome::Parsed(v) => r matches Ok(a) && a@ == v,
        ParseOutcome::ReadFailed(e) => r == Err::<Arguments, lexopt::Error>(e),
        ParseOutcome::Unexpected(arg) => r matches Err(e) && (arg matches CliArg::Short(c)
            ==> error_message(e) == "invalid option '-"@ + seq![c] + "'"@) && (arg matches CliArg::Long(
            name,
        ) ==> error_message(e) == "invalid option '--"@ + name@ + "'"@) && (arg is Value
            ==> "unexpected argument "@.is_prefix_of(error_message(e))),
        ParseOutcome::NoDatabase => r matches Err(e) && error_message(e) == "no database specified"@,
        ParseOutcome::SplitFailed => r matches Err(e) && error_message(e)
            == "failed to split --fzf-options argument: "@ + "missing closing quote"@,
    }
}

/// Where one step of a parse leads.
pub enum StepResult {
    /// The parse goes on, with this setting made.
    Go(SettingView),
    /// The parse ends so.
    Done(ParseOutcome),
    /// The reads do not make a whole step.
    Incomplete,
}

/// The step for an option that takes a path: the value read is the path.
pub open spec fn path_step(s: ArgsView, rest: Seq<ArgRead>, keyfile: bool) -> (int, StepResult) {
    if rest.len() >= 1 {
        match rest[0] {
            ArgRead::Value(Ok(p)) => (
                2,
                StepResult::Go(
                    if keyfile {
                        SettingView::Keyfile(p)
                    } else {
                        SettingView::PasswordFile(p)
                    },
                ),
            ),
            ArgRead::Value(Err(e)) => (2, StepResult::Done(ParseOutcome::ReadFailed(e))),
            _ => (0, StepResult::Incomplete),
        }
    } else {
        (0, StepResult::Incomplete)
    }
}

/// The step for an option that takes text: the value read, as text, is
/// split into the finder's options (`split`), or is the line to preview.
pub open spec fn text_step(s: ArgsView, rest: Seq<ArgRead>, split: bool) -> (int, StepResult) {
    if rest.len() >= 1 {
        match rest[0] {
            ArgRead::Value(Err(e)) => (2, StepResult::Done(ParseOutcome::ReadFailed(e))),
            ArgRead::Value(Ok(_)) => if rest.len() >= 2 {
                match rest[1] {
                    ArgRead::Text(Err(e)) => (3, StepResult::Done(ParseOutcome::ReadFailed(e))),
                    ArgRead::Text(Ok(t)) => if split {
                        match shell_words_split(t@) {
                            Some(words) => (
                                3,
                                StepResult::Go(SettingView::FzfOptions(words)),
                            ),
                            None => (3, StepResult::Done(ParseOutcome::SplitFailed)),
                        }
                    } else {
                        (3, StepResult::Done(ParseOutcome::Parsed(ArgumentsView::ShowPreview(t@))))
                    },
                    _ => (0, StepResult::Incomplete),
                }
            } else {
                (0, StepResult::Incomplete)
            },
            _ => (0, StepResult::Incomplete),
        }
    } else {
        (0, StepResult::Incomplete)
    }
}

/// One step of the parse from settings `s`, over the reads at the front of
/// `log`: how many reads it takes, and where it leads. The next argument
/// is read; `-h`/`--help` and `-V`/`--version` end the parse; `-F` and
/// `-k` take the next value as the path of a password file or key file;
/// `--fzf-options` takes it as text split into the finder's options;
/// `--show-preview` takes it as the line to preview and ends the parse;
/// `--no-key` and `-p`/`--print` set what they name; the first positional
/// value names the database; anything else is unexpected. When the
/// command line is used up, the settings give the run, if they name a
/// database. A read that fails ends the parse with lexopt's error.
pub open spec fn spec_step(s: ArgsView, log: Seq<ArgRead>) -> (int, StepResult) {
    if log.len() == 0 {
        (0, StepResult::Incomplete)
    } else {
        match log[0] {
            ArgRead::Next(Err(e)) => (1, StepResult::Done(ParseOutcome::ReadFailed(e))),
            ArgRead::Next(Ok(None)) => (
                1,
                StepResult::Done(
                    match spec_finish(s) {
                        Some(a) => ParseOutcome::Parsed(a),
                        None => ParseOutcome::NoDatabase,
                    },
                ),
            ),
            ArgRead::Next(Ok(Some(arg))) => {
                let rest = log.skip(1);
                match spec_arg_role(arg, s.database is Some) {
                    ArgRole::FzfOptions => text_step(s, rest, true),
                    ArgRole::PasswordFile => path_step(s, rest, false),
                    ArgRole::Keyfile => path_step(s, rest, true),
                    ArgRole::NoKey => (1, StepResult::Go(SettingView::NoKey)),
                    ArgRole::Print => (1, StepResult::Go(SettingView::Print)),
                    ArgRole::ShowPreview => text_step(s, rest, false),
                    ArgRole::Help => (1, StepResult::Done(ParseOutcome::Parsed(ArgumentsView::Help))),
                    ArgRole::Version => (
                        1,
                        StepResult::Done(ParseOutcome::Parsed(ArgumentsView::Version)),
                    ),
                    ArgRole::Database => match arg {
                        CliArg::Value(p) => (
                            1,
                            StepResult::Go(SettingView::Database(p)),
                        ),
                        _ => (0, StepResult::Incomplete),
                    },
                    ArgRole::Unexpected => (1, StepResult::Done(ParseOutcome::Unexpected(arg))),
                }
            },
            _ => (0, StepResult::Incomplete),
        }
    }
}

/// Where a run of reads takes a parse.
pub enum RunResult {
    /// The reads end between steps, with these settings made.
    Going(ArgsView),
    /// The parse ended so, with the last read.
    Ended(ParseOutcome),
    /// The reads do not make whole steps.
    Broken,
}

/// The parse from settings `s` over a whole run of reads: step after step
/// while the parse goes on, the settings reached when the reads run out
/// between steps, or how the parse ended with the last read.
pub open spec fn run_steps(s: ArgsView, log: Seq<ArgRead>) -> RunResult
    decreases log.len(),
{
    if log.len() == 0 {
        RunResult::Going(s)
    } else {
        let (n, res) = spec_step(s, log);
        if n <= 0 || n > log.len() {
            RunResult::Broken
        } else {
            match res {
                StepResult::Go(setting) => run_steps(spec_apply(s, setting), log.skip(n)),
                StepResult::Done(o) => if n == log.len() {
                    RunResult::Ended(o)
                } else {
                    RunResult::Broken
                },
                StepResult::Incomplete => RunResult::Broken,
            }
        }
    }
}

/// The settings that the steps of a run of reads make, in order.
pub open spec fn run_settings(s: ArgsView, log: Seq<ArgRead>) -> Seq<SettingView>
    decreases log.len(),
{
    if log.len() == 0 {
        Seq::empty()
    } else {
        let (n, res) = spec_step(s, log);
        if n <= 0 || n > log.len() {
            Seq::empty()
        } else {
            match res {
                StepResult::Go(setting) => seq![setting] + run_settings(
                    spec_apply(s, setting),
                    log.skip(n),
                ),
                _ => Seq::empty(),
            }
        }
    }
}

/// Where a single whole step takes a run.
pub open spec fn run_of_step(s: ArgsView, res: StepResult) -> RunResult {
    match res {
        StepResult::Go(setting) => RunResult::Going(spec_apply(s, setting)),
        StepResult::Done(o) => RunResult::Ended(o),
        StepResult::Incomplete => RunResult::Broken,
    }
}

/// A parse is its settings, settled: the settings a run of reads has
/// reached are those its steps made, applied in order to the start, and a
/// run it ends with is the one those settings ask for. So the laws of
/// [`settle`] hold of what [`Arguments::from_parser`] returns.
pub proof fn lemma_run_is_settle(s: ArgsView, log: Seq<ArgRead>)
    ensures
        run_steps(s, log) matches RunResult::Going(t) ==> t == settle(s, run_settings(s, log)),
        run_steps(s, log) matches RunResult::Ended(ParseOutcome::Parsed(ArgumentsView::Run(k)))
            ==> spec_finish(settle(s, run_settings(s, log))) == Some(ArgumentsView::Run(k)),
        run_steps(s, log) matches RunResult::Ended(ParseOutcome::NoDatabase) ==> settle(
            s,
            run_settings(s, log),
        ).database is None,
    decreases log.len(),
{
    if log.len() > 0 {
        let (n, res) = spec_step(s, log);
        if 0 < n <= log.len() {
            if res is Go {
                let setting = res->Go_0;
                lemma_run_is_settle(spec_apply(s, setting), log.skip(n));
                lemma_settle_front(s, setting, run_settings(spec_apply(s, setting), log.skip(n)));
            }
        }
    }
}

/// The short option `c` is another name for the long option `name`:
/// `-F`/`--password-file`, `-k`/`--keyfile`, `-p`/`--print`, `-h`/`--help`
/// and `-V`/`--version`.
pub open spec fn is_alias(c: char, name: Seq<char>) -> bool {
    ||| c == 'F' && name == "password-file"@
    ||| c == 'k' && name == "keyfile"@
    ||| c == 'p' && name == "print"@
    ||| c == 'h' && name == "help"@
    ||| c == 'V' && name == "version"@
}

/// A short option and its long name have one role.
proof fn lemma_alias_role(c: char, name: String, have_database: bool)
    requires
        is_alias(c, name@),
    ensures
        spec_arg_role(CliArg::Short(c), have_database) == spec_arg_role(CliArg::Long(name), have_database),
{
    reveal_strlit("fzf-options");
    reveal_strlit("password-file");
    reveal_strlit("keyfile");
    reveal_strlit("no-key");
    reveal_strlit("print");
    reveal_strlit("show-preview");
    reveal_strlit("help");
    reveal_strlit("version");
    let n = name@;
    assert(n.len() == 13 || n.len() == 7 || n.len() == 5 || n.len() == 4);
    assert("fzf-options"@.len() == 11);
    assert("no-key"@.len() == 6);
    assert("show-preview"@.len() == 12);
    if c == 'k' {
        assert(n != "version"@) by {
            assert(n[0] != "version"@[0]);
        }
    }
    if c == 'V' {
        assert(n != "keyfile"@) by {
            assert(n[0] != "keyfile"@[0]);
        }
    }
}

/// A short option and its long name are interchangeable: written in place
/// of the other anywhere in a command line, it leaves the parse where it
/// was, step by step and at its end, so [`Arguments::from_parser`] answers
/// both command lines alike.
pub proof fn lemma_short_option_is_long_option(
    s: ArgsView,
    a: Seq<ArgRead>,
    b: Seq<ArgRead>,
    c: char,
    name: String,
)
    requires
        is_alias(c, name@),
    ensures
        spec_arg_role(CliArg::Short(c), s.database is Some) == spec_arg_role(
            CliArg::Long(name),
            s.database is Some,
        ),
        spec_step(s, a + seq![ArgRead::Next(Ok(Some(CliArg::Short(c))))] + b) == spec_step(
            s,
            a + seq![ArgRead::Next(Ok(Some(CliArg::Long(name))))] + b,
        ),
        run_steps(s, a + seq![ArgRead::Next(Ok(Some(CliArg::Short(c))))] + b) == run_steps(
            s,
            a + seq![ArgRead::Next(Ok(Some(CliArg::Long(name))))] + b,
        ),
    decreases a.len(),
{
    lemma_alias_role(c, name, s.database is Some);
    let x = ArgRead::Next(Ok(Some(CliArg::Short(c))));
    let y = ArgRead::Next(Ok(Some(CliArg::Long(name))));
    let l1 = a + seq![x] + b;
    let l2 = a + seq![y] + b;
    let k = a.len() as int;
    assert(l1.len() == l2.len());
    assert(l1[k] == x);
    assert(l2[k] == y);
    assert forall|i: int| 0 <= i < l1.len() && i != k implies l1[i] == l2[i] by {
        if i < k {
            assert(l1[i] == a[i]);
            assert(l2[i] == a[i]);
        } else {
            assert(l1[i] == b[i - k - 1]);
            assert(l2[i] == b[i - k - 1]);
        }
    }
    let r1 = l1.skip(1);
    let r2 = l2.skip(1);
    assert(forall|j: int| 0 <= j < r1.len() && j != k - 1 ==> r1[j] == l1[j + 1] && r2[j] == l2[j + 1]);
    if k > 0 {
        assert(l1[0] == l2[0]);
        if k > 1 {
            assert(r1[0] == r2[0]);
        } else {
            assert(r1[0] == x);
            assert(r2[0] == y);
        }
        if r1.len() >= 2 {
            if k != 2 {
                assert(r1[1] == r2[1]);
            } else {
                assert(r1[1] == x);
                assert(r2[1] == y);
            }
        }
    } else {
        assert(r1 =~= r2);
    }
    assert(spec_step(s, l1) == spec_step(s, l2));
    let (n, res) = spec_step(s, l1);
    if 0 < n <= l1.len() && res is Go {
        if k == 0 {
            assert(l1.skip(n) =~= l2.skip(n));
        } else {
            assert(n <= k);
            lemma_short_option_is_long_option(spec_apply(s, res->Go_0), a.skip(n), b, c, name);
            assert(l1.skip(n) =~= a.skip(n) + seq![x] + b);
            assert(l2.skip(n) =~= a.skip(n) + seq![y] + b);
        }
    }
}

/// Each option does what it names, and nothing else: `-p` turns printing
/// on, `--no-key` asks for no key, `-F` and `-k` take the next value as the
/// password file or key file, the first positional value names the
/// database and a second one is unexpected, `-h` and `-V` end the parse
/// with a request for help or the version, and at the end of the command
/// line the settings made give the run (or, with no database, the error).
/// By [`lemma_short_option_is_long_option`] the long names do the same.
pub proof fn lemma_options_do_what_they_name(
    s: ArgsView,
    rest: Seq<ArgRead>,
    p: PathBuf,
    no_key: String,
)
    ensures
        run_steps(s, seq![ArgRead::Next(Ok(Some(CliArg::Short('p'))))] + rest) == run_steps(
            ArgsView { print: true, ..s },
            rest,
        ),
        no_key@ == "no-key"@ ==> run_steps(s, seq![ArgRead::Next(Ok(Some(CliArg::Long(no_key))))] + rest)
            == run_steps(ArgsView { key_provider: KeyProvider::NoKey, ..s }, rest),
        run_steps(
            s,
            seq![ArgRead::Next(Ok(Some(CliArg::Short('F')))), ArgRead::Value(Ok(p))] + rest,
        ) == run_steps(ArgsView { key_provider: KeyProvider::PasswordFile(p), ..s }, rest),
        run_steps(
            s,
            seq![ArgRead::Next(Ok(Some(CliArg::Short('k')))), ArgRead::Value(Ok(p))] + rest,
        ) == run_steps(ArgsView { key_provider: KeyProvider::Keyfile(p), ..s }, rest),
        s.database is None ==> run_steps(s, seq![ArgRead::Next(Ok(Some(CliArg::Value(p))))] + rest)
            == run_steps(ArgsView { database: Some(p), ..s }, rest),
        s.database is Some ==> spec_step(s, seq![ArgRead::Next(Ok(Some(CliArg::Value(p))))] + rest)
            == (1int, StepResult::Done(ParseOutcome::Unexpected(CliArg::Value(p)))),
        spec_step(s, seq![ArgRead::Next(Ok(Some(CliArg::Short('h'))))] + rest) == (
            1int,
            StepResult::Done(ParseOutcome::Parsed(ArgumentsView::Help)),
        ),
        spec_step(s, seq![ArgRead::Next(Ok(Some(CliArg::Short('V'))))] + rest) == (
            1int,
            StepResult::Done(ParseOutcome::Parsed(ArgumentsView::Version)),
        ),
        run_steps(s, seq![ArgRead::Next(Ok(None))]) == RunResult::Ended(
            match s.database {
                Some(db) => ParseOutcome::Parsed(
                    ArgumentsView::Run(
                        KeeFuzzView {
                            dbfile: db,
                            print: s.print,
                            key_provider: s.key_provider,
                            fzf_options: s.fzf_options,
                        },
                    ),
                ),
                None => ParseOutcome::NoDatabase,
            },
        ),
{
    reveal_strlit("fzf-options");
    reveal_strlit("password-file");
    reveal_strlit("keyfile");
    reveal_strlit("no-key");
    reveal_strlit("print");
    assert((seq![ArgRead::Next(Ok(Some(CliArg::Short('p'))))] + rest).skip(1) =~= rest);
    assert((seq![ArgRead::Next(Ok(Some(CliArg::Long(no_key))))] + rest).skip(1) =~= rest);
    assert((seq![ArgRead::Next(Ok(Some(CliArg::Value(p))))] + rest).skip(1) =~= rest);
    let f = seq![ArgRead::Next(Ok(Some(CliArg::Short('F')))), ArgRead::Value(Ok(p))] + rest;
    let k = seq![ArgRead::Next(Ok(Some(CliArg::Short('k')))), ArgRead::Value(Ok(p))] + rest;
    assert(f.skip(1)[0] == ArgRead::Value(Ok(p)));
    assert(k.skip(1)[0] == ArgRead::Value(Ok(p)));
    assert(f.skip(2) =~= rest);
    assert(k.skip(2) =~= rest);
    assert("no-key"@.len() == 6);
    assert("fzf-options"@.len() == 11);
    assert("password-file"@.len() == 13);
    assert("keyfile"@.len() == 7);
}

/// A step never takes a second database: once one is named, what the step
/// sets leaves it as it is.
pub proof fn lemma_database_named_once(s: ArgsView, log: Seq<ArgRead>)
    requires
        s.database is Some,
        spec_step(s, log).1 is Go,
    ensures
        spec_apply(s, spec_step(s, log).1->Go_0).database == s.database,
{
}

/// One step of the parse, over `reads`, from settings `s`: it takes all of
/// `reads`, and the result and settings after it are where the step leads.
pub open spec fn step_answers(
    s: ArgsView,
    reads: Seq<ArgRead>,
    r: Option<Result<Arguments, lexopt::Error>>,
    s2: ArgsView,
) -> bool {
    let (n, res) = spec_step(s, reads);
    &&& n == reads.len()
    &&& match res {
        StepResult::Go(setting) => r is None && s2 == spec_apply(s, setting),
        StepResult::Done(o) => r matches Some(x) && answers(o, x),
        StepResult::Incomplete => false,
    }
}

/// A step over a run of reads looks at no read past the ones it takes.
proof fn lemma_step_prefix(s: ArgsView, a: Seq<ArgRead>, m: Seq<ArgRead>)
    requires
        0 < spec_step(s, a).0 <= a.len(),
        !(spec_step(s, a).1 is Incomplete),
    ensures
        spec_step(s, a + m) == spec_step(s, a),
{
    let b = a + m;
    assert(b[0] == a[0]);
    assert(b.skip(1).len() >= a.skip(1).len());
    if a.len() >= 2 {
        assert(b.skip(1)[0] == a.skip(1)[0]);
    }
    if a.len() >= 3 {
        assert(b.skip(1)[1] == a.skip(1)[1]);
    }
}

/// Appending a whole step to a run of reads that left the parse going on
/// takes the parse where that step leads.
proof fn lemma_run_steps_extend(s: ArgsView, a: Seq<ArgRead>, t: ArgsView, m: Seq<ArgRead>)
    requires
        run_steps(s, a) == RunResult::Going(t),
        spec_step(t, m).0 == m.len(),
        m.len() > 0,
        !(spec_step(t, m).1 is Incomplete),
    ensures
        run_steps(s, a + m) == run_of_step(t, spec_step(t, m).1),
    decreases a.len(),
{
    if a.len() == 0 {
        assert(a + m == m);
        assert(m.skip(m.len() as int) == Seq::<ArgRead>::empty());
        if spec_step(t, m).1 is Go {
            let t2 = spec_apply(t, spec_step(t, m).1->Go_0);
            assert(run_steps(t2, Seq::<ArgRead>::empty()) == RunResult::Going(t2));
        }
    } else {
        let (n1, res1) = spec_step(s, a);
        let s1 = spec_apply(s, res1->Go_0);
        lemma_step_prefix(s, a, m);
        assert((a + m).skip(n1) == a.skip(n1) + m);
        lemma_run_steps_extend(s1, a.skip(n1), t, m);
    }
}

/// Reads the value of the option that opened this step, whose read is the
/// one logged since `base`.
fn read_option_value(
    reader: &mut ArgReader,
    Ghost(base): Ghost<Seq<ArgRead>>,
    Ghost(first): Ghost<ArgRead>,
) -> (r: Result<PathBuf, lexopt::Error>)
    requires
        old(reader).wf(),
        base.len() <= old(reader).log().len(),
        old(reader).log().take(base.len() as int) == base,
        old(reader).log().skip(base.len() as int) == seq![first],
    ensures
        final(reader).wf(),
        final(reader).origin() == old(reader).origin(),
        final(reader).log().len() == old(reader).log().len() + 1,
        final(reader).log().take(base.len() as int) == base,
        final(reader).log().skip(base.len() as int) == seq![first, ArgRead::Value(r)],
        final(reader).log().skip(base.len() as int).skip(1) == seq![ArgRead::Value(r)],
        final(reader).log().last() == ArgRead::Value(r),
        final(reader).pending() <= old(reader).pending(),
{
    let ghost before = reader.log();
    let value = reader.option_value();
    proof {
        let log = reader.log();
        assert(log.take(base.len() as int) == base);
        assert(log.skip(base.len() as int) =~= before.skip(base.len() as int).push(ArgRead::Value(value)));
        assert(log.skip(base.len() as int) == seq![first, ArgRead::Value(value)]);
        assert(log.skip(base.len() as int).skip(1) == seq![ArgRead::Value(value)]);
    }
    value
}

/// Reads as text the option value just read, the second read logged since
/// `base`.
fn read_value_text(
    reader: &mut ArgReader,
    value: PathBuf,
    Ghost(base): Ghost<Seq<ArgRead>>,
    Ghost(first): Ghost<ArgRead>,
) -> (r: Result<String, lexopt::Error>)
    requires
        old(reader).wf(),
        base.len() <= old(reader).log().len(),
        old(reader).log().take(base.len() as int) == base,
        old(reader).log().skip(base.len() as int) == seq![first, ArgRead::Value(Ok(value))],
    ensures
        final(reader).wf(),
        final(reader).origin() == old(reader).origin(),
        final(reader).log().len() == old(reader).log().len() + 1,
        final(reader).log().take(base.len() as int) == base,
        final(reader).log().skip(base.len() as int) == seq![
            first,
            ArgRead::Value(Ok(value)),
            ArgRead::Text(r),
        ],
        final(reader).log().skip(base.len() as int).skip(1) == seq![
            ArgRead::Value(Ok(value)),
            ArgRead::Text(r),
        ],
        final(reader).pending() <= old(reader).pending(),
{
    let ghost before = reader.log();
    proof {
        assert(before.last() == before.skip(base.len() as int).last());
    }
    let text = reader.value_text(value);
    proof {
        let log = reader.log();
        assert(log.take(base.len() as int) == base);
        assert(log.skip(base.len() as int) =~= before.skip(base.len() as int).push(ArgRead::Text(text)));
        assert(log.skip(base.len() as int) == seq![first, ArgRead::Value(Ok(value)), ArgRead::Text(text)]);
        assert(log.skip(base.len() as int).skip(1) == seq![ArgRead::Value(Ok(value)), ArgRead::Text(text)]);
    }
    text
}

/// Reads one step of the command line, from settings `state`: either the
/// parse goes on (`None`, with `state` updated) or it ends with the
/// result. What it reads, in order, and where that leads are
/// [`spec_step`]'s.
pub fn parse_step(state: &mut ArgsState, reader: &mut ArgReader) -> (r: Option<
    Result<Arguments, lexopt::Error>,
>)
    requires
        old(reader).wf(),
    ensures
        final(reader).wf(),
        final(reader).origin() == old(reader).origin(),
        old(reader).log().len() < final(reader).log().len(),
        final(reader).log().take(old(reader).log().len() as int) == old(reader).log(),
        step_answers(
            old(state)@,
            final(reader).log().skip(old(reader).log().len() as int),
            r,
            final(state)@,
        ),
        r is None ==> final(reader).pending() < old(reader).pending(),
{
    let ghost s0 = state@;
    let ghost base = reader.log();
    let next = reader.next_arg();
    let ghost after_next = reader.log();
    proof {
        assert(after_next.take(base.len() as int) == base);
        assert(after_next.skip(base.len() as int) == seq![ArgRead::Next(next)]);
    }
    let arg = match next {
        Err(e) => {
            return Some(Err(e));
        },
        Ok(None) => {
            let mut taken = ArgsState::new();
            std::mem::swap(state, &mut taken);
            return Some(
                match taken.finish() {
                    Some(a) => Ok(a),
                    None => Err(usage_error(String::from_str("no database specified"))),
                },
            );
        },
        Ok(Some(a)) => a,
    };
    let ghost seen = arg;
    let role = arg_role(&arg, state.database.is_some());
    match role {
        ArgRole::FzfOptions => {
            let value = read_option_value(reader, Ghost(base), Ghost(ArgRead::Next(next)));
            let value = match value {
                Ok(v) => v,
                Err(e) => return Some(Err(e)),
            };
            let text = read_value_text(reader, value, Ghost(base), Ghost(ArgRead::Next(next)));
            let text = match text {
                Ok(t) => t,
                Err(e) => return Some(Err(e)),
            };
            match shell_split(text.as_str()) {
                Ok(words) => {
                    state.fzf_options = words;
                    None
                },
                Err(e) => Some(Err(usage_error(split_failure_message(&e)))),
            }
        },
        ArgRole::ShowPreview => {
            let value = read_option_value(reader, Ghost(base), Ghost(ArgRead::Next(next)));
            let value = match value {
                Ok(v) => v,
                Err(e) => return Some(Err(e)),
            };
            let text = read_value_text(reader, value, Ghost(base), Ghost(ArgRead::Next(next)));
            match text {
                Ok(t) => Some(Ok(Arguments::ShowPreview(t))),
                Err(e) => Some(Err(e)),
            }
        },
        ArgRole::PasswordFile => {
            let value = read_option_value(reader, Ghost(base), Ghost(ArgRead::Next(next)));
            match value {
                Ok(p) => {
                    state.key_provider = KeyProvider::PasswordFile(p);
                    None
                },
                Err(e) => Some(Err(e)),
            }
        },
        ArgRole::Keyfile => {
            let value = read_option_value(reader, Ghost(base), Ghost(ArgRead::Next(next)));
            match value {
                Ok(p) => {
                    state.key_provider = KeyProvider::Keyfile(p);
                    None
                },
                Err(e) => Some(Err(e)),
            }
        },
        ArgRole::NoKey => {
            state.key_provider = KeyProvider::NoKey;
            None
        },
        ArgRole::Print => {
            state.print = true;
            None
        },
        ArgRole::Help => Some(Ok(Arguments::Help)),
        ArgRole::Version => Some(Ok(Arguments::Version)),
        ArgRole::Database => match arg {
            CliArg::Value(p) => {
                state.database = Some(p);
                None
            },
            CliArg::Short(c) => {
                assert(false);
                Some(Err(unexpected_arg(CliArg::Short(c))))
            },
            CliArg::Long(s) => {
                assert(false);
                Some(Err(unexpected_arg(CliArg::Long(s))))
            },
        },
        ArgRole::Unexpected => Some(Err(unexpected_arg(arg))),
    }
}

impl Arguments {
    /// Reads the command line from `reader`, step after step, until a step
    /// ends the parse: the result is where [`run_steps`] takes the reads
    /// made, from the initial settings.
    pub fn parse_args(reader: &mut ArgReader) -> (r: Result<Arguments, lexopt::Error>)
        requires
            old(reader).wf(),
        ensures
            final(reader).wf(),
            final(reader).origin() == old(reader).origin(),
            old(reader).log().len() < final(reader).log().len(),
            final(reader).log().take(old(reader).log().len() as int) == old(reader).log(),
            run_steps(initial_view(), final(reader).log().skip(old(reader).log().len() as int)) matches RunResult::Ended(o)
                && answers(o, r),
    {
        let ghost base = reader.log();
        let ghost origin = reader.origin();
        let mut state = ArgsState::new();
        proof {
            assert(reader.log().skip(base.len() as int) == Seq::<ArgRead>::empty());
            assert(reader.log().take(base.len() as int) == base);
        }
        loop
            invariant
                reader.wf(),
                reader.origin() == origin,
                origin == old(reader).origin(),
                base == old(reader).log(),
                base.len() <= reader.log().len(),
                reader.log().take(base.len() as int) == base,
                run_steps(initial_view(), reader.log().skip(base.len() as int)) == RunResult::Going(state@),
            decreases reader.pending(),
        {
            let ghost before = reader.log();
            let ghost s_before = state@;
            let step = parse_step(&mut state, reader);
            proof {
                let after = reader.log();
                let m = after.skip(before.len() as int);
                assert(after.skip(base.len() as int) == before.skip(base.len() as int) + m);
                assert(after.take(base.len() as int) == base);
                lemma_run_steps_extend(initial_view(), before.skip(base.len() as int), s_before, m);
            }
            match step {
                Some(r) => {
                    return r;
                },
                None => {},
            }
        }
    }

    /// Reads the command line: options set the database's key source, the
    /// finder's extra options and printing, each later one replacing an
    /// earlier one of its kind; `--help`, `--version` and `--show-preview`
    /// end the parse at once; the first positional value names the
    /// database. A second positional value, an unknown option, a missing
    /// option value, `--fzf-options` text that cannot be split, and a
    /// command line with no database are errors. The result is where
    /// [`run_steps`] takes what lexopt reads from `parser`.
    pub fn from_parser(parser: lexopt::Parser) -> (r: Result<Arguments, lexopt::Error>)
        ensures
            exists|log: Seq<ArgRead>|
                {
                    &&& #[trigger] lexopt_reads(parser, kinds(log)) == log
                    &&& run_steps(initial_view(), log) matches RunResult::Ended(o) && answers(o, r)
                },
    {
        let mut reader = ArgReader::new(parser);
        let r = Arguments::parse_args(&mut reader);
        proof {
            let log = reader.log();
            assert(log.skip(0) == log);
            assert(lexopt_reads(parser, kinds(log)) == log);
        }
        r
    }
}

} // verus!
