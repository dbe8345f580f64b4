//! What the fuzzy finder is given and what its answer means.

use vstd::prelude::*;
use vstd::utf8::{valid_utf8, decode_utf8};
use crate::text::{push_char, chars_of};
use crate::item::texts;

verus! {

/// The words joined into one line that a POSIX shell splits back into
/// them, each quoted only as far as it needs.
pub uninterp spec fn shell_words_join(words: Seq<Seq<char>>) -> Seq<char>;

/// Joins words into a shell command line (shell-words' `join`).
///
/// Trusted: the contract claims that the call's result is the value of
/// [`shell_words_join`] on the words.
#[verifier::external_body]
fn shell_join(words: &Vec<String>) -> (r: String)
    ensures
        r@ == shell_words_join(texts(words@)),
{
    shell_words::join(words)
}

/// The options that every run gives the finder before the preview
/// command: a reverse list of at most about 40% of the terminal, records
/// ended by NUL and split at TAB, only the first field shown and searched
/// as a path, the chosen line's index as the answer, and a preview.
pub open spec fn fixed_fzf_options() -> Seq<Seq<char>> {
    seq![
        "--height=~40%"@,
        "--reverse"@,
        "--read0"@,
        "--delimiter=\\t"@,
        "--with-nth={1}"@,
        "--accept-nth={n}"@,
        "--filepath-word"@,
        "--preview"@,
    ]
}

/// The preview command: this program run with `--show-preview` on the
/// highlighted line, as one shell command line.
pub open spec fn preview_command(this_bin: Seq<char>) -> Seq<char> {
    shell_words_join(seq![this_bin, "--show-preview"@, "{}"@])
}

/// The finder's command-line arguments: the fixed options, the preview
/// command for the program at `this_bin`, then the user's extra options.
pub fn fzf_args(this_bin: &str, fzf_options: Vec<String>) -> (r: Vec<String>)
    ensures
        texts(r@) == fixed_fzf_options() + seq![preview_command(this_bin@)] + texts(fzf_options@),
{
    let mut words: Vec<String> = Vec::new();
    words.push(String::from_str(this_bin));
    words.push(String::from_str("--show-preview"));
    words.push(String::from_str("{}"));
    assert(texts(words@) == seq![this_bin@, "--show-preview"@, "{}"@]);
    let preview = shell_join(&words);
    let mut r: Vec<String> = Vec::new();
    r.push(String::from_str("--height=~40%"));
    r.push(String::from_str("--reverse"));
    r.push(String::from_str("--read0"));
    r.push(String::from_str("--delimiter=\\t"));
    r.push(String::from_str("--with-nth={1}"));
    r.push(String::from_str("--accept-nth={n}"));
    r.push(String::from_str("--filepath-word"));
    r.push(String::from_str("--preview"));
    r.push(preview);
    let ghost head = texts(r@);
    assert(head == fixed_fzf_options() + seq![preview_command(this_bin@)]);
    let mut extra = fzf_options;
    let ghost extra_before = extra@;
    r.append(&mut extra);
    assert(texts(r@) =~= head + texts(extra_before));
    r
}

/// std's error for bytes that are not UTF-8.
#[verifier::external_type_specification]
#[verifier::external_body]
pub struct ExFromUtf8Error(std::string::FromUtf8Error);

/// std's error for text that is not a number of the wanted type.
#[verifier::external_type_specification]
#[verifier::external_body]
pub struct ExParseIntError(core::num::ParseIntError);

/// Decodes UTF-8 bytes into a `String` (std's `String::from_utf8`).
///
/// Trusted: the contract claims, as std documents, that the bytes come back
/// as text exactly when they are valid UTF-8, and that the text is what they
/// encode.
#[verifier::external_body]
fn string_from_utf8(bytes: Vec<u8>) -> (r: Result<String, std::string::FromUtf8Error>)
    ensures
        r is Ok <==> valid_utf8(bytes@),
        r matches Ok(s) ==> s@ == decode_utf8(bytes@),
{
    String::from_utf8(bytes)
}

/// The character is a decimal digit.
pub open spec fn is_digit(c: char) -> bool {
    '0' <= c <= '9'
}

/// The number that a run of decimal digits writes.
pub open spec fn digits_value(s: Seq<char>) -> nat
    decreases s.len(),
{
    if s.len() == 0 {
        0
    } else {
        digits_value(s.drop_last()) * 10 + ((s.last() as nat) - ('0' as nat)) as nat
    }
}

/// The number that `s` writes in decimal, with an optional leading `+`,
/// when it is nothing but that.
pub open spec fn decimal_value(s: Seq<char>) -> Option<nat> {
    let d = if s.len() > 0 && s[0] == '+' {
        s.drop_first()
    } else {
        s
    };
    if d.len() > 0 && (forall|i: int| 0 <= i < d.len() ==> is_digit(d[i])) {
        Some(digits_value(d))
    } else {
        None
    }
}

/// Reads an index written in decimal (std's `str::parse::<usize>`).
///
/// Trusted: the contract claims, as std documents for unsigned integers,
/// that parsing succeeds exactly when the text is an optional `+` followed
/// by one or more decimal digits whose value fits in `usize`, and then
/// gives that value.
#[verifier::external_body]
fn parse_usize(s: &str) -> (r: Result<usize, core::num::ParseIntError>)
    ensures
        r is Ok <==> (decimal_value(s@) matches Some(v) && v <= usize::MAX),
        r matches Ok(n) ==> decimal_value(s@) == Some(n as nat),
{
    s.parse::<usize>()
}

/// The character has Unicode's White_Space property.
pub open spec fn is_white_space(c: char) -> bool {
    ('\u{9}' <= c <= '\u{d}') || c == ' ' || c == '\u{85}' || c == '\u{a0}' || c == '\u{1680}'
        || ('\u{2000}' <= c <= '\u{200a}') || c == '\u{2028}' || c == '\u{2029}'
        || c == '\u{202f}' || c == '\u{205f}' || c == '\u{3000}'
}

/// Whether the character is white space in Unicode's sense.
pub fn char_is_white_space(c: char) -> (r: bool)
    ensures
        r == is_white_space(c),
{
    ('\u{9}' <= c && c <= '\u{d}') || c == ' ' || c == '\u{85}' || c == '\u{a0}' || c == '\u{1680}'
        || ('\u{2000}' <= c && c <= '\u{200a}') || c == '\u{2028}' || c == '\u{2029}'
        || c == '\u{202f}' || c == '\u{205f}' || c == '\u{3000}'
}

/// `s` without its leading white space.
pub open spec fn trim_start(s: Seq<char>) -> Seq<char>
    decreases s.len(),
{
    if s.len() > 0 && is_white_space(s[0]) {
        trim_start(s.drop_first())
    } else {
        s
    }
}

/// `s` without its trailing white space.
pub open spec fn trim_end(s: Seq<char>) -> Seq<char>
    decreases s.len(),
{
    if s.len() > 0 && is_white_space(s.last()) {
        trim_end(s.drop_last())
    } else {
        s
    }
}

/// `s` without leading and trailing white space, as std's `str::trim`.
pub open spec fn spec_trim(s: Seq<char>) -> Seq<char> {
    trim_end(trim_start(s))
}

/// `s` without leading and trailing white space.
pub fn trim(s: &str) -> (r: String)
    ensures
        r@ == spec_trim(s@),
{
    let v = chars_of(s);
    let n = v.len();
    let mut i: usize = 0;
    assert(s@.skip(0) == s@);
    while i < n && char_is_white_space(v[i])
        invariant
            v@ == s@,
            n == v.len(),
            i <= n,
            trim_start(s@) == trim_start(s@.skip(i as int)),
        decreases n - i,
    {
        assert(s@.skip(i as int).drop_first() == s@.skip(i + 1));
        i = i + 1;
    }
    let ghost t = s@.skip(i as int);
    assert(trim_start(s@) == t);
    let mut j: usize = n;
    assert(t.take(n - i) == t);
    while j > i && char_is_white_space(v[j - 1])
        invariant
            v@ == s@,
            n == v.len(),
            i <= j <= n,
            t == s@.skip(i as int),
            trim_end(t) == trim_end(t.take(j - i)),
        decreases j,
    {
        assert(t.take(j - i).drop_last() == t.take(j - 1 - i));
        assert(t.take(j - i).last() == v@[j - 1]);
        j = j - 1;
    }
    assert(trim_end(t) == t.take(j - i));
    let mut r = String::new();
    let mut k: usize = i;
    while k < j
        invariant
            v@ == s@,
            n == v.len(),
            i <= k <= j <= n,
            t == s@.skip(i as int),
            r@ == t.take(k - i),
        decreases j - k,
    {
        push_char(&mut r, v[k]);
        assert(t.take(k + 1 - i) == t.take(k - i).push(v@[k as int]));
        k = k + 1;
    }
    r
}

/// What the finder's answer comes to.
#[derive(Debug)]
pub enum FinderOutcome {
    /// The user chose the entry with this key.
    Chosen(usize),
    /// The user left the finder without choosing, or nothing matched.
    Cancelled,
    /// The finder ended with an unexpected exit code.
    Failed(i32),
    /// The finder was killed by a signal.
    Killed,
    /// The finder's output is not UTF-8.
    NotUtf8(std::string::FromUtf8Error),
    /// The finder's output is not an index.
    NotAnIndex { string: String, source: core::num::ParseIntError },
    /// The finder gave an index past the listed entries.
    InvalidIndex(usize),
}

/// Interprets the finder's exit code and output, given the keys of the
/// listed entries in the order they were listed: exit code 0 means that
/// the output is the index of the chosen line; 1 (no match) and 130
/// (interrupted) mean nothing was chosen; any other code is a failure, and
/// no code at all means the finder was killed.
pub fn interpret_finder(ids: &Vec<usize>, code: Option<i32>, stdout: Vec<u8>) -> (r: FinderOutcome)
    ensures
        code == Some(0i32) ==> {
            &&& (r is NotUtf8 <==> !valid_utf8(stdout@))
            &&& valid_utf8(stdout@) ==> {
                let text = decode_utf8(stdout@);
                match decimal_value(spec_trim(text)) {
                    Some(v) => if v > usize::MAX {
                        r matches FinderOutcome::NotAnIndex { string, .. } && string@ == text
                    } else if v < ids@.len() {
                        r == FinderOutcome::Chosen(ids@[v as int])
                    } else {
                        r == FinderOutcome::InvalidIndex(v as usize)
                    },
                    None => r matches FinderOutcome::NotAnIndex { string, .. } && string@ == text,
                }
            }
        },
        code == Some(1i32) || code == Some(130i32) ==> r == FinderOutcome::Cancelled,
        code is Some && code->0 != 0 && code->0 != 1 && code->0 != 130 ==> r == FinderOutcome::Failed(code->0),
        code is None ==> r == FinderOutcome::Killed,
{
    match code {
        Some(0) => {
            let text = match string_from_utf8(stdout) {
                Ok(t) => t,
                Err(e) => return FinderOutcome::NotUtf8(e),
            };
            let trimmed = trim(text.as_str());
            match parse_usize(trimmed.as_str()) {
                Ok(i) => {
                    if i < ids.len() {
                        FinderOutcome::Chosen(ids[i])
                    } else {
                        FinderOutcome::InvalidIndex(i)
                    }
                },
                Err(source) => FinderOutcome::NotAnIndex { string: text, source },
            }
        },
        Some(1) | Some(130) => FinderOutcome::Cancelled,
        Some(c) => FinderOutcome::Failed(c),
        None => FinderOutcome::Killed,
    }
}

} // verus!
