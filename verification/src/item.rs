//! A password entry as shown in the finder, and the line that lists it.

use vstd::prelude::*;
use vstd::std_specs::iter::IteratorSpec;
use crate::text::{push_char, free_of, split_on, lemma_split_on_free, lemma_split_on_field};

verus! {

/// What one character of a field becomes in a listed line: NUL is dropped,
/// TAB becomes a space, anything else stays.
pub open spec fn sanitize_char(c: char) -> Seq<char> {
    if c == '\0' {
        Seq::empty()
    } else if c == '\t' {
        seq![' ']
    } else {
        seq![c]
    }
}

/// A field with NUL characters removed and TAB characters replaced by spaces.
pub open spec fn spec_sanitize(s: Seq<char>) -> Seq<char>
    decreases s.len(),
{
    if s.len() == 0 {
        Seq::empty()
    } else {
        spec_sanitize(s.drop_last()) + sanitize_char(s.last())
    }
}

/// Sanitizing never leaves a TAB or a NUL in a field.
pub proof fn lemma_sanitize_strips_separators(s: Seq<char>)
    ensures
        free_of(spec_sanitize(s), '\t'),
        free_of(spec_sanitize(s), '\0'),
    decreases s.len(),
{
    if s.len() > 0 {
        lemma_sanitize_strips_separators(s.drop_last());
        let r = spec_sanitize(s);
        let p = spec_sanitize(s.drop_last());
        assert forall|i: int| 0 <= i < r.len() implies r[i] != '\t' && r[i] != '\0' by {
            if i >= p.len() {
                assert(r[i] == sanitize_char(s.last())[i - p.len()]);
            } else {
                assert(r[i] == p[i]);
            }
        }
    }
}

/// A field that holds neither TAB nor NUL is left as it is.
pub proof fn lemma_sanitize_clean(s: Seq<char>)
    requires
        free_of(s, '\t'),
        free_of(s, '\0'),
    ensures
        spec_sanitize(s) == s,
    decreases s.len(),
{
    if s.len() > 0 {
        let p = s.drop_last();
        assert(free_of(p, '\t'));
        assert(free_of(p, '\0'));
        lemma_sanitize_clean(p);
        assert(s.last() == s[s.len() - 1]);
        assert(p.push(s.last()) == s);
    }
}

/// Sanitizing twice is sanitizing once.
pub proof fn lemma_sanitize_idempotent(s: Seq<char>)
    ensures
        spec_sanitize(spec_sanitize(s)) == spec_sanitize(s),
{
    lemma_sanitize_strips_separators(s);
    lemma_sanitize_clean(spec_sanitize(s));
}

/// Appends the sanitized form of `s` to `out`.
pub fn push_sanitized(out: &mut String, s: &str)
    ensures
        final(out)@ == old(out)@ + spec_sanitize(s@),
{
    let ghost start = out@;
    let chars = s.chars();
    for c in it: chars
        invariant
            it.seq() == s@,
            out@ == start + spec_sanitize(s@.take(it.index() as int)),
    {
        assert(s@.take(it.index() + 1).drop_last() == s@.take(it.index() as int));
        if c == '\t' {
            push_char(out, ' ');
        } else if c != '\0' {
            push_char(out, c);
        }
    }
    assert(s@.take(s@.len() as int) == s@);
}

/// The sanitized form of `s`: NUL characters removed, TAB characters
/// replaced by spaces.
pub fn sanitize(s: &str) -> (r: String)
    ensures
        r@ == spec_sanitize(s@),
{
    let mut out = String::new();
    push_sanitized(&mut out, s);
    out
}


/// A database entry as the finder lists it: the names of the groups that
/// lead to it, and its optional title, URL, username and notes.
#[derive(Clone, Debug, PartialEq, Eq, PartialOrd, Ord)]
pub struct Item {
    pub group_path: Vec<String>,
    pub title: Option<String>,
    pub url: Option<String>,
    pub username: Option<String>,
    pub notes: Option<String>,
}

/// The characters of each string.
pub open spec fn texts(v: Seq<String>) -> Seq<Seq<char>> {
    v.map_values(|s: String| s@)
}

/// The mathematical content of an [`Item`].
pub struct ItemView {
    pub group_path: Seq<Seq<char>>,
    pub title: Option<Seq<char>>,
    pub url: Option<Seq<char>>,
    pub username: Option<Seq<char>>,
    pub notes: Option<Seq<char>>,
}

/// The characters of an optional string.
pub open spec fn opt_text(o: Option<String>) -> Option<Seq<char>> {
    match o {
        Some(s) => Some(s@),
        None => None,
    }
}

impl View for Item {
    type V = ItemView;

    open spec fn view(&self) -> ItemView {
        ItemView {
            group_path: texts(self.group_path@),
            title: opt_text(self.title),
            url: opt_text(self.url),
            username: opt_text(self.username),
            notes: opt_text(self.notes),
        }
    }
}

/// The field is present and not empty.
pub open spec fn is_filled(o: Option<Seq<char>>) -> bool {
    o matches Some(s) && s.len() > 0
}

/// The field's characters, or nothing when it is absent.
pub open spec fn or_empty(o: Option<Seq<char>>) -> Seq<char> {
    match o {
        Some(s) => s,
        None => Seq::empty(),
    }
}

/// Each group name, sanitized, after a slash.
pub open spec fn path_text(path: Seq<Seq<char>>) -> Seq<char>
    decreases path.len(),
{
    if path.len() == 0 {
        Seq::empty()
    } else {
        path_text(path.drop_last()) + seq!['/'] + spec_sanitize(path.last())
    }
}

/// The name an entry is listed under: its title, else its URL in angle
/// brackets, else its username, else `<no name>`; absent and empty fields
/// are passed over alike.
pub open spec fn display_name(item: ItemView) -> Seq<char> {
    if is_filled(item.title) {
        spec_sanitize(item.title->0)
    } else if is_filled(item.url) {
        seq!['<'] + spec_sanitize(item.url->0) + seq!['>']
    } else if is_filled(item.username) {
        spec_sanitize(item.username->0)
    } else {
        "<no name>"@
    }
}

/// The four tab-separated fields of a listed line, without its terminator:
/// the group path with the display name, then URL, username and notes.
pub open spec fn line_body(item: ItemView) -> Seq<char> {
    path_text(item.group_path) + seq!['/'] + display_name(item) + seq!['\t']
        + spec_sanitize(or_empty(item.url)) + seq!['\t'] + spec_sanitize(or_empty(item.username))
        + seq!['\t'] + spec_sanitize(or_empty(item.notes))
}

/// A listed line: its fields, then a NUL that ends the record.
pub open spec fn fzf_line(item: ItemView) -> Seq<char> {
    line_body(item) + seq!['\0']
}

/// Joining two pieces that lack a character gives a piece that lacks it.
pub proof fn lemma_free_of_concat(a: Seq<char>, b: Seq<char>, c: char)
    requires
        free_of(a, c),
        free_of(b, c),
    ensures
        free_of(a + b, c),
{
    assert forall|i: int| 0 <= i < (a + b).len() implies (a + b)[i] != c by {
        if i < a.len() {
            assert((a + b)[i] == a[i]);
        } else {
            assert((a + b)[i] == b[i - a.len()]);
        }
    }
}

/// The group path part of a line holds no TAB and no NUL.
proof fn lemma_path_text_clean(path: Seq<Seq<char>>)
    ensures
        free_of(path_text(path), '\t'),
        free_of(path_text(path), '\0'),
    decreases path.len(),
{
    if path.len() > 0 {
        lemma_path_text_clean(path.drop_last());
        lemma_sanitize_strips_separators(path.last());
        let p = path_text(path.drop_last());
        lemma_free_of_concat(p, seq!['/'], '\t');
        lemma_free_of_concat(p, seq!['/'], '\0');
        lemma_free_of_concat(p + seq!['/'], spec_sanitize(path.last()), '\t');
        lemma_free_of_concat(p + seq!['/'], spec_sanitize(path.last()), '\0');
    }
}

/// The display name holds no TAB and no NUL.
proof fn lemma_display_name_clean(item: ItemView)
    ensures
        free_of(display_name(item), '\t'),
        free_of(display_name(item), '\0'),
{
    reveal_strlit("<no name>");
    if is_filled(item.title) {
        lemma_sanitize_strips_separators(item.title->0);
    } else if is_filled(item.url) {
        let u = spec_sanitize(item.url->0);
        lemma_sanitize_strips_separators(item.url->0);
        lemma_free_of_concat(seq!['<'], u, '\t');
        lemma_free_of_concat(seq!['<'], u, '\0');
        lemma_free_of_concat(seq!['<'] + u, seq!['>'], '\t');
        lemma_free_of_concat(seq!['<'] + u, seq!['>'], '\0');
    } else if is_filled(item.username) {
        lemma_sanitize_strips_separators(item.username->0);
    }
}

/// Sanitizing keeps every character but NUL: a field free of NUL keeps its
/// length.
proof fn lemma_sanitize_keeps_length(s: Seq<char>)
    requires
        free_of(s, '\0'),
    ensures
        spec_sanitize(s).len() == s.len(),
    decreases s.len(),
{
    if s.len() > 0 {
        assert(s.last() == s[s.len() - 1]);
        lemma_sanitize_keeps_length(s.drop_last());
    }
}

/// A field enters the display name and the listed line only through its
/// characters: an empty field and an absent one give the same line.
pub proof fn lemma_empty_field_is_absent(a: ItemView, b: ItemView)
    requires
        a.group_path == b.group_path,
        or_empty(a.title) == or_empty(b.title),
        or_empty(a.url) == or_empty(b.url),
        or_empty(a.username) == or_empty(b.username),
        or_empty(a.notes) == or_empty(b.notes),
    ensures
        display_name(a) == display_name(b),
        fzf_line(a) == fzf_line(b),
{
}

/// The display name is the title when it is not empty, else the URL in
/// angle brackets when that is not empty, else the username when that is
/// not empty, and `<no name>` when title, URL and username are all empty or
/// absent; and it is never empty when none of them holds a NUL.
pub proof fn lemma_display_name_fallback(item: ItemView)
    ensures
        or_empty(item.title).len() > 0 ==> display_name(item) == spec_sanitize(or_empty(item.title)),
        or_empty(item.title).len() == 0 && or_empty(item.url).len() > 0 ==> display_name(item)
            == seq!['<'] + spec_sanitize(or_empty(item.url)) + seq!['>'],
        or_empty(item.title).len() == 0 && or_empty(item.url).len() == 0 && or_empty(item.username).len()
            > 0 ==> display_name(item) == spec_sanitize(or_empty(item.username)),
        or_empty(item.title).len() == 0 && or_empty(item.url).len() == 0
            && or_empty(item.username).len() == 0 ==> display_name(item) == "<no name>"@,
        free_of(or_empty(item.title), '\0') && free_of(or_empty(item.url), '\0') && free_of(
            or_empty(item.username),
            '\0',
        ) ==> display_name(item).len() > 0,
{
    reveal_strlit("<no name>");
    if free_of(or_empty(item.title), '\0') && free_of(or_empty(item.url), '\0') && free_of(
        or_empty(item.username),
        '\0',
    ) {
        lemma_sanitize_keeps_length(or_empty(item.title));
        lemma_sanitize_keeps_length(or_empty(item.url));
        lemma_sanitize_keeps_length(or_empty(item.username));
    }
}

/// The first field of a listed line: the group path and the display name.
pub open spec fn name_field(item: ItemView) -> Seq<char> {
    path_text(item.group_path) + seq!['/'] + display_name(item)
}

/// A listed line is one record: it ends in the only NUL it holds, and its
/// TABs cut it into exactly four fields, the name field and the sanitized
/// URL, username and notes, whatever the entry holds.
pub proof fn lemma_fzf_line_is_one_record(item: ItemView)
    ensures
        fzf_line(item) == line_body(item).push('\0'),
        free_of(line_body(item), '\0'),
        split_on(line_body(item), '\t') == seq![
            name_field(item),
            spec_sanitize(or_empty(item.url)),
            spec_sanitize(or_empty(item.username)),
            spec_sanitize(or_empty(item.notes)),
        ],
{
    let x = name_field(item);
    let u = spec_sanitize(or_empty(item.url));
    let n = spec_sanitize(or_empty(item.username));
    let t = spec_sanitize(or_empty(item.notes));
    lemma_path_text_clean(item.group_path);
    lemma_display_name_clean(item);
    lemma_sanitize_strips_separators(or_empty(item.url));
    lemma_sanitize_strips_separators(or_empty(item.username));
    lemma_sanitize_strips_separators(or_empty(item.notes));
    lemma_free_of_concat(path_text(item.group_path), seq!['/'], '\t');
    lemma_free_of_concat(path_text(item.group_path), seq!['/'], '\0');
    lemma_free_of_concat(path_text(item.group_path) + seq!['/'], display_name(item), '\t');
    lemma_free_of_concat(path_text(item.group_path) + seq!['/'], display_name(item), '\0');
    assert(line_body(item) == x + seq!['\t'] + u + seq!['\t'] + n + seq!['\t'] + t);
    lemma_split_on_free(x, '\t');
    lemma_split_on_field(x, u, '\t');
    lemma_split_on_field(x + seq!['\t'] + u, n, '\t');
    lemma_split_on_field(x + seq!['\t'] + u + seq!['\t'] + n, t, '\t');
    assert(split_on(line_body(item), '\t') == seq![x, u, n, t]);
    lemma_free_of_concat(x, seq!['\t'], '\0');
    lemma_free_of_concat(x + seq!['\t'], u, '\0');
    lemma_free_of_concat(x + seq!['\t'] + u, seq!['\t'], '\0');
    lemma_free_of_concat(x + seq!['\t'] + u + seq!['\t'], n, '\0');
    lemma_free_of_concat(x + seq!['\t'] + u + seq!['\t'] + n, seq!['\t'], '\0');
    lemma_free_of_concat(x + seq!['\t'] + u + seq!['\t'] + n + seq!['\t'], t, '\0');
}

/// Appends the sanitized field, or nothing when the field is absent.
fn push_sanitized_opt(out: &mut String, o: &Option<String>)
    ensures
        final(out)@ == old(out)@ + spec_sanitize(or_empty(opt_text(*o))),
{
    match o {
        Some(s) => push_sanitized(out, s.as_str()),
        None => {
            assert(spec_sanitize(Seq::<char>::empty()) == Seq::<char>::empty());
            assert(out@ + Seq::<char>::empty() == out@);
        },
    }
}

/// The field is present and not empty.
fn filled(o: &Option<String>) -> (r: bool)
    ensures
        r == is_filled(opt_text(*o)),
{
    match o {
        Some(s) => !s.as_str().is_empty(),
        None => false,
    }
}

/// Appends each group name of `path`, sanitized, after a slash.
fn push_path_text(out: &mut String, path: &Vec<String>)
    ensures
        final(out)@ == old(out)@ + path_text(texts(path@)),
{
    let ghost base = out@;
    let ghost v = texts(path@);
    let n = path.len();
    let mut i: usize = 0;
    proof {
        assert(v.take(0) == Seq::<Seq<char>>::empty());
        assert(base + Seq::<char>::empty() == base);
    }
    while i < n
        invariant
            n == path.len(),
            i <= n,
            v == texts(path@),
            out@ == base + path_text(v.take(i as int)),
        decreases n - i,
    {
        assert(v.take(i + 1).drop_last() == v.take(i as int));
        push_char(out, '/');
        push_sanitized(out, path[i].as_str());
        i = i + 1;
    }
    assert(v.take(n as int) == v);
}

/// Appends the name an entry is listed under.
fn push_display_name(out: &mut String, item: &Item)
    ensures
        final(out)@ == old(out)@ + display_name(item@),
{
    if filled(&item.title) {
        push_sanitized_opt(out, &item.title);
    } else if filled(&item.url) {
        push_char(out, '<');
        push_sanitized_opt(out, &item.url);
        push_char(out, '>');
    } else if filled(&item.username) {
        push_sanitized_opt(out, &item.username);
    } else {
        out.append("<no name>");
    }
}

/// Appends the line that lists `item` to `out`.
pub fn push_fzf_line(out: &mut String, item: &Item)
    ensures
        final(out)@ == old(out)@ + fzf_line(item@),
{
    push_path_text(out, &item.group_path);
    push_char(out, '/');
    push_display_name(out, item);
    push_char(out, '\t');
    push_sanitized_opt(out, &item.url);
    push_char(out, '\t');
    push_sanitized_opt(out, &item.username);
    push_char(out, '\t');
    push_sanitized_opt(out, &item.notes);
    push_char(out, '\0');
}

impl Item {
    /// The line that lists this entry in the finder: the group path and
    /// display name, the URL, the username and the notes, separated by TAB
    /// and ended by NUL, each field sanitized.
    pub fn into_fzf_line(self) -> (r: String)
        ensures
            r@ == fzf_line(self@),
    {
        let mut s = String::new();
        push_fzf_line(&mut s, &self);
        assert(Seq::<char>::empty() + fzf_line(self@) == fzf_line(self@));
        s
    }
}

} // verus!
