//! The preview pane: what the finder shows beside a listed line.

use vstd::prelude::*;
use vstd::std_specs::iter::IteratorSpec;
use crate::text::{
    push_char, pop_char, split_on, free_of, lemma_split_on_push, lemma_split_on_nonempty,
    lemma_split_on_free, lemma_split_on_field,
};
use crate::item::{ItemView, line_body, or_empty, spec_sanitize, lemma_fzf_line_is_one_record};

verus! {

/// A line with one trailing carriage return removed, if it has one.
pub open spec fn strip_cr(l: Seq<char>) -> Seq<char> {
    if l.len() > 0 && l.last() == '\r' {
        l.drop_last()
    } else {
        l
    }
}

/// The lines of `s` as std's `str::lines` gives them: split at `\n`, a
/// `\r` just before a `\n` removed with it, and no empty line after a final
/// `\n` (nor any line at all in an empty string).
pub open spec fn spec_lines(s: Seq<char>) -> Seq<Seq<char>> {
    let parts = split_on(s, '\n');
    let ended = parts.drop_last().map_values(|p: Seq<char>| strip_cr(p));
    if parts.last().len() == 0 {
        ended
    } else {
        ended.push(parts.last())
    }
}

/// One line of notes as the preview shows it: indented by four spaces.
pub open spec fn indented(l: Seq<char>) -> Seq<char> {
    "    "@ + l + seq!['\n']
}

/// Each line, indented, on a line of its own.
pub open spec fn indented_block(ls: Seq<Seq<char>>) -> Seq<char>
    decreases ls.len(),
{
    if ls.len() == 0 {
        Seq::empty()
    } else {
        indented_block(ls.drop_last()) + indented(ls.last())
    }
}

/// `label` and `value` on a line of their own, or nothing when `value` is
/// empty.
pub open spec fn labelled(label: Seq<char>, value: Seq<char>) -> Seq<char> {
    if value.len() > 0 {
        label + value + seq!['\n']
    } else {
        Seq::empty()
    }
}

/// The preview text of an entry: its URL, its username and its notes, each
/// only when not empty, the notes indented line by line under a heading;
/// `-- No Data --` when all three are empty.
pub open spec fn preview_text(url: Seq<char>, username: Seq<char>, notes: Seq<char>) -> Seq<char> {
    labelled("URL: "@, url) + labelled("Username: "@, username) + (if notes.len() > 0 {
        "Notes:\n"@ + indented_block(spec_lines(notes))
    } else {
        Seq::empty()
    }) + (if url.len() == 0 && username.len() == 0 && notes.len() == 0 {
        "-- No Data --\n"@
    } else {
        Seq::empty()
    })
}

/// The preview says `-- No Data --` exactly when URL, username and notes
/// are all empty, and then says nothing else; when any of them holds
/// something, the preview is only the lines of the fields that do: the URL
/// line, the username line and the indented notes, in that order.
pub proof fn lemma_no_data_exactly_when_empty(url: Seq<char>, username: Seq<char>, notes: Seq<char>)
    ensures
        url.len() == 0 && username.len() == 0 && notes.len() == 0 ==> preview_text(url, username, notes)
            == "-- No Data --\n"@,
        url.len() > 0 || username.len() > 0 || notes.len() > 0 ==> preview_text(url, username, notes)
            == (if url.len() > 0 {
            "URL: "@ + url + "\n"@
        } else {
            Seq::empty()
        }) + (if username.len() > 0 {
            "Username: "@ + username + "\n"@
        } else {
            Seq::empty()
        }) + (if notes.len() > 0 {
            "Notes:\n"@ + indented_block(spec_lines(notes))
        } else {
            Seq::empty()
        }),
{
    reveal_strlit("\n");
    let e = Seq::<char>::empty();
    assert(e + e + e + "-- No Data --\n"@ == "-- No Data --\n"@);
    let a = labelled("URL: "@, url);
    let b = labelled("Username: "@, username);
    let c = if notes.len() > 0 {
        "Notes:\n"@ + indented_block(spec_lines(notes))
    } else {
        e
    };
    assert(a + b + c + e == a + b + c);
}

/// Notes of one line show as that line indented by four spaces; and a last
/// line after a newline shows, indented, after the lines before it.
pub proof fn lemma_note_lines_indented(before: Seq<char>, line: Seq<char>)
    requires
        free_of(line, '\n'),
        line.len() > 0,
    ensures
        indented_block(spec_lines(line)) == "    "@ + line + seq!['\n'],
        indented_block(spec_lines(before + seq!['\n'] + line)) == indented_block(
            spec_lines(before + seq!['\n']),
        ) + "    "@ + line + seq!['\n'],
{
    lemma_split_on_free(line, '\n');
    let f = |p: Seq<char>| strip_cr(p);
    assert(seq![line].drop_last() =~= Seq::<Seq<char>>::empty());
    assert(spec_lines(line) =~= seq![line]);
    assert(seq![line].drop_last() == Seq::<Seq<char>>::empty());
    assert(indented_block(seq![line]) == indented_block(Seq::<Seq<char>>::empty()) + indented(line));
    assert(indented_block(Seq::<Seq<char>>::empty()) + indented(line) == indented(line));
    lemma_split_on_field(before, line, '\n');
    lemma_split_on_push(before, '\n', '\n');
    let parts = split_on(before, '\n');
    assert(before + seq!['\n'] == before.push('\n'));
    assert(spec_lines(before + seq!['\n']) == parts.map_values(f)) by {
        assert(parts.push(Seq::empty()).drop_last() =~= parts);
    }
    assert(spec_lines(before + seq!['\n'] + line) == parts.map_values(f).push(line)) by {
        assert(parts.push(line).drop_last() =~= parts);
    }
    let ls = parts.map_values(f).push(line);
    assert(ls.drop_last() =~= parts.map_values(f));
}

/// Appends each line of `notes`, indented, to `out`.
fn push_note_lines(out: &mut String, notes: &str)
    ensures
        final(out)@ == old(out)@ + indented_block(spec_lines(notes@)),
{
    let ghost start = out@;
    let mut cur = String::new();
    let chars = notes.chars();
    proof {
        assert(notes@.take(0) == Seq::<char>::empty());
        assert(split_on(Seq::<char>::empty(), '\n').drop_last().map_values(|p: Seq<char>| strip_cr(p))
            == Seq::<Seq<char>>::empty());
    }
    for c in it: chars
        invariant
            it.seq() == notes@,
            out@ == start + indented_block(
                split_on(notes@.take(it.index() as int), '\n').drop_last().map_values(
                    |p: Seq<char>| strip_cr(p),
                ),
            ),
            cur@ == split_on(notes@.take(it.index() as int), '\n').last(),
    {
        let ghost pre = notes@.take(it.index() as int);
        proof {
            assert(notes@.take(it.index() + 1) == pre.push(c));
            lemma_split_on_push(pre, c, '\n');
        }
        let ghost parts = split_on(pre, '\n');
        if c == '\n' {
            let last = pop_char(&mut cur);
            match last {
                Some(x) => {
                    if x != '\r' {
                        push_char(&mut cur, x);
                        assert(cur@ == parts.last());
                    }
                },
                None => {},
            }
            assert(cur@ == strip_cr(parts.last()));
            out.append("    ");
            out.append(cur.as_str());
            push_char(out, '\n');
            cur = String::new();
            proof {
                let f = |p: Seq<char>| strip_cr(p);
                assert(parts == parts.drop_last().push(parts.last()));
                assert(parts.map_values(f) == parts.drop_last().map_values(f).push(strip_cr(parts.last())));
                assert(parts.push(Seq::empty()).drop_last() == parts);
                assert(parts.map_values(f).drop_last() == parts.drop_last().map_values(f));
            }
        } else {
            push_char(&mut cur, c);
            proof {
                assert(parts.drop_last().push(parts.last().push(c)).drop_last() == parts.drop_last());
            }
        }
    }
    proof {
        assert(notes@.take(notes@.len() as int) == notes@);
        lemma_split_on_nonempty(notes@, '\n');
    }
    if !cur.as_str().is_empty() {
        out.append("    ");
        out.append(cur.as_str());
        push_char(out, '\n');
        proof {
            let parts = split_on(notes@, '\n');
            let ended = parts.drop_last().map_values(|p: Seq<char>| strip_cr(p));
            assert(ended.push(parts.last()).drop_last() == ended);
        }
    }
}

/// Appends `label`, `value` and a newline to `out` when `value` is not
/// empty.
fn push_labelled(out: &mut String, label: &str, value: &str)
    ensures
        final(out)@ == old(out)@ + labelled(label@, value@),
{
    if !value.is_empty() {
        out.append(label);
        out.append(value);
        push_char(out, '\n');
    } else {
        assert(old(out)@ + Seq::<char>::empty() == old(out)@);
    }
}

/// Writes the preview of an entry with the given URL, username and notes to
/// `out`: the fields that are not empty, or `-- No Data --` when none is.
pub fn write_preview(out: &mut String, url: &str, username: &str, notes: &str)
    ensures
        final(out)@ == old(out)@ + preview_text(url@, username@, notes@),
{
    let ghost start = out@;
    push_labelled(out, "URL: ", url);
    push_labelled(out, "Username: ", username);
    if !notes.is_empty() {
        out.append("Notes:\n");
        push_note_lines(out, notes);
    }
    if url.is_empty() && username.is_empty() && notes.is_empty() {
        out.append("-- No Data --\n");
    }
    proof {
        assert(out@ == start + preview_text(url@, username@, notes@));
    }
}


/// The piece at position `i`, or nothing when there are fewer pieces.
pub open spec fn piece(parts: Seq<Seq<char>>, i: int) -> Seq<char> {
    if 0 <= i < parts.len() {
        parts[i]
    } else {
        Seq::empty()
    }
}

/// The URL, username and notes of a listed line: its second, third and
/// fourth TAB-separated fields, each empty when the line has no such field.
pub open spec fn spec_preview_fields(line: Seq<char>) -> (Seq<char>, Seq<char>, Seq<char>) {
    let parts = split_on(line, '\t');
    (piece(parts, 1), piece(parts, 2), piece(parts, 3))
}

/// The URL, username and notes fields of a listed line.
pub fn preview_fields(line: &str) -> (r: (String, String, String))
    ensures
        (r.0@, r.1@, r.2@) == spec_preview_fields(line@),
{
    let mut url = String::new();
    let mut username = String::new();
    let mut notes = String::new();
    let mut field: usize = 0;
    let chars = line.chars();
    proof {
        assert(line@.take(0) == Seq::<char>::empty());
    }
    for c in it: chars
        invariant
            it.seq() == line@,
            field as int == if split_on(line@.take(it.index() as int), '\t').len() <= 4 {
                split_on(line@.take(it.index() as int), '\t').len() - 1
            } else {
                4
            },
            url@ == piece(split_on(line@.take(it.index() as int), '\t'), 1),
            username@ == piece(split_on(line@.take(it.index() as int), '\t'), 2),
            notes@ == piece(split_on(line@.take(it.index() as int), '\t'), 3),
    {
        let ghost pre = line@.take(it.index() as int);
        proof {
            assert(line@.take(it.index() + 1) == pre.push(c));
            lemma_split_on_push(pre, c, '\t');
        }
        let ghost parts = split_on(pre, '\t');
        if c == '\t' {
            if field < 4 {
                field = field + 1;
            }
            assert(parts.push(Seq::empty())[parts.len() as int] == Seq::<char>::empty());
        } else {
            if field == 1 {
                push_char(&mut url, c);
            } else if field == 2 {
                push_char(&mut username, c);
            } else if field == 3 {
                push_char(&mut notes, c);
            }
            let ghost next = parts.drop_last().push(parts.last().push(c));
            assert(next.len() == parts.len());
            assert(forall|i: int| 0 <= i < parts.len() - 1 ==> next[i] == parts[i]);
        }
    }
    proof {
        assert(line@.take(line@.len() as int) == line@);
    }
    (url, username, notes)
}

/// The preview text for a listed line: the URL, username and notes found
/// in its fields, laid out as [`write_preview`] does.
pub fn show_preview(line: &str) -> (r: String)
    ensures
        r@ == preview_text(
            spec_preview_fields(line@).0,
            spec_preview_fields(line@).1,
            spec_preview_fields(line@).2,
        ),
{
    let (url, username, notes) = preview_fields(line);
    let mut out = String::new();
    write_preview(&mut out, url.as_str(), username.as_str(), notes.as_str());
    out
}

/// Previewing a listed line shows the entry's own URL, username and notes,
/// sanitized, whatever the entry holds.
pub proof fn lemma_preview_of_listed_line(item: ItemView)
    ensures
        spec_preview_fields(line_body(item)) == (
            spec_sanitize(or_empty(item.url)),
            spec_sanitize(or_empty(item.username)),
            spec_sanitize(or_empty(item.notes)),
        ),
{
    lemma_fzf_line_is_one_record(item);
}

} // verus!
