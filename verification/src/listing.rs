//! The finder's input: the listed entries in order, one line each.

use vstd::prelude::*;
use vstd::multiset::Multiset;
use crate::item::{Item, ItemView, fzf_line, line_body, push_fzf_line, lemma_fzf_line_is_one_record};
use crate::text::free_of;
use crate::entries::listed_view;
use crate::order::{item_order, compare_items, lemma_item_order_is_total};

verus! {

broadcast use vstd::seq_lib::group_to_multiset_ensures;

/// The entries come in the order of their items.
pub open spec fn sorted_by_item(v: Seq<(usize, Item)>) -> bool {
    forall|i: int, j: int| 0 <= i < j < v.len() ==> item_order(v[i].1@, v[j].1@) <= 0
}

/// Sorts listed entries by their items, as the derived order of `Item`
/// does; entries with equal items may come in any order.
pub fn sort_entries(entries: Vec<(usize, Item)>) -> (r: Vec<(usize, Item)>)
    ensures
        r@.to_multiset() == entries@.to_multiset(),
        sorted_by_item(r@),
{
    let mut rest = entries;
    let mut sorted: Vec<(usize, Item)> = Vec::new();
    while rest.len() > 0
        invariant
            sorted@.to_multiset().add(rest@.to_multiset()) == entries@.to_multiset(),
            sorted_by_item(sorted@),
        decreases rest.len(),
    {
        let ghost before_rest = rest@;
        let x = rest.pop().unwrap();
        assert(before_rest == rest@.push(x));
        let mut p: usize = 0;
        while p < sorted.len() && compare_items(&sorted[p].1, &x.1) <= 0
            invariant
                p <= sorted.len(),
                forall|k: int| 0 <= k < p ==> item_order(#[trigger] sorted@[k].1@, x.1@) <= 0,
            decreases sorted.len() - p,
        {
            p = p + 1;
        }
        let ghost s = sorted@;
        proof {
            if p < s.len() {
                lemma_item_order_is_total(s[p as int].1@, x.1@, s[p as int].1@);
            }
        }
        sorted.insert(p, x);
        proof {
            let t = sorted@;
            assert(t == s.insert(p as int, x));
            assert forall|i: int, j: int| 0 <= i < j < t.len() implies item_order(
                t[i].1@,
                t[j].1@,
            ) <= 0 by {
                if j == p {
                    assert(t[i] == s[i]);
                } else if i == p {
                    assert(t[j] == s[j - 1]);
                    if j - 1 > p {
                        lemma_item_order_is_total(x.1@, s[p as int].1@, s[j - 1].1@);
                    } else {
                        lemma_item_order_is_total(x.1@, s[p as int].1@, s[p as int].1@);
                    }
                } else if j < p {
                    assert(t[i] == s[i] && t[j] == s[j]);
                } else if i < p {
                    assert(t[i] == s[i] && t[j] == s[j - 1]);
                } else {
                    assert(t[i] == s[i - 1] && t[j] == s[j - 1]);
                }
            }
            assert(t.to_multiset() == s.to_multiset().insert(x));
        }
    }
    assert(rest@.to_multiset() =~= Multiset::empty());
    sorted
}

/// The keys of listed entries, in order.
pub open spec fn listed_ids(v: Seq<(usize, Item)>) -> Seq<usize> {
    v.map_values(|p: (usize, Item)| p.0)
}

/// The finder's input for listed items: the line of each, in order.
pub open spec fn listing_text(v: Seq<(usize, ItemView)>) -> Seq<char>
    decreases v.len(),
{
    if v.len() == 0 {
        Seq::empty()
    } else {
        listing_text(v.drop_last()) + fzf_line(v.last().1)
    }
}

/// The finder's input for `entries` in their order, and their keys in the
/// same order, so that the entry on line `i` has key `ids[i]`.
pub fn fzf_listing(entries: &Vec<(usize, Item)>) -> (r: (Vec<usize>, String))
    ensures
        r.0@ == listed_ids(entries@),
        r.1@ == listing_text(listed_view(entries@)),
{
    let mut ids: Vec<usize> = Vec::new();
    let mut input = String::new();
    let n = entries.len();
    for i in 0..n
        invariant
            n == entries.len(),
            ids@ == listed_ids(entries@.take(i as int)),
            input@ == listing_text(listed_view(entries@.take(i as int))),
    {
        ids.push(entries[i].0);
        push_fzf_line(&mut input, &entries[i].1);
        proof {
            let pre = entries@.take(i as int);
            assert(entries@.take(i + 1) == pre.push(entries@[i as int]));
            assert(listed_ids(pre.push(entries@[i as int])) =~= listed_ids(pre).push(entries@[i as int].0));
            assert(listed_view(pre.push(entries@[i as int])) =~= listed_view(pre).push((entries@[i as int].0, entries@[i as int].1@)));
            assert(listed_view(pre.push(entries@[i as int])).drop_last() =~= listed_view(pre));
        }
    }
    assert(entries@.take(n as int) == entries@);
    (ids, input)
}

/// How many NUL characters `s` holds.
pub open spec fn nul_count(s: Seq<char>) -> nat
    decreases s.len(),
{
    if s.len() == 0 {
        0
    } else {
        nul_count(s.drop_last()) + if s.last() == '\0' {
            1nat
        } else {
            0nat
        }
    }
}

/// NUL counts add up over joined texts.
proof fn lemma_nul_count_add(a: Seq<char>, b: Seq<char>)
    ensures
        nul_count(a + b) == nul_count(a) + nul_count(b),
    decreases b.len(),
{
    if b.len() == 0 {
        assert(a + b == a);
    } else {
        lemma_nul_count_add(a, b.drop_last());
        assert((a + b).drop_last() == a + b.drop_last());
    }
}

/// A text free of NUL counts none.
proof fn lemma_nul_count_free(a: Seq<char>)
    requires
        free_of(a, '\0'),
    ensures
        nul_count(a) == 0,
    decreases a.len(),
{
    if a.len() > 0 {
        assert(free_of(a.drop_last(), '\0'));
        lemma_nul_count_free(a.drop_last());
    }
}

/// The input for a run of items is that for its first part followed by
/// that for the rest.
proof fn lemma_listing_text_add(a: Seq<(usize, ItemView)>, b: Seq<(usize, ItemView)>)
    ensures
        listing_text(a + b) == listing_text(a) + listing_text(b),
    decreases b.len(),
{
    if b.len() == 0 {
        assert(a + b == a);
        assert(listing_text(a) + Seq::<char>::empty() == listing_text(a));
    } else {
        lemma_listing_text_add(a, b.drop_last());
        assert((a + b).drop_last() == a + b.drop_last());
        assert((a + b).last() == b.last());
    }
}

/// The input for `n` items holds exactly `n` NULs, one ending each line.
proof fn lemma_listing_nul_count(v: Seq<(usize, ItemView)>)
    ensures
        nul_count(listing_text(v)) == v.len(),
    decreases v.len(),
{
    if v.len() > 0 {
        lemma_listing_nul_count(v.drop_last());
        lemma_fzf_line_is_one_record(v.last().1);
        lemma_nul_count_free(line_body(v.last().1));
        lemma_nul_count_add(line_body(v.last().1), seq!['\0']);
        assert(seq!['\0'].drop_last() == Seq::<char>::empty());
        assert(seq!['\0'].last() == '\0');
        assert(nul_count(Seq::<char>::empty()) == 0);
        assert(nul_count(seq!['\0']) == 1);
        assert(line_body(v.last().1).push('\0') == line_body(v.last().1) + seq!['\0']);
        lemma_nul_count_add(listing_text(v.drop_last()), fzf_line(v.last().1));
    }
}

/// The `i`-th NUL-terminated record of a listing's text is the line of its
/// `i`-th item.
proof fn lemma_listing_text_record(v: Seq<(usize, ItemView)>, i: int)
    requires
        0 <= i < v.len(),
    ensures
        listing_text(v) == listing_text(v.take(i)) + fzf_line(v[i].1) + listing_text(v.skip(i + 1)),
        nul_count(listing_text(v.take(i))) == i,
{
    lemma_listing_nul_count(v.take(i));
    assert(v == v.take(i) + seq![v[i]] + v.skip(i + 1));
    lemma_listing_text_add(v.take(i) + seq![v[i]], v.skip(i + 1));
    lemma_listing_text_add(v.take(i), seq![v[i]]);
    assert(seq![v[i]].drop_last() == Seq::<(usize, ItemView)>::empty());
    assert(seq![v[i]].last() == v[i]);
    assert(listing_text(Seq::<(usize, ItemView)>::empty()) == Seq::<char>::empty());
    assert(listing_text(seq![v[i]]) == Seq::<char>::empty() + fzf_line(v[i].1));
    assert(Seq::<char>::empty() + fzf_line(v[i].1) == fzf_line(v[i].1));
}

/// The `i`-th NUL-terminated record of the finder's input for `s` is the
/// line of the `i`-th entry, whose key is the `i`-th key: what comes before
/// that line holds exactly `i` NULs. So the line index the finder answers
/// with names the key of the entry on that line.
pub proof fn lemma_listing_record_of_entry(s: Seq<(usize, Item)>, i: int)
    requires
        0 <= i < s.len(),
    ensures
        listed_ids(s)[i] == s[i].0,
        listing_text(listed_view(s)) == listing_text(listed_view(s).take(i)) + fzf_line(s[i].1@)
            + listing_text(listed_view(s).skip(i + 1)),
        nul_count(listing_text(listed_view(s).take(i))) == i,
{
    lemma_listing_text_record(listed_view(s), i);
}

/// The finder's input and the keys of its lines.
pub struct Listing {
    pub ids: Vec<usize>,
    pub input: String,
}

/// Lists entries for the finder, sorted by their items; `None` when there
/// is nothing to list.
pub fn prepare_listing(entries: Vec<(usize, Item)>) -> (r: Option<Listing>)
    ensures
        r is None <==> entries@.len() == 0,
        r matches Some(l) ==> exists|s: Seq<(usize, Item)>|
            #![trigger sorted_by_item(s)]
            s.to_multiset() == entries@.to_multiset() && sorted_by_item(s) && l.ids@ == listed_ids(s)
                && l.input@ == listing_text(listed_view(s)),
{
    if entries.len() == 0 {
        return None;
    }
    let sorted = sort_entries(entries);
    let (ids, input) = fzf_listing(&sorted);
    Some(Listing { ids, input })
}

} // verus!
