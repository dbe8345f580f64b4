//! The order in which entries are listed: that of their items, field by
//! field, each text compared character by character.

use vstd::prelude::*;
use crate::item::{Item, ItemView, opt_text, texts};
use crate::text::chars_of;

verus! {

/// Compares two texts character by character, a proper prefix first:
/// -1, 0 or 1 as `a` comes before, equals or comes after `b`. (UTF-8 keeps
/// the order of characters, so this is also the byte order of `String`.)
pub open spec fn text_order(a: Seq<char>, b: Seq<char>) -> int
    decreases a.len(),
{
    if a.len() == 0 {
        if b.len() == 0 {
            0
        } else {
            -1
        }
    } else if b.len() == 0 {
        1
    } else if a[0] < b[0] {
        -1
    } else if a[0] > b[0] {
        1
    } else {
        text_order(a.drop_first(), b.drop_first())
    }
}

/// Compares two group paths name by name, a proper prefix first.
pub open spec fn path_order(a: Seq<Seq<char>>, b: Seq<Seq<char>>) -> int
    decreases a.len(),
{
    if a.len() == 0 {
        if b.len() == 0 {
            0
        } else {
            -1
        }
    } else if b.len() == 0 {
        1
    } else if text_order(a[0], b[0]) != 0 {
        text_order(a[0], b[0])
    } else {
        path_order(a.drop_first(), b.drop_first())
    }
}

/// Compares two optional texts, an absent one first.
pub open spec fn opt_order(a: Option<Seq<char>>, b: Option<Seq<char>>) -> int {
    match (a, b) {
        (None, None) => 0,
        (None, Some(_)) => -1,
        (Some(_), None) => 1,
        (Some(x), Some(y)) => text_order(x, y),
    }
}

/// Compares two items by group path, then title, URL, username and notes.
pub open spec fn item_order(a: ItemView, b: ItemView) -> int {
    if path_order(a.group_path, b.group_path) != 0 {
        path_order(a.group_path, b.group_path)
    } else if opt_order(a.title, b.title) != 0 {
        opt_order(a.title, b.title)
    } else if opt_order(a.url, b.url) != 0 {
        opt_order(a.url, b.url)
    } else if opt_order(a.username, b.username) != 0 {
        opt_order(a.username, b.username)
    } else {
        opt_order(a.notes, b.notes)
    }
}

/// Text comparison is a total order: swapping the texts flips the result,
/// 0 means equal, and it is transitive.
pub proof fn lemma_text_order_is_total(a: Seq<char>, b: Seq<char>, c: Seq<char>)
    ensures
        text_order(a, b) == -text_order(b, a),
        -1 <= text_order(a, b) <= 1,
        text_order(a, b) == 0 <==> a == b,
        text_order(a, b) <= 0 && text_order(b, c) <= 0 ==> text_order(a, c) <= 0,
        text_order(a, b) < 0 && text_order(b, c) <= 0 ==> text_order(a, c) < 0,
        text_order(a, b) <= 0 && text_order(b, c) < 0 ==> text_order(a, c) < 0,
    decreases a.len(),
{
    if a.len() > 0 && b.len() > 0 && c.len() > 0 {
        lemma_text_order_is_total(a.drop_first(), b.drop_first(), c.drop_first());
    } else if a.len() > 0 && b.len() > 0 {
        lemma_text_order_is_total(a.drop_first(), b.drop_first(), c);
    }
    if a.len() > 0 && b.len() > 0 && a[0] == b[0] && a.drop_first() == b.drop_first() {
        assert(a =~= seq![a[0]] + a.drop_first());
        assert(b =~= seq![b[0]] + b.drop_first());
    }
    if a == b && a.len() > 0 {
        assert(a.drop_first() == b.drop_first());
    }
    if a.len() == 0 && b.len() == 0 {
        assert(a =~= b);
    }
}

/// Path comparison is a total order.
pub proof fn lemma_path_order_is_total(a: Seq<Seq<char>>, b: Seq<Seq<char>>, c: Seq<Seq<char>>)
    ensures
        path_order(a, b) == -path_order(b, a),
        -1 <= path_order(a, b) <= 1,
        path_order(a, b) == 0 <==> a == b,
        path_order(a, b) <= 0 && path_order(b, c) <= 0 ==> path_order(a, c) <= 0,
        path_order(a, b) < 0 && path_order(b, c) <= 0 ==> path_order(a, c) < 0,
        path_order(a, b) <= 0 && path_order(b, c) < 0 ==> path_order(a, c) < 0,
    decreases a.len(),
{
    if a.len() > 0 && b.len() > 0 && c.len() > 0 {
        lemma_text_order_is_total(a[0], b[0], c[0]);
        lemma_text_order_is_total(b[0], c[0], a[0]);
        lemma_text_order_is_total(a[0], c[0], b[0]);
        lemma_path_order_is_total(a.drop_first(), b.drop_first(), c.drop_first());
    } else if a.len() > 0 && b.len() > 0 {
        lemma_text_order_is_total(a[0], b[0], a[0]);
        lemma_path_order_is_total(a.drop_first(), b.drop_first(), c);
    }
    if a.len() > 0 && b.len() > 0 && a[0] == b[0] && a.drop_first() == b.drop_first() {
        assert(a =~= seq![a[0]] + a.drop_first());
        assert(b =~= seq![b[0]] + b.drop_first());
    }
    if a == b && a.len() > 0 {
        assert(a.drop_first() == b.drop_first());
    }
    if a.len() == 0 && b.len() == 0 {
        assert(a =~= b);
    }
}

/// Comparison of optional texts is a total order.
pub proof fn lemma_opt_order_is_total(a: Option<Seq<char>>, b: Option<Seq<char>>, c: Option<Seq<char>>)
    ensures
        opt_order(a, b) == -opt_order(b, a),
        -1 <= opt_order(a, b) <= 1,
        opt_order(a, b) == 0 <==> a == b,
        opt_order(a, b) <= 0 && opt_order(b, c) <= 0 ==> opt_order(a, c) <= 0,
        opt_order(a, b) < 0 && opt_order(b, c) <= 0 ==> opt_order(a, c) < 0,
        opt_order(a, b) <= 0 && opt_order(b, c) < 0 ==> opt_order(a, c) < 0,
{
    if a is Some && b is Some && c is Some {
        lemma_text_order_is_total(a->0, b->0, c->0);
    } else if a is Some && b is Some {
        lemma_text_order_is_total(a->0, b->0, a->0);
    }
}

/// Item comparison is a total order: swapping the items flips the result,
/// it is transitive, and two items compare equal only when every field,
/// group path, title, URL, username and notes, is the same.
pub proof fn lemma_item_order_is_total(a: ItemView, b: ItemView, c: ItemView)
    ensures
        item_order(a, b) == -item_order(b, a),
        -1 <= item_order(a, b) <= 1,
        item_order(a, b) <= 0 && item_order(b, c) <= 0 ==> item_order(a, c) <= 0,
        item_order(a, b) == 0 <==> a == b,
{
    lemma_path_order_is_total(a.group_path, b.group_path, c.group_path);
    lemma_opt_order_is_total(a.title, b.title, c.title);
    lemma_opt_order_is_total(a.url, b.url, c.url);
    lemma_opt_order_is_total(a.username, b.username, c.username);
    lemma_opt_order_is_total(a.notes, b.notes, c.notes);
}


/// Items are ordered field by field: the first field in which they differ,
/// in the order group path, title, URL, username, notes, decides; and an
/// absent field comes before a present one.
pub proof fn lemma_item_order_is_lexicographic(a: ItemView, b: ItemView, x: Seq<char>)
    ensures
        a.group_path != b.group_path ==> item_order(a, b) == path_order(a.group_path, b.group_path),
        a.group_path == b.group_path && a.title != b.title ==> item_order(a, b) == opt_order(
            a.title,
            b.title,
        ),
        a.group_path == b.group_path && a.title == b.title && a.url != b.url ==> item_order(a, b)
            == opt_order(a.url, b.url),
        a.group_path == b.group_path && a.title == b.title && a.url == b.url && a.username
            != b.username ==> item_order(a, b) == opt_order(a.username, b.username),
        a.group_path == b.group_path && a.title == b.title && a.url == b.url && a.username
            == b.username ==> item_order(a, b) == opt_order(a.notes, b.notes),
        opt_order(None, Some(x)) < 0,
{
    lemma_path_order_is_total(a.group_path, b.group_path, a.group_path);
    lemma_opt_order_is_total(a.title, b.title, a.title);
    lemma_opt_order_is_total(a.url, b.url, a.url);
    lemma_opt_order_is_total(a.username, b.username, a.username);
}

/// Compares two texts as [`text_order`] does.
pub fn compare_text(a: &str, b: &str) -> (r: i8)
    ensures
        r as int == text_order(a@, b@),
{
    let va = chars_of(a);
    let vb = chars_of(b);
    let mut i: usize = 0;
    assert(a@.skip(0) == a@);
    assert(b@.skip(0) == b@);
    while i < va.len() && i < vb.len() && va[i] == vb[i]
        invariant
            va@ == a@,
            vb@ == b@,
            i <= va.len(),
            i <= vb.len(),
            text_order(a@, b@) == text_order(a@.skip(i as int), b@.skip(i as int)),
        decreases va.len() - i,
    {
        assert(a@.skip(i as int).drop_first() == a@.skip(i + 1));
        assert(b@.skip(i as int).drop_first() == b@.skip(i + 1));
        i = i + 1;
    }
    if i == va.len() {
        if i == vb.len() {
            0
        } else {
            -1
        }
    } else if i == vb.len() {
        1
    } else if va[i] < vb[i] {
        -1
    } else {
        1
    }
}

/// Compares two group paths as [`path_order`] does.
pub fn compare_paths(a: &Vec<String>, b: &Vec<String>) -> (r: i8)
    ensures
        r as int == path_order(texts(a@), texts(b@)),
{
    let mut i: usize = 0;
    assert(texts(a@).skip(0) == texts(a@));
    assert(texts(b@).skip(0) == texts(b@));
    while i < a.len() && i < b.len()
        invariant
            i <= a.len(),
            i <= b.len(),
            path_order(texts(a@), texts(b@)) == path_order(texts(a@).skip(i as int), texts(b@).skip(i as int)),
        decreases a.len() - i,
    {
        let c = compare_text(a[i].as_str(), b[i].as_str());
        assert(texts(a@).skip(i as int)[0] == a@[i as int]@);
        assert(texts(b@).skip(i as int)[0] == b@[i as int]@);
        if c != 0 {
            return c;
        }
        assert(texts(a@).skip(i as int).drop_first() == texts(a@).skip(i + 1));
        assert(texts(b@).skip(i as int).drop_first() == texts(b@).skip(i + 1));
        i = i + 1;
    }
    if i == a.len() {
        if i == b.len() {
            0
        } else {
            -1
        }
    } else {
        1
    }
}

/// Compares two optional texts as [`opt_order`] does.
pub fn compare_opt(a: &Option<String>, b: &Option<String>) -> (r: i8)
    ensures
        r as int == opt_order(opt_text(*a), opt_text(*b)),
{
    match (a, b) {
        (None, None) => 0,
        (None, Some(_)) => -1,
        (Some(_), None) => 1,
        (Some(x), Some(y)) => compare_text(x.as_str(), y.as_str()),
    }
}

/// Compares two items as [`item_order`] does: by group path, then title, URL,
/// username and notes.
pub fn compare_items(a: &Item, b: &Item) -> (r: i8)
    ensures
        r as int == item_order(a@, b@),
{
    let c = compare_paths(&a.group_path, &b.group_path);
    if c != 0 {
        return c;
    }
    let c = compare_opt(&a.title, &b.title);
    if c != 0 {
        return c;
    }
    let c = compare_opt(&a.url, &b.url);
    if c != 0 {
        return c;
    }
    let c = compare_opt(&a.username, &b.username);
    if c != 0 {
        return c;
    }
    compare_opt(&a.notes, &b.notes)
}


/// Whether two texts are the same.
pub fn same_text(a: &str, b: &str) -> (r: bool)
    ensures
        r == (a@ == b@),
{
    proof {
        lemma_text_order_is_total(a@, b@, a@);
    }
    compare_text(a, b) == 0
}

} // verus!
