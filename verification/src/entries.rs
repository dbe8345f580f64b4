//! The entries of a database, gathered group by group for the finder.

use vstd::prelude::*;
use crate::item::{Item, ItemView, opt_text, texts};

verus! {

/// An entry of a password database as the listing reads it: a key by which
/// the caller finds the entry again, whether it holds a password, and its
/// title, URL, username and notes.
pub struct DbEntry {
    pub id: usize,
    pub has_password: bool,
    pub title: Option<String>,
    pub url: Option<String>,
    pub username: Option<String>,
    pub notes: Option<String>,
}

/// A group of a password database: its name, its entries and its
/// subgroups, each in the database's order.
pub struct DbGroup {
    pub name: String,
    pub entries: Vec<DbEntry>,
    pub groups: Vec<DbGroup>,
}

/// A listed entry: its key and the item shown for it.
pub open spec fn listed_view(v: Seq<(usize, Item)>) -> Seq<(usize, ItemView)> {
    v.map_values(|p: (usize, Item)| (p.0, p.1@))
}

/// The item shown for an entry found under the group path `path`.
pub open spec fn entry_item(e: DbEntry, path: Seq<Seq<char>>) -> ItemView {
    ItemView {
        group_path: path,
        title: opt_text(e.title),
        url: opt_text(e.url),
        username: opt_text(e.username),
        notes: opt_text(e.notes),
    }
}

/// The entries among `es` that hold a password, in order, as listed under
/// `path`.
pub open spec fn entries_listed(es: Seq<DbEntry>, path: Seq<Seq<char>>) -> Seq<(usize, ItemView)>
    decreases es.len(),
{
    if es.len() == 0 {
        Seq::empty()
    } else {
        entries_listed(es.drop_last(), path) + if es.last().has_password {
            seq![(es.last().id, entry_item(es.last(), path))]
        } else {
            Seq::empty()
        }
    }
}

/// Everything listed from group `g` reached by `path`: its own entries
/// first, then those of each subgroup in turn, with the subgroup's name
/// added to the path.
pub open spec fn group_listed(g: DbGroup, path: Seq<Seq<char>>) -> Seq<(usize, ItemView)>
    decreases g, 1int,
{
    entries_listed(g.entries@, path) + groups_listed(g, g.groups@.len() as int, path)
}

/// Everything listed from the first `n` subgroups of `g` reached by `path`.
pub open spec fn groups_listed(g: DbGroup, n: int, path: Seq<Seq<char>>) -> Seq<(usize, ItemView)>
    decreases g, 0int, n,
{
    if n <= 0 || n > g.groups@.len() {
        Seq::empty()
    } else {
        let sub = g.groups@[n - 1];
        groups_listed(g, n - 1, path) + group_listed(sub, path.push(sub.name@))
    }
}


/// Every entry under group `g`, in the order the listing visits them: the
/// group's own entries, then those under each subgroup in turn.
pub open spec fn group_entries(g: DbGroup) -> Seq<DbEntry>
    decreases g, 1int,
{
    g.entries@ + subgroups_entries(g, g.groups@.len() as int)
}

/// Every entry under the first `n` subgroups of `g`.
pub open spec fn subgroups_entries(g: DbGroup, n: int) -> Seq<DbEntry>
    decreases g, 0int, n,
{
    if n <= 0 || n > g.groups@.len() {
        Seq::empty()
    } else {
        subgroups_entries(g, n - 1) + group_entries(g.groups@[n - 1])
    }
}

/// The keys of listed entries, in order.
pub open spec fn listed_keys(v: Seq<(usize, ItemView)>) -> Seq<usize> {
    v.map_values(|x: (usize, ItemView)| x.0)
}

/// The keys of the entries that hold a password, in order.
pub open spec fn keys_with_password(es: Seq<DbEntry>) -> Seq<usize> {
    es.filter(|e: DbEntry| e.has_password).map_values(|e: DbEntry| e.id)
}

/// Keys and filtering both distribute over joined sequences.
proof fn lemma_keys_distribute(
    a: Seq<(usize, ItemView)>,
    b: Seq<(usize, ItemView)>,
    x: Seq<DbEntry>,
    y: Seq<DbEntry>,
)
    ensures
        listed_keys(a + b) == listed_keys(a) + listed_keys(b),
        keys_with_password(x + y) == keys_with_password(x) + keys_with_password(y),
{
    assert(listed_keys(a + b) =~= listed_keys(a) + listed_keys(b));
    let f = |e: DbEntry| e.has_password;
    Seq::filter_distributes_over_add(x, y, f);
    assert((x + y).filter(f).map_values(|e: DbEntry| e.id) =~= x.filter(f).map_values(
        |e: DbEntry| e.id,
    ) + y.filter(f).map_values(|e: DbEntry| e.id));
}

/// Listing a group's own entries keeps exactly those that hold a password.
proof fn lemma_entries_listed_keys(es: Seq<DbEntry>, path: Seq<Seq<char>>)
    ensures
        listed_keys(entries_listed(es, path)) == keys_with_password(es),
    decreases es.len(),
{
    if es.len() > 0 {
        let init = es.drop_last();
        let e = es.last();
        lemma_entries_listed_keys(init, path);
        assert(es == init + seq![e]);
        let tail: Seq<(usize, ItemView)> = if e.has_password {
            seq![(e.id, entry_item(e, path))]
        } else {
            Seq::empty()
        };
        lemma_keys_distribute(entries_listed(init, path), tail, init, seq![e]);
        assert(seq![e].filter(|e: DbEntry| e.has_password) =~= if e.has_password {
            seq![e]
        } else {
            Seq::empty()
        }) by {
            reveal_with_fuel(Seq::filter, 2);
        }
        assert(listed_keys(tail) =~= keys_with_password(seq![e]));
    }
}

/// The listing of a group holds exactly the entries under it that hold a
/// password, in the order they are visited: entries without a password
/// are left out, and no other is.
pub proof fn lemma_listing_keeps_entries_with_password(g: DbGroup, path: Seq<Seq<char>>)
    ensures
        listed_keys(group_listed(g, path)) == keys_with_password(group_entries(g)),
    decreases g, 1int,
{
    lemma_entries_listed_keys(g.entries@, path);
    lemma_subgroups_listed_keys(g, g.groups@.len() as int, path);
    lemma_keys_distribute(
        entries_listed(g.entries@, path),
        groups_listed(g, g.groups@.len() as int, path),
        g.entries@,
        subgroups_entries(g, g.groups@.len() as int),
    );
}

/// The subgroup part of [`lemma_listing_keeps_entries_with_password`].
proof fn lemma_subgroups_listed_keys(g: DbGroup, n: int, path: Seq<Seq<char>>)
    ensures
        listed_keys(groups_listed(g, n, path)) == keys_with_password(subgroups_entries(g, n)),
    decreases g, 0int, n,
{
    if n <= 0 || n > g.groups@.len() {
        assert(listed_keys(Seq::<(usize, ItemView)>::empty()) =~= Seq::<usize>::empty());
        assert(keys_with_password(Seq::<DbEntry>::empty()) =~= Seq::<usize>::empty());
    } else {
        let sub = g.groups@[n - 1];
        lemma_subgroups_listed_keys(g, n - 1, path);
        lemma_listing_keeps_entries_with_password(sub, path.push(sub.name@));
        lemma_keys_distribute(
            groups_listed(g, n - 1, path),
            group_listed(sub, path.push(sub.name@)),
            subgroups_entries(g, n - 1),
            group_entries(sub),
        );
    }
}

/// The entries among `es` that hold a password, in order.
pub open spec fn with_password(es: Seq<DbEntry>) -> Seq<DbEntry> {
    es.filter(|e: DbEntry| e.has_password)
}

/// Each listed item is its own entry: the `k`-th listed pair holds the key,
/// title, URL, username and notes of the `k`-th entry of `es`.
pub open spec fn carries_fields(listed: Seq<(usize, ItemView)>, es: Seq<DbEntry>) -> bool {
    &&& listed.len() == es.len()
    &&& forall|k: int|
        0 <= k < listed.len() ==> {
            &&& (#[trigger] listed[k]).0 == es[k].id
            &&& listed[k].1.title == opt_text(es[k].title)
            &&& listed[k].1.url == opt_text(es[k].url)
            &&& listed[k].1.username == opt_text(es[k].username)
            &&& listed[k].1.notes == opt_text(es[k].notes)
        }
}

/// Listings that carry their entries' fields join into one that does.
proof fn lemma_carries_fields_join(
    a: Seq<(usize, ItemView)>,
    x: Seq<DbEntry>,
    b: Seq<(usize, ItemView)>,
    y: Seq<DbEntry>,
)
    requires
        carries_fields(a, x),
        carries_fields(b, y),
    ensures
        carries_fields(a + b, x + y),
{
    assert forall|k: int| 0 <= k < (a + b).len() implies {
        &&& (#[trigger] (a + b)[k]).0 == (x + y)[k].id
        &&& (a + b)[k].1.title == opt_text((x + y)[k].title)
        &&& (a + b)[k].1.url == opt_text((x + y)[k].url)
        &&& (a + b)[k].1.username == opt_text((x + y)[k].username)
        &&& (a + b)[k].1.notes == opt_text((x + y)[k].notes)
    } by {
        if k < a.len() {
            assert((a + b)[k] == a[k]);
            assert((x + y)[k] == x[k]);
        } else {
            assert((a + b)[k] == b[k - a.len()]);
            assert((x + y)[k] == y[k - x.len()]);
        }
    }
}

/// A group's own entries, listed, carry their fields.
proof fn lemma_entries_listed_fields(es: Seq<DbEntry>, path: Seq<Seq<char>>)
    ensures
        carries_fields(entries_listed(es, path), with_password(es)),
    decreases es.len(),
{
    if es.len() == 0 {
        assert(with_password(es) =~= Seq::<DbEntry>::empty());
    } else {
        let init = es.drop_last();
        let e = es.last();
        lemma_entries_listed_fields(init, path);
        assert(es == init + seq![e]);
        let f = |e: DbEntry| e.has_password;
        Seq::filter_distributes_over_add(init, seq![e], f);
        assert(seq![e].filter(f) =~= if e.has_password {
            seq![e]
        } else {
            Seq::empty()
        }) by {
            reveal_with_fuel(Seq::filter, 2);
        }
        let tail: Seq<(usize, ItemView)> = if e.has_password {
            seq![(e.id, entry_item(e, path))]
        } else {
            Seq::empty()
        };
        assert(carries_fields(tail, seq![e].filter(f)));
        lemma_carries_fields_join(entries_listed(init, path), with_password(init), tail, seq![e].filter(f));
    }
}

/// Each listed item carries its own entry's fields: the `k`-th item listed
/// from a group is the `k`-th entry under it that holds a password, with
/// that entry's key, title, URL, username and notes.
pub proof fn lemma_listed_items_are_their_entries(g: DbGroup, path: Seq<Seq<char>>)
    ensures
        carries_fields(group_listed(g, path), with_password(group_entries(g))),
    decreases g, 1int,
{
    lemma_entries_listed_fields(g.entries@, path);
    lemma_subgroups_listed_fields(g, g.groups@.len() as int, path);
    Seq::filter_distributes_over_add(
        g.entries@,
        subgroups_entries(g, g.groups@.len() as int),
        |e: DbEntry| e.has_password,
    );
    lemma_carries_fields_join(
        entries_listed(g.entries@, path),
        with_password(g.entries@),
        groups_listed(g, g.groups@.len() as int, path),
        with_password(subgroups_entries(g, g.groups@.len() as int)),
    );
}

/// The subgroup part of [`lemma_listed_items_are_their_entries`].
proof fn lemma_subgroups_listed_fields(g: DbGroup, n: int, path: Seq<Seq<char>>)
    ensures
        carries_fields(groups_listed(g, n, path), with_password(subgroups_entries(g, n))),
    decreases g, 0int, n,
{
    if n <= 0 || n > g.groups@.len() {
        assert(with_password(Seq::<DbEntry>::empty()) =~= Seq::<DbEntry>::empty());
    } else {
        let sub = g.groups@[n - 1];
        lemma_subgroups_listed_fields(g, n - 1, path);
        lemma_listed_items_are_their_entries(sub, path.push(sub.name@));
        Seq::filter_distributes_over_add(
            subgroups_entries(g, n - 1),
            group_entries(sub),
            |e: DbEntry| e.has_password,
        );
        lemma_carries_fields_join(
            groups_listed(g, n - 1, path),
            with_password(subgroups_entries(g, n - 1)),
            group_listed(sub, path.push(sub.name@)),
            with_password(group_entries(sub)),
        );
    }
}

/// A copy of an optional string.
fn copy_opt(o: &Option<String>) -> (r: Option<String>)
    ensures
        opt_text(r) == opt_text(*o),
{
    match o {
        Some(s) => Some(s.clone()),
        None => None,
    }
}

/// A copy of a list of strings.
fn copy_texts(v: &Vec<String>) -> (r: Vec<String>)
    ensures
        texts(r@) == texts(v@),
{
    let mut r: Vec<String> = Vec::new();
    let n = v.len();
    for i in 0..n
        invariant
            n == v.len(),
            texts(r@) == texts(v@.take(i as int)),
    {
        let ghost before = r@;
        let c = v[i].clone();
        r.push(c);
        assert(v@.take(i + 1) == v@.take(i as int).push(v@[i as int]));
        assert(texts(r@) =~= texts(before).push(c@));
        assert(texts(v@.take(i + 1)) =~= texts(v@.take(i as int)).push(v@[i as int]@));
    }
    assert(v@.take(n as int) == v@);
    r
}

/// Appends to `entries` every entry under `group` that holds a password,
/// with the item shown for it: first the group's own entries, then, group
/// by group, those of its subgroups, whose names extend `path`.
pub fn traverse_entries(entries: &mut Vec<(usize, Item)>, group: &DbGroup, path: Vec<String>)
    ensures
        listed_view(final(entries)@) == listed_view(old(entries)@) + group_listed(*group, texts(path@)),
    decreases group,
{
    let ghost start = listed_view(entries@);
    let ghost pv = texts(path@);
    let n = group.entries.len();
    for i in 0..n
        invariant
            n == group.entries.len(),
            pv == texts(path@),
            listed_view(entries@) == start + entries_listed(group.entries@.take(i as int), pv),
    {
        let e = &group.entries[i];
        let ghost before = entries@;
        assert(group.entries@.take(i + 1).drop_last() == group.entries@.take(i as int));
        if e.has_password {
            let item = Item {
                group_path: copy_texts(&path),
                title: copy_opt(&e.title),
                url: copy_opt(&e.url),
                username: copy_opt(&e.username),
                notes: copy_opt(&e.notes),
            };
            assert(item@ == entry_item(*e, pv));
            entries.push((e.id, item));
            assert(listed_view(entries@) == listed_view(before).push((e.id, item@)));
        }
    }
    assert(group.entries@.take(n as int) == group.entries@);
    let m = group.groups.len();
    for j in 0..m
        invariant
            m == group.groups.len(),
            pv == texts(path@),
            listed_view(entries@) == start + entries_listed(group.entries@, pv) + groups_listed(
                *group,
                j as int,
                pv,
            ),
    {
        let g = &group.groups[j];
        let mut subpath = copy_texts(&path);
        subpath.push(g.name.clone());
        assert(texts(subpath@) == pv.push(g.name@));
        assert(decreases_to!(group => group.groups@[j as int]));
        traverse_entries(entries, g, subpath);
    }
}

} // verus!
