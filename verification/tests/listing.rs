use keefuzz::entries::{traverse_entries, DbEntry, DbGroup};
use keefuzz::item::Item;
use keefuzz::listing::{prepare_listing, sort_entries};
use keefuzz::order::compare_items;

fn entry(id: usize, has_password: bool, title: &str) -> DbEntry {
    DbEntry {
        id,
        has_password,
        title: Some(title.into()),
        url: None,
        username: None,
        notes: None,
    }
}

fn sample() -> DbGroup {
    DbGroup {
        name: "Root".into(),
        entries: vec![entry(1, true, "zeta"), entry(2, false, "nopass")],
        groups: vec![
            DbGroup {
                name: "Work".into(),
                entries: vec![entry(3, true, "mail")],
                groups: vec![DbGroup {
                    name: "Deep".into(),
                    entries: vec![entry(4, true, "vpn")],
                    groups: Vec::new(),
                }],
            },
            DbGroup {
                name: "Home".into(),
                entries: vec![entry(5, true, "alpha")],
                groups: Vec::new(),
            },
        ],
    }
}

#[test]
fn traversal_skips_entries_without_password_and_records_paths() {
    let mut entries = Vec::new();
    traverse_entries(&mut entries, &sample(), Vec::new());
    let ids: Vec<usize> = entries.iter().map(|(id, _)| *id).collect();
    assert_eq!(ids, vec![1, 3, 4, 5]);
    assert_eq!(entries[2].1.group_path, vec!["Work".to_string(), "Deep".to_string()]);
    assert_eq!(entries[0].1.group_path, Vec::<String>::new());
    assert_eq!(entries[3].1.title.as_deref(), Some("alpha"));
}

#[test]
fn listing_is_sorted_and_ids_follow_lines() {
    let mut entries = Vec::new();
    traverse_entries(&mut entries, &sample(), Vec::new());
    let listing = prepare_listing(entries).unwrap();
    assert_eq!(listing.ids, vec![1, 5, 3, 4]);
    assert_eq!(
        listing.input,
        "/zeta\t\t\t\0/Home/alpha\t\t\t\0/Work/mail\t\t\t\0/Work/Deep/vpn\t\t\t\0"
    );
}

#[test]
fn nothing_to_list_gives_none() {
    assert!(prepare_listing(Vec::new()).is_none());
}

fn item(path: &[&str], title: Option<&str>) -> Item {
    Item {
        group_path: path.iter().map(|s| s.to_string()).collect(),
        title: title.map(|s| s.to_string()),
        url: None,
        username: None,
        notes: None,
    }
}

#[test]
fn item_order_matches_derived_order() {
    let items = vec![
        item(&[], None),
        item(&[], Some("b")),
        item(&["a"], Some("a")),
        item(&["a", "b"], None),
        item(&["ab"], None),
        item(&["é"], None),
        item(&["z"], Some("")),
    ];
    for a in &items {
        for b in &items {
            let expected = match a.cmp(b) {
                std::cmp::Ordering::Less => -1,
                std::cmp::Ordering::Equal => 0,
                std::cmp::Ordering::Greater => 1,
            };
            assert_eq!(compare_items(a, b), expected, "{:?} vs {:?}", a, b);
        }
    }
}

#[test]
fn sort_matches_std_sort_on_items() {
    let input = vec![
        (0, item(&["b"], Some("x"))),
        (1, item(&["a"], None)),
        (2, item(&["b"], None)),
        (3, item(&["a", "c"], Some("y"))),
    ];
    let mut expected = input.clone();
    expected.sort_by(|(_, a), (_, b)| a.cmp(b));
    let sorted = sort_entries(input);
    assert_eq!(sorted, expected);
}
