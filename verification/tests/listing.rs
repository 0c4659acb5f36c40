use oneshare::files::{range_plan, RangePlan};
use oneshare::listing::{order_entries, readable_entries};
use oneshare::models::FileEntry;
use oneshare::rows::{AclEntryRow, UserRow};

fn entry(name: &str, is_dir: bool) -> FileEntry {
    FileEntry {
        name: name.to_string(),
        path: name.to_string(),
        is_dir,
        size: 0,
        modified: String::new(),
        mime_type: String::new(),
    }
}

#[test]
fn listings_put_directories_first_then_names_case_insensitively() {
    let entries = vec![
        entry("b.txt", false),
        entry("Zeta", true),
        entry("a.txt", false),
        entry("alpha", true),
        entry("B.TXT", false),
        entry("Äpfel", false),
    ];
    let ordered = order_entries(&entries);
    let names: Vec<&str> = ordered.iter().map(|e| e.name.as_str()).collect();
    assert_eq!(names, vec!["alpha", "Zeta", "a.txt", "b.txt", "B.TXT", "Äpfel"]);
    assert!(order_entries(&Vec::new()).is_empty());
}

#[test]
fn listings_hide_unreadable_entries() {
    let user = UserRow {
        id: 1,
        oidc_sub: "sub-1".to_string(),
        display_name: "u".to_string(),
        email: None,
        is_admin: 0,
    };
    let acl = vec![AclEntryRow {
        id: 1,
        path: "pub".to_string(),
        user_id: Some(1),
        group_id: None,
        permission: "read".to_string(),
    }];
    let candidates = vec![
        (entry("a", false), "pub/a".to_string()),
        (entry("secret", false), "private/secret".to_string()),
        (entry("b", true), "pub/b".to_string()),
    ];
    let shown = readable_entries(&user, &[], &acl, &candidates);
    let names: Vec<&str> = shown.iter().map(|e| e.name.as_str()).collect();
    assert_eq!(names, vec!["a", "b"]);
}

#[test]
fn range_plans() {
    assert_eq!(range_plan(500, None), RangePlan::Full { length: 500 });
    assert_eq!(
        range_plan(500, Some("bytes=0-4")),
        RangePlan::Partial { start: 0, end: 4, length: 5, content_range: "bytes 0-4/500".to_string() }
    );
    assert_eq!(
        range_plan(500, Some("bytes=600-")),
        RangePlan::Unsatisfiable { content_range: "bytes */500".to_string() }
    );
    assert_eq!(range_plan(500, Some("items=1-2")), RangePlan::Full { length: 500 });
}

#[test]
fn entries_that_tie_keep_their_order() {
    let first = order_entries(&vec![entry("B.TXT", false), entry("b.txt", false)]);
    let names: Vec<&str> = first.iter().map(|e| e.name.as_str()).collect();
    assert_eq!(names, vec!["B.TXT", "b.txt"]);
    let second = order_entries(&vec![entry("b.txt", false), entry("B.TXT", false)]);
    let names: Vec<&str> = second.iter().map(|e| e.name.as_str()).collect();
    assert_eq!(names, vec!["b.txt", "B.TXT"]);
}
