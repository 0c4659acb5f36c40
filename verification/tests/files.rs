use oneshare::acl::Permission;
use oneshare::files::{
    add_to_total, check_overwrite, check_save_size, compose_real, compound_splits,
    content_disposition, default_op, delete_action, is_hidden_name, is_inside_trash,
    is_safe_inline_mime, is_text_mime, is_valid_entry_name, join_child, leaf_name, listing_target,
    move_verdict, parent_path, parse_byte_range, renamed_path, resolve_checked, resolve_for_user,
    sees_real_tree, shadow_batch, text_preview, token_permission, trash_candidate_name,
    trash_fallback_name, trash_leaf, trash_step, walk_children, DeleteAction, ListTarget,
    TrashStep, TRASH_CANDIDATE_LIMIT,
};
use oneshare::rows::{AclEntryRow, UserRow};
use oneshare::status::Refusal;

fn user(id: i64, is_admin: bool) -> UserRow {
    UserRow {
        id,
        oidc_sub: format!("sub-{id}"),
        display_name: format!("user-{id}"),
        email: None,
        is_admin: if is_admin { 1 } else { 0 },
    }
}

fn acl(id: i64, path: &str, user_id: Option<i64>, group_id: Option<i64>, permission: &str) -> AclEntryRow {
    AclEntryRow { id, path: path.to_string(), user_id, group_id, permission: permission.to_string() }
}

#[test]
fn byte_range_open_ended_clamps_to_size() {
    assert_eq!(parse_byte_range("bytes=100-", 500).unwrap(), Some((100, 499)));
}

#[test]
fn byte_range_end_clamps_beyond_size() {
    assert_eq!(parse_byte_range("bytes=100-999", 500).unwrap(), Some((100, 499)));
}

#[test]
fn byte_range_suffix_reads_from_the_end() {
    assert_eq!(parse_byte_range("bytes=-100", 500).unwrap(), Some((400, 499)));
    assert_eq!(parse_byte_range("bytes=-1000", 500).unwrap(), Some((0, 499)));
}

#[test]
fn byte_range_unsatisfiable_requests_error() {
    assert!(parse_byte_range("bytes=500-", 500).is_err());
    assert!(parse_byte_range("bytes=-0", 500).is_err());
    assert!(parse_byte_range("bytes=300-200", 500).is_err());
    assert!(parse_byte_range("bytes=abc-", 500).is_err());
}

#[test]
fn byte_range_absent_or_foreign_unit_is_ignored() {
    assert_eq!(parse_byte_range("bytes=0-4", 500).unwrap(), Some((0, 4)));
    assert_eq!(parse_byte_range("", 500).unwrap(), None);
    assert_eq!(parse_byte_range("items=0-4", 500).unwrap(), None);
    assert_eq!(parse_byte_range("bytes=0-4,10-20", 500).unwrap(), Some((0, 4)));
}

#[test]
fn byte_range_edge_cases() {
    // Surrounding whitespace and a `+` sign are accepted like `str::parse`.
    assert_eq!(parse_byte_range("  bytes= 5-9 ", 500).unwrap(), Some((5, 9)));
    assert_eq!(parse_byte_range("bytes=+5-9", 500).unwrap(), Some((5, 9)));
    // No dash at all is malformed; an empty body satisfies nothing.
    assert!(parse_byte_range("bytes=5", 500).is_err());
    assert!(parse_byte_range("bytes=0-", 0).is_err());
    // A value beyond 64 bits does not parse.
    assert!(parse_byte_range("bytes=99999999999999999999-", 500).is_err());
    assert_eq!(parse_byte_range("bytes=499-499", 500).unwrap(), Some((499, 499)));
}

#[test]
fn content_disposition_escapes_non_ascii_and_quotes() {
    let v = content_disposition("inline", "报告 final\"v2\".pdf");
    assert!(v.starts_with("inline;"));
    assert!(v.contains("filename=\"__ final_v2_.pdf\""));
    assert!(v.contains("filename*=UTF-8''"));
}

#[test]
fn content_disposition_percent_encodes_the_utf8_name() {
    let v = content_disposition("attachment", "a b%\"é.txt");
    assert_eq!(
        v,
        "attachment; filename=\"a b%__.txt\"; filename*=UTF-8''a b%25%22%C3%A9.txt"
    );
}

/// A codec that only decodes the given shadows (whole-string only).
fn decode_with(table: &[(&str, &str)], shadow: &str) -> Option<String> {
    table.iter().find(|(s, _)| *s == shadow).map(|(_, r)| r.to_string())
}

fn decode_compound(table: &[(&str, &str)], shadow: &str) -> Option<String> {
    for (prefix, rest) in compound_splits(shadow) {
        if let Some(real) = decode_with(table, &prefix) {
            return Some(compose_real(&real, &rest));
        }
    }
    None
}

#[test]
fn decode_compound_resolves_dir_shadow_plus_literal_suffix() {
    let docs_only = [("docs", "real/docs")];
    let real = decode_compound(&docs_only, "docs/sub/deep/file.txt").unwrap();
    assert_eq!(real, "real/docs/sub/deep/file.txt");
}

#[test]
fn decode_compound_prefers_longest_decodable_prefix() {
    let two_level = [("docs", "real/docs"), ("docs/sub", "real/docs/sub")];
    let real = decode_compound(&two_level, "docs/sub/deep/file.txt").unwrap();
    assert_eq!(real, "real/docs/sub/deep/file.txt");
}

#[test]
fn decode_compound_returns_none_when_nothing_decodes() {
    let docs_only = [("docs", "real/docs")];
    assert_eq!(decode_compound(&docs_only, "other/deep/file.txt"), None);
    assert_eq!(decode_compound(&docs_only, "docs"), None);
}

#[test]
fn compound_splits_are_rightmost_first() {
    let splits = compound_splits("a/b/c");
    assert_eq!(
        splits,
        vec![("a/b".to_string(), "c".to_string()), ("a".to_string(), "b/c".to_string())]
    );
    assert!(compound_splits("plain").is_empty());
    assert_eq!(compose_real("", "x/y"), "x/y");
}

#[test]
fn is_inside_trash_detects_trash_contents_only() {
    let trash = "/srv/data/.trash";
    assert!(is_inside_trash(trash, "/srv/data/.trash"));
    assert!(is_inside_trash(trash, "/srv/data/.trash/docs"));
    assert!(is_inside_trash(trash, "/srv/data/.trash/docs/a.txt"));
    assert!(!is_inside_trash(trash, "/srv/data/.trash-2"));
    assert!(!is_inside_trash(trash, "/srv/data/trash"));
    assert!(!is_inside_trash(trash, "/srv/data/docs"));
    // Repeated and trailing separators and `.` pieces do not matter.
    assert!(is_inside_trash("/srv/data/.trash/", "/srv//data/./.trash/x"));
    assert!(!is_inside_trash("data/.trash", "/data/.trash/x"));
}

#[test]
fn trash_names_append_a_counter_before_the_extension() {
    assert_eq!(trash_candidate_name("report.txt", 1), "report (1).txt");
    assert_eq!(trash_candidate_name("archive.tar.gz", 2), "archive.tar (2).gz");
    assert_eq!(trash_candidate_name(".hidden", 3), ".hidden (3)");
    assert_eq!(trash_candidate_name("noext", 12), "noext (12)");
    assert_eq!(trash_fallback_name("a.txt", 1700000000000), "a-1700000000000.txt");
}

#[test]
fn mime_policies() {
    assert!(is_text_mime("text/plain"));
    assert!(is_text_mime("application/json"));
    assert!(is_text_mime("image/svg+xml"));
    assert!(!is_text_mime("application/pdf"));
    assert!(is_safe_inline_mime("image/png"));
    assert!(is_safe_inline_mime(" video/mp4 ; codecs=avc1"));
    assert!(is_safe_inline_mime("audio/mpeg"));
    assert!(!is_safe_inline_mime("image/svg+xml"));
    assert!(!is_safe_inline_mime("image/svg+xml; charset=utf-8"));
    assert!(!is_safe_inline_mime("text/html"));
    assert_eq!(default_op(), "read");
}

#[test]
fn names_paths_and_parents() {
    assert!(is_valid_entry_name("a..b"));
    assert!(!is_valid_entry_name(""));
    assert!(!is_valid_entry_name("."));
    assert!(!is_valid_entry_name(".."));
    assert!(!is_valid_entry_name("a/b"));
    assert!(!is_valid_entry_name("a\\b"));
    assert!(!is_valid_entry_name("a\0b"));
    assert_eq!(join_child("", "x"), "x");
    assert_eq!(join_child("a/b", "x"), "a/b/x");
    assert_eq!(parent_path(""), None);
    assert_eq!(parent_path("top").as_deref(), Some(""));
    assert_eq!(parent_path("a/b/c").as_deref(), Some("a/b"));
    assert_eq!(leaf_name("a/b/c.txt"), "c.txt");
    assert_eq!(leaf_name("c.txt"), "c.txt");
    assert_eq!(renamed_path("a/b/c.txt", "d.txt"), "a/b/d.txt");
    assert_eq!(renamed_path("c.txt", "d.txt"), "d.txt");
    assert!(is_hidden_name(".libfw-tmp"));
    assert!(!is_hidden_name("visible"));
}

#[test]
fn resolution_for_users_and_admins() {
    let entries = vec![acl(1, "nested/public2", None, Some(10), "write")];
    let u = user(1, false);
    assert!(!sees_real_tree(&u, &[10], &entries));
    assert!(sees_real_tree(&user(2, true), &[], &entries));
    assert_eq!(
        resolve_for_user(&u, &[10], &entries, "/public2/a.txt").as_deref(),
        Some("nested/public2/a.txt")
    );
    assert_eq!(resolve_for_user(&u, &[10], &entries, "nested/public2"), None);
    assert_eq!(
        resolve_for_user(&user(2, true), &[], &entries, "/x/../y"),
        None
    );
    assert_eq!(
        resolve_checked(&u, &[10], &entries, "public2", &Permission::Write),
        Ok("nested/public2".to_string())
    );
    assert_eq!(
        resolve_checked(&u, &[], &entries, "public2", &Permission::Read),
        Err(Refusal::Forbidden)
    );
}

#[test]
fn listing_targets() {
    let entries = vec![acl(1, "nested/public2", None, Some(10), "read")];
    let u = user(1, false);
    assert_eq!(listing_target(&u, &[10], &entries, "/"), Ok(ListTarget::ShareRoot));
    assert_eq!(
        listing_target(&u, &[10], &entries, "public2/sub"),
        Ok(ListTarget::Dir { real_path: "nested/public2/sub".to_string(), writable: false })
    );
    assert_eq!(listing_target(&u, &[10], &entries, "nope"), Err(Refusal::NotFound));
    assert_eq!(
        listing_target(&user(2, true), &[], &entries, "a/../b"),
        Err(Refusal::BadRequest)
    );
    assert_eq!(
        listing_target(&user(2, true), &[], &entries, ""),
        Ok(ListTarget::Dir { real_path: String::new(), writable: true })
    );
}

#[test]
fn file_operation_guards() {
    assert_eq!(move_verdict("a", "a"), Err(Refusal::BadRequest));
    assert_eq!(move_verdict("a", "a/b"), Err(Refusal::BadRequest));
    assert_eq!(move_verdict("a", "ab"), Ok(()));
    assert_eq!(delete_action("", &None, "/root"), DeleteAction::RefuseRoot);
    assert_eq!(delete_action("x", &None, "/root/x"), DeleteAction::Permanent { in_trash: false });
    let trash = Some("/root/.trash".to_string());
    assert_eq!(delete_action("x", &trash, "/root/x"), DeleteAction::MoveToTrash);
    assert_eq!(
        delete_action(".trash/x", &trash, "/root/.trash/x"),
        DeleteAction::Permanent { in_trash: true }
    );
    assert_eq!(check_save_size("hello"), Ok(()));
    assert_eq!(check_save_size(&"x".repeat(1024 * 1024 + 1)), Err(Refusal::PayloadTooLarge));
    assert_eq!(check_overwrite(b"plain text".to_vec()), Ok(()));
    assert_eq!(check_overwrite(vec![b'a', 0, b'b']), Err(Refusal::UnsupportedMediaType));
    assert_eq!(check_overwrite(vec![0xff, 0xfe]), Err(Refusal::UnsupportedMediaType));
    assert_eq!(token_permission("write"), Permission::Write);
    assert_eq!(token_permission("anything"), Permission::Read);
}

#[test]
fn text_previews() {
    let p = text_preview("text/plain", 5, Some(b"hello".to_vec()));
    assert!(p.is_text && !p.truncated);
    assert_eq!(p.content.as_deref(), Some("hello"));
    // Extension-less text is sniffed by content.
    let p = text_preview("application/octet-stream", 2, Some(b"ok".to_vec()));
    assert!(p.is_text);
    // A NUL byte makes undeclared content binary.
    let p = text_preview("application/octet-stream", 3, Some(vec![b'a', 0, b'b']));
    assert!(!p.is_text && p.content.is_none());
    // Oversized text is truncated; oversized binary is just binary.
    let p = text_preview("text/plain", 2 * 1024 * 1024, None);
    assert!(p.is_text && p.truncated && p.content.is_none());
    let p = text_preview("image/png", 2 * 1024 * 1024, None);
    assert!(!p.is_text && !p.truncated);
    // An unreadable file is reported as non-text.
    let p = text_preview("text/plain", 5, None);
    assert!(!p.is_text);
}

#[test]
fn shadow_batches() {
    assert_eq!(
        shadow_batch("a,,b,a").unwrap(),
        vec!["a".to_string(), "b".to_string()]
    );
    assert_eq!(shadow_batch(",,"), Err(Refusal::BadRequest));
    let many: Vec<String> = (0..201).map(|i| format!("s{i}")).collect();
    assert_eq!(shadow_batch(&many.join(",")), Err(Refusal::BadRequest));
    let ok: Vec<String> = (0..200).map(|i| format!("s{i}")).collect();
    assert_eq!(shadow_batch(&ok.join(",")).unwrap().len(), 200);
}

#[test]
fn size_walk_totals() {
    assert_eq!(add_to_total(4, 3, None), (7, false));
    assert_eq!(add_to_total(4, 3, Some(7)), (7, false));
    assert_eq!(add_to_total(4, 3, Some(6)), (7, true));
    assert_eq!(add_to_total(u64::MAX, 1, None), (u64::MAX, false));
}

#[test]
fn size_walk_descends_only_into_visible_readable_children() {
    let u = user(1, false);
    let entries = vec![AclEntryRow {
        id: 1,
        path: "docs/public".to_string(),
        user_id: Some(1),
        group_id: None,
        permission: "read".to_string(),
    }];
    let names: Vec<String> =
        ["public", ".git", "secret", "publication"].iter().map(|s| s.to_string()).collect();
    assert_eq!(walk_children(&u, &[], &entries, "docs", &names), vec!["docs/public".to_string()]);
    let admin = user(2, true);
    assert_eq!(
        walk_children(&admin, &[], &[], "", &names),
        vec!["public".to_string(), "secret".to_string(), "publication".to_string()]
    );
}

#[test]
fn trash_names_are_numbered_until_the_limit_then_fall_back() {
    assert!(matches!(trash_step("report.txt", 0, false), TrashStep::Use));
    match trash_step("report.txt", 0, true) {
        TrashStep::Probe(1, name) => assert_eq!(name, "report (1).txt"),
        _ => panic!("expected the first numbered name"),
    }
    match trash_step("report.txt", 41, true) {
        TrashStep::Probe(42, name) => assert_eq!(name, "report (42).txt"),
        _ => panic!("expected the next numbered name"),
    }
    assert!(matches!(trash_step("report.txt", 7, false), TrashStep::Use));
    assert!(matches!(trash_step("report.txt", TRASH_CANDIDATE_LIMIT - 1, true), TrashStep::Fallback));
    assert!(matches!(trash_step("report.txt", TRASH_CANDIDATE_LIMIT - 2, true), TrashStep::Probe(99999, _)));
    assert_eq!(trash_leaf(Some("a.txt")), "a.txt");
    assert_eq!(trash_leaf(None), "item");
}
