//! The catalog's administrative operations and the admin panel's form
//! helpers.

use udv_qna_bot::admin::{
    add_attachment, checkbox_value, delete_attachment, index, parse_i64, reorder_from_ids,
    resolve_attachment_update, stri64_from_string,
};
use udv_qna_bot::catalog::Catalog;
use udv_qna_bot::models::{Category, Question, Reorder, Stri64, User};

fn named_catalog() -> Catalog {
    let mut catalog = Catalog::new();
    catalog.create_category("First".to_string(), false, 0).unwrap();
    catalog.create_category("Second".to_string(), true, 1).unwrap();
    catalog
}

#[test]
fn create_and_get_category() {
    let mut catalog = Catalog::new();
    let id = catalog.create_category("First".to_string(), false, 5).unwrap();
    let stored = catalog.get_category(id).unwrap();
    assert_eq!(stored.name, "First");
    assert!(!stored.hidden);
    assert_eq!(stored.ordering, 5);
    assert!(catalog.get_category(id + 1).is_none());
}

#[test]
fn update_category_keeps_ordering() {
    let mut catalog = named_catalog();
    catalog.update_category(1, "Renamed".to_string(), true);
    let stored = catalog.get_category(1).unwrap();
    assert_eq!(stored.name, "Renamed");
    assert!(stored.hidden);
    assert_eq!(stored.ordering, 0);
}

#[test]
fn delete_category_removes_only_its_target() {
    let mut catalog = named_catalog();
    catalog.delete_category(1);
    assert!(catalog.get_category(1).is_none());
    assert!(catalog.get_category(2).is_some());
}

#[test]
fn public_categories_hide_the_hidden() {
    let catalog = named_catalog();
    let public: Vec<String> = catalog.get_public_categories().into_iter().map(|c| c.name).collect();
    assert_eq!(public, vec!["First".to_string()]);
    let all: Vec<String> = catalog.get_all_categories().into_iter().map(|c| c.name).collect();
    assert_eq!(all, vec!["First".to_string(), "Second".to_string()]);
}

#[test]
fn reorder_categories_moves_rows() {
    let mut catalog = named_catalog();
    let rows = vec![Reorder { id: 1, ordering: 9 }, Reorder { id: 2, ordering: 1 }];
    catalog.reorder_categories(&rows);
    let all: Vec<String> = catalog.get_all_categories().into_iter().map(|c| c.name).collect();
    assert_eq!(all, vec!["Second".to_string(), "First".to_string()]);
}

#[test]
fn questions_sort_by_ordering_then_id_descending() {
    let mut catalog = Catalog::new();
    let cat = catalog.create_category("C".to_string(), false, 0).unwrap();
    catalog.create_question("older".to_string(), "a".to_string(), Some(cat), Vec::new(), false, 1).unwrap();
    catalog.create_question("newer".to_string(), "b".to_string(), Some(cat), Vec::new(), false, 1).unwrap();
    catalog.create_question("first".to_string(), "c".to_string(), Some(cat), Vec::new(), false, 0).unwrap();
    let listed: Vec<String> = catalog.get_all_questions().into_iter().map(|q| q.question).collect();
    assert_eq!(listed, vec!["first".to_string(), "newer".to_string(), "older".to_string()]);
}

#[test]
fn question_lookup_ignores_hidden_flag() {
    let mut catalog = Catalog::new();
    let cat = catalog.create_category("C".to_string(), false, 0).unwrap();
    catalog.create_question("Q".to_string(), "A".to_string(), Some(cat), Vec::new(), true, 0).unwrap();
    // the joined lookup used for answers still finds a hidden question
    let q = catalog.get_question_by_category_name(&"Q".to_string(), &"C".to_string());
    assert_eq!(q.unwrap().answer, "A");
    // but the public keyboard listing does not offer it
    let offered = catalog.get_public_questions_for_public_category(&"C".to_string());
    assert!(offered.is_empty());
}

#[test]
fn update_and_delete_question() {
    let mut catalog = Catalog::new();
    let cat = catalog.create_category("C".to_string(), false, 0).unwrap();
    let q = catalog.create_question("Q".to_string(), "A".to_string(), Some(cat), Vec::new(), false, 3).unwrap();
    catalog.update_question(q, Some(cat), "Q'".to_string(), "A'".to_string(), Vec::new(), true);
    let stored = catalog.get_question_by_id(q).unwrap();
    assert_eq!(stored.question, "Q'");
    assert_eq!(stored.answer, "A'");
    assert!(stored.hidden);
    assert_eq!(stored.ordering, 3);
    catalog.delete_question(q);
    assert!(catalog.get_question_by_id(q).is_none());
}

#[test]
fn user_roundtrip() {
    let mut catalog = Catalog::new();
    catalog.create_user(5, None, "Five".to_string(), None, false, true).unwrap();
    assert!(catalog.create_user(5, None, "Again".to_string(), None, false, false).is_err());
    let stored = catalog.get_user(5).unwrap();
    assert!(stored.active);
    let mut changed = stored.clone();
    changed.active = false;
    catalog.update_user(changed).unwrap();
    assert!(!catalog.get_user(5).unwrap().active);
    assert_eq!(catalog.get_users().len(), 1);
    catalog.delete_user(5).unwrap();
    assert!(catalog.get_user(5).is_none());
    assert!(catalog.delete_user(5).is_err());
}

#[test]
fn import_categories_syncs_the_set() {
    let mut catalog = named_catalog();
    let incoming = vec![
        Category { id: 2, name: "Kept".to_string(), hidden: false, ordering: 0 },
        Category { id: 99, name: "New".to_string(), hidden: false, ordering: 7 },
    ];
    catalog.import_categories(&incoming);
    // id 1 was absent from the import and is gone
    assert!(catalog.get_category(1).is_none());
    // id 2 was updated in place
    let kept = catalog.get_category(2).unwrap();
    assert_eq!(kept.name, "Kept");
    assert!(!kept.hidden);
    // the new record got a fresh id, not the one the file claimed
    assert!(catalog.get_category(99).is_none());
    let created = catalog.get_category(3).unwrap();
    assert_eq!(created.name, "New");
    assert_eq!(created.ordering, 7);
}

#[test]
fn import_questions_syncs_the_set() {
    let mut catalog = Catalog::new();
    let cat = catalog.create_category("C".to_string(), false, 0).unwrap();
    let q1 = catalog.create_question("Q1".to_string(), "A1".to_string(), Some(cat), Vec::new(), false, 0).unwrap();
    catalog.create_question("Q2".to_string(), "A2".to_string(), Some(cat), Vec::new(), false, 1).unwrap();
    let incoming = vec![Question {
        id: q1,
        category: Some(cat),
        question: "Q1".to_string(),
        answer: "changed".to_string(),
        attachments: Vec::new(),
        hidden: false,
        ordering: 0,
    }];
    catalog.import_questions(&incoming);
    assert_eq!(catalog.get_question_by_id(q1).unwrap().answer, "changed");
    assert_eq!(catalog.get_all_questions().len(), 1);
}

#[test]
fn import_users_syncs_the_set() {
    let mut catalog = Catalog::new();
    catalog.create_user(1, None, "One".to_string(), None, false, false).unwrap();
    catalog.create_user(2, None, "Two".to_string(), None, false, false).unwrap();
    let incoming = vec![
        User { id: 2, username: None, first_name: "Two".to_string(), last_name: None, is_admin: false, active: true },
        User { id: 3, username: None, first_name: "Three".to_string(), last_name: None, is_admin: true, active: true },
    ];
    catalog.import_users(&incoming);
    assert!(catalog.get_user(1).is_none());
    assert!(catalog.get_user(2).unwrap().active);
    assert!(catalog.get_user(3).unwrap().is_admin);
    assert_eq!(catalog.get_users().len(), 2);
}

#[test]
fn index_points_at_the_questions_page() {
    assert_eq!(index(), "/questions");
}

#[test]
fn checkbox_decodes_forms() {
    assert_eq!(checkbox_value(None), Ok(None));
    assert_eq!(checkbox_value(Some(&"on".to_string())), Ok(Some(true)));
    assert_eq!(checkbox_value(Some(&"off".to_string())), Err(()));
}

#[test]
fn parse_i64_accepts_exactly_the_in_range_decimals() {
    assert_eq!(parse_i64("0"), Some(0));
    assert_eq!(parse_i64("42"), Some(42));
    assert_eq!(parse_i64("+42"), Some(42));
    assert_eq!(parse_i64("-42"), Some(-42));
    assert_eq!(parse_i64("007"), Some(7));
    assert_eq!(parse_i64("9223372036854775807"), Some(i64::MAX));
    assert_eq!(parse_i64("-9223372036854775808"), Some(i64::MIN));
    assert_eq!(parse_i64("9223372036854775808"), None);
    assert_eq!(parse_i64("-9223372036854775809"), None);
    assert_eq!(parse_i64(""), None);
    assert_eq!(parse_i64("-"), None);
    assert_eq!(parse_i64("+"), None);
    assert_eq!(parse_i64("12a"), None);
    assert_eq!(parse_i64(" 12"), None);
    assert_eq!(parse_i64("1 2"), None);
}

#[test]
fn stri64_wraps_parsed_ids() {
    assert_eq!(stri64_from_string(&"17".to_string()), Ok(Stri64(17)));
    assert!(stri64_from_string(&"x".to_string()).is_err());
}

#[test]
fn reorder_rows_follow_drag_order() {
    let ids = vec![Stri64(5), Stri64(3), Stri64(9)];
    let rows = reorder_from_ids(&ids);
    assert_eq!(
        rows,
        vec![
            Reorder { id: 5, ordering: 0 },
            Reorder { id: 3, ordering: 1 },
            Reorder { id: 9, ordering: 2 },
        ]
    );
}

#[test]
fn attachments_can_be_added_and_removed() {
    let mut q = Question {
        id: 1,
        category: None,
        question: "Q".to_string(),
        answer: "A".to_string(),
        attachments: vec!["a.pdf".to_string(), "b.pdf".to_string(), "a.pdf".to_string()],
        hidden: false,
        ordering: 0,
    };
    add_attachment(&mut q, "c.pdf".to_string());
    assert_eq!(q.attachments, vec!["a.pdf", "b.pdf", "a.pdf", "c.pdf"]);
    delete_attachment(&mut q, &"a.pdf".to_string());
    assert_eq!(q.attachments, vec!["b.pdf", "a.pdf", "c.pdf"]);
    delete_attachment(&mut q, &"missing.pdf".to_string());
    assert_eq!(q.attachments, vec!["b.pdf", "a.pdf", "c.pdf"]);
}

#[test]
fn attachment_update_follows_the_form() {
    // no upload field: the old attachment stays
    let r = resolve_attachment_update(None, Some("old.pdf".to_string()));
    assert_eq!(r.filename, Some("old.pdf".to_string()));
    assert!(!r.store_upload);
    assert!(!r.delete_old);

    // a non-empty named upload replaces it
    let r = resolve_attachment_update(
        Some((10, Some("new.pdf".to_string()))),
        Some("old.pdf".to_string()),
    );
    assert_eq!(r.filename, Some("new.pdf".to_string()));
    assert!(r.store_upload);
    assert!(!r.delete_old);

    // an empty upload removes the old one
    let r = resolve_attachment_update(Some((0, None)), Some("old.pdf".to_string()));
    assert_eq!(r.filename, None);
    assert!(!r.store_upload);
    assert!(r.delete_old);

    // an empty upload with nothing stored deletes nothing
    let r = resolve_attachment_update(Some((0, None)), None);
    assert_eq!(r.filename, None);
    assert!(!r.delete_old);

    // a non-empty upload without a name keeps the old attachment
    let r = resolve_attachment_update(Some((10, None)), Some("old.pdf".to_string()));
    assert_eq!(r.filename, Some("old.pdf".to_string()));
    assert!(!r.store_upload);
}
