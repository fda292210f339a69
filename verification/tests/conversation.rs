//! End-to-end conversation scenarios through the engine: the transition
//! table, the round trip, the blocked lifecycle, and update ordering.

use udv_qna_bot::bot::handle_update;
use udv_qna_bot::catalog::Catalog;
use udv_qna_bot::dialogue::{State, Storage};
use udv_qna_bot::private_chat::{KeyboardAction, Outbound};
use udv_qna_bot::update::{ChatKind, MemberStatus, Sender, Update};

const CHAT: i64 = 100;
const ALICE: i64 = 7;

fn sender(id: i64) -> Sender {
    Sender { id, username: Some("someone".to_string()), first_name: "Some".to_string(), last_name: None }
}

fn message(chat_id: i64, sender_id: i64, text: &str) -> Update {
    Update::TextMessage {
        chat_id,
        chat_kind: ChatKind::Private,
        sender: sender(sender_id),
        text: Some(text.to_string()),
    }
}

fn non_text(chat_id: i64, sender_id: i64) -> Update {
    Update::TextMessage {
        chat_id,
        chat_kind: ChatKind::Private,
        sender: sender(sender_id),
        text: None,
    }
}

fn member_event(chat_id: i64, sender_id: i64, status: MemberStatus) -> Update {
    Update::MemberStatusChanged {
        chat_id,
        chat_kind: ChatKind::Private,
        sender: sender(sender_id),
        new_status: status,
    }
}

/// A catalog holding category "Rust" with question "Q1" answered "A1",
/// plus a hidden category that must never surface.
fn rust_catalog() -> Catalog {
    let mut catalog = Catalog::new();
    let rust = catalog.create_category("Rust".to_string(), false, 0).unwrap();
    let hidden = catalog.create_category("Secret".to_string(), true, 1).unwrap();
    catalog
        .create_question("Q1".to_string(), "A1".to_string(), Some(rust), Vec::new(), false, 0)
        .unwrap();
    catalog
        .create_question("Q2".to_string(), "A2".to_string(), Some(hidden), Vec::new(), false, 0)
        .unwrap();
    catalog
}

fn shown_keyboard(out: &Outbound) -> Vec<Vec<String>> {
    assert_eq!(out.messages.len(), 1);
    match &out.messages[0].keyboard {
        KeyboardAction::Show(kb) => kb.clone(),
        other => panic!("expected a keyboard, got {:?}", other),
    }
}

#[test]
fn round_trip_through_category_and_question() {
    let mut catalog = rust_catalog();
    let mut storage = Storage::new();

    // "/start": the category keyboard, holding "Rust" and not the hidden one
    let out = handle_update(&mut catalog, &mut storage, false, &message(CHAT, ALICE, "/start"));
    assert_eq!(out.messages[0].text, "Main menu");
    let first_keyboard = shown_keyboard(&out);
    assert_eq!(first_keyboard, vec![vec!["Rust".to_string()]]);
    assert_eq!(storage.get_state(CHAT), State::ShowingCategories);

    // "Rust": the question keyboard with "Q1" and "Go Back"
    let out = handle_update(&mut catalog, &mut storage, false, &message(CHAT, ALICE, "Rust"));
    assert_eq!(out.messages[0].text, "You chose category Rust");
    let kb = shown_keyboard(&out);
    assert_eq!(kb, vec![vec!["Q1".to_string()], vec!["Go Back".to_string()]]);
    assert_eq!(storage.get_state(CHAT), State::ShowingQuestions { category: "Rust".to_string() });

    // "Q1": the answer, state unchanged
    let out = handle_update(&mut catalog, &mut storage, false, &message(CHAT, ALICE, "Q1"));
    assert_eq!(out.messages.len(), 1);
    assert_eq!(out.messages[0].text, "A1");
    assert!(out.documents.is_empty());
    assert_eq!(storage.get_state(CHAT), State::ShowingQuestions { category: "Rust".to_string() });

    // "Go Back": the identical category keyboard, state back to the start
    let out = handle_update(&mut catalog, &mut storage, false, &message(CHAT, ALICE, "Go Back"));
    assert_eq!(out.messages[0].text, "Main menu");
    assert_eq!(shown_keyboard(&out), first_keyboard);
    assert_eq!(storage.get_state(CHAT), State::ShowingCategories);
}

#[test]
fn help_answers_without_touching_state() {
    let mut catalog = rust_catalog();
    let mut storage = Storage::new();
    handle_update(&mut catalog, &mut storage, false, &message(CHAT, ALICE, "Rust"));
    let before = storage.get_state(CHAT);
    let out = handle_update(&mut catalog, &mut storage, false, &message(CHAT, ALICE, "/help"));
    assert!(out.messages[0].text.starts_with("These commands are supported:"));
    assert_eq!(storage.get_state(CHAT), before);
}

#[test]
fn unknown_category_reoffers_the_categories() {
    let mut catalog = rust_catalog();
    let mut storage = Storage::new();
    let out = handle_update(&mut catalog, &mut storage, false, &message(CHAT, ALICE, "Cooking"));
    assert_eq!(out.messages[0].text, "Category Cooking is unknown or has no questions");
    assert_eq!(shown_keyboard(&out), vec![vec!["Rust".to_string()]]);
    assert_eq!(storage.get_state(CHAT), State::ShowingCategories);
}

#[test]
fn hidden_category_is_not_selectable() {
    let mut catalog = rust_catalog();
    let mut storage = Storage::new();
    let out = handle_update(&mut catalog, &mut storage, false, &message(CHAT, ALICE, "Secret"));
    assert_eq!(out.messages[0].text, "Category Secret is unknown or has no questions");
    assert_eq!(storage.get_state(CHAT), State::ShowingCategories);
}

#[test]
fn unknown_question_reoffers_the_questions() {
    let mut catalog = rust_catalog();
    let mut storage = Storage::new();
    handle_update(&mut catalog, &mut storage, false, &message(CHAT, ALICE, "Rust"));
    let out = handle_update(&mut catalog, &mut storage, false, &message(CHAT, ALICE, "Q9"));
    assert_eq!(out.messages[0].text, "Unknown question: Q9");
    assert_eq!(
        shown_keyboard(&out),
        vec![vec!["Q1".to_string()], vec!["Go Back".to_string()]]
    );
    assert_eq!(storage.get_state(CHAT), State::ShowingQuestions { category: "Rust".to_string() });
}

#[test]
fn non_text_message_asks_for_a_selection() {
    let mut catalog = rust_catalog();
    let mut storage = Storage::new();
    let out = handle_update(&mut catalog, &mut storage, false, &non_text(CHAT, ALICE));
    assert_eq!(out.messages[0].text, "Please select the category");
    handle_update(&mut catalog, &mut storage, false, &message(CHAT, ALICE, "Rust"));
    let out = handle_update(&mut catalog, &mut storage, false, &non_text(CHAT, ALICE));
    assert_eq!(out.messages[0].text, "Please select the question");
}

#[test]
fn go_back_while_showing_categories_changes_nothing() {
    let mut catalog = rust_catalog();
    let mut storage = Storage::new();
    let out = handle_update(&mut catalog, &mut storage, false, &message(CHAT, ALICE, "Go Back"));
    assert_eq!(out.messages[0].text, "Category Go Back is unknown or has no questions");
    assert_eq!(storage.get_state(CHAT), State::ShowingCategories);
    assert!(!storage.contains(CHAT));
}

#[test]
fn long_answer_is_sent_in_segments() {
    let mut catalog = Catalog::new();
    let rust = catalog.create_category("Rust".to_string(), false, 0).unwrap();
    let answer: String = std::iter::repeat('x').take(5000).collect();
    catalog
        .create_question("Long".to_string(), answer.clone(), Some(rust), Vec::new(), false, 0)
        .unwrap();
    let mut storage = Storage::new();
    handle_update(&mut catalog, &mut storage, false, &message(CHAT, ALICE, "Rust"));
    let out = handle_update(&mut catalog, &mut storage, false, &message(CHAT, ALICE, "Long"));
    let lens: Vec<usize> = out.messages.iter().map(|m| m.text.len()).collect();
    assert_eq!(lens, vec![2048, 2048, 904]);
    let whole: String = out.messages.iter().map(|m| m.text.as_str()).collect();
    assert_eq!(whole, answer);
}

#[test]
fn answer_lookup_carries_attachments() {
    let mut catalog = Catalog::new();
    let rust = catalog.create_category("Rust".to_string(), false, 0).unwrap();
    catalog
        .create_question(
            "Q1".to_string(),
            "A1".to_string(),
            Some(rust),
            vec!["guide.pdf".to_string()],
            false,
            0,
        )
        .unwrap();
    let mut storage = Storage::new();
    handle_update(&mut catalog, &mut storage, false, &message(CHAT, ALICE, "Rust"));
    let out = handle_update(&mut catalog, &mut storage, false, &message(CHAT, ALICE, "Q1"));
    assert_eq!(out.documents, vec!["guide.pdf".to_string()]);
}

#[test]
fn auth_required_rejects_unknown_sender() {
    let mut catalog = rust_catalog();
    let mut storage = Storage::new();
    let out = handle_update(&mut catalog, &mut storage, true, &message(CHAT, ALICE, "/start"));
    assert_eq!(
        out.messages[0].text,
        "You are not authorized to use this bot, contact the admin for authentication"
    );
    assert!(matches!(out.messages[0].keyboard, KeyboardAction::Remove));
    assert!(!storage.contains(CHAT));
    // nobody is registered while the auth policy is on
    assert!(catalog.get_user(ALICE).is_none());
}

#[test]
fn auth_required_admits_active_sender() {
    let mut catalog = rust_catalog();
    catalog
        .create_user(ALICE, None, "Some".to_string(), None, false, true)
        .unwrap();
    let mut storage = Storage::new();
    let out = handle_update(&mut catalog, &mut storage, true, &message(CHAT, ALICE, "/start"));
    assert_eq!(out.messages[0].text, "Main menu");
    assert_eq!(storage.get_state(CHAT), State::ShowingCategories);
}

#[test]
fn auth_required_rejects_inactive_sender() {
    let mut catalog = rust_catalog();
    catalog
        .create_user(ALICE, None, "Some".to_string(), None, false, false)
        .unwrap();
    let mut storage = Storage::new();
    let out = handle_update(&mut catalog, &mut storage, true, &message(CHAT, ALICE, "Rust"));
    assert_eq!(
        out.messages[0].text,
        "You are not authorized to use this bot, contact the admin for authentication"
    );
    assert!(!storage.contains(CHAT));
}

#[test]
fn auth_disabled_registers_first_contact_inactive() {
    let mut catalog = rust_catalog();
    let mut storage = Storage::new();
    assert!(catalog.get_user(ALICE).is_none());
    handle_update(&mut catalog, &mut storage, false, &message(CHAT, ALICE, "/start"));
    let registered = catalog.get_user(ALICE).expect("registered on first contact");
    assert!(!registered.active);
    assert!(!registered.is_admin);
    assert_eq!(registered.first_name, "Some");
}

#[test]
fn blocked_lifecycle_ends_with_deleted_entry() {
    let mut catalog = rust_catalog();
    let mut storage = Storage::new();

    // the unknown sender's join precedes their first message and blocks the chat
    handle_update(
        &mut catalog,
        &mut storage,
        true,
        &member_event(CHAT, ALICE, MemberStatus::Member),
    );
    assert_eq!(storage.get_state(CHAT), State::Blocked);

    // "/start" and every later message get the fixed rejection; the state stays
    for text in ["/start", "Rust", "anything"] {
        let out = handle_update(&mut catalog, &mut storage, true, &message(CHAT, ALICE, text));
        assert_eq!(
            out.messages[0].text,
            "You are not authorized to use this bot, contact the admin for authentication"
        );
        assert_eq!(storage.get_state(CHAT), State::Blocked);
    }

    // banning the bot deletes the dialogue entry entirely
    handle_update(
        &mut catalog,
        &mut storage,
        true,
        &member_event(CHAT, ALICE, MemberStatus::Banned),
    );
    assert!(!storage.contains(CHAT));
    assert_eq!(storage.get_state(CHAT), State::ShowingCategories);
}

#[test]
fn blocked_state_absorbs_messages_even_when_authorized() {
    let mut catalog = rust_catalog();
    let mut storage = Storage::new();
    storage.set_state(CHAT, State::Blocked);
    let out = handle_update(&mut catalog, &mut storage, false, &message(CHAT, ALICE, "Rust"));
    assert_eq!(
        out.messages[0].text,
        "You are not authorized to use this bot, contact the admin for authentication"
    );
    assert_eq!(storage.get_state(CHAT), State::Blocked);
}

#[test]
fn member_join_of_active_sender_changes_nothing() {
    let mut catalog = rust_catalog();
    catalog
        .create_user(ALICE, None, "Some".to_string(), None, false, true)
        .unwrap();
    let mut storage = Storage::new();
    handle_update(
        &mut catalog,
        &mut storage,
        true,
        &member_event(CHAT, ALICE, MemberStatus::Member),
    );
    assert!(!storage.contains(CHAT));
}

#[test]
fn two_updates_for_one_chat_apply_in_order() {
    let mut catalog = rust_catalog();
    let mut storage = Storage::new();
    handle_update(&mut catalog, &mut storage, false, &message(CHAT, ALICE, "/start"));
    handle_update(&mut catalog, &mut storage, false, &message(CHAT, ALICE, "Rust"));
    assert_eq!(storage.get_state(CHAT), State::ShowingQuestions { category: "Rust".to_string() });

    // the same two updates in the other order land elsewhere: order decides
    let mut storage2 = Storage::new();
    handle_update(&mut catalog, &mut storage2, false, &message(CHAT, ALICE, "Rust"));
    handle_update(&mut catalog, &mut storage2, false, &message(CHAT, ALICE, "/start"));
    assert_eq!(storage2.get_state(CHAT), State::ShowingCategories);
}

#[test]
fn chats_do_not_interfere() {
    let mut catalog = rust_catalog();
    let mut storage = Storage::new();
    handle_update(&mut catalog, &mut storage, false, &message(CHAT, ALICE, "Rust"));
    handle_update(&mut catalog, &mut storage, false, &message(200, 8, "/start"));
    assert_eq!(storage.get_state(CHAT), State::ShowingQuestions { category: "Rust".to_string() });
    assert_eq!(storage.get_state(200), State::ShowingCategories);
}

#[test]
fn group_chat_updates_are_dropped_silently() {
    let mut catalog = rust_catalog();
    let mut storage = Storage::new();
    let group_message = Update::TextMessage {
        chat_id: CHAT,
        chat_kind: ChatKind::Group,
        sender: sender(ALICE),
        text: Some("/start".to_string()),
    };
    let out = handle_update(&mut catalog, &mut storage, false, &group_message);
    assert!(out.messages.is_empty());
    assert!(!storage.contains(CHAT));
    let group_member = Update::MemberStatusChanged {
        chat_id: CHAT,
        chat_kind: ChatKind::Group,
        sender: sender(ALICE),
        new_status: MemberStatus::Banned,
    };
    let out = handle_update(&mut catalog, &mut storage, false, &group_member);
    assert!(out.messages.is_empty());
}

#[test]
fn categories_keyboard_lays_names_two_per_row() {
    let mut catalog = Catalog::new();
    catalog.create_category("B".to_string(), false, 2).unwrap();
    catalog.create_category("A".to_string(), false, 1).unwrap();
    catalog.create_category("C".to_string(), false, 3).unwrap();
    let a = catalog.get_public_categories();
    let names: Vec<String> = a.into_iter().map(|c| c.name).collect();
    assert_eq!(names, vec!["A".to_string(), "B".to_string(), "C".to_string()]);
    let mut storage = Storage::new();
    let out = handle_update(&mut catalog, &mut storage, false, &message(CHAT, ALICE, "/start"));
    assert_eq!(
        shown_keyboard(&out),
        vec![vec!["A".to_string(), "B".to_string()], vec!["C".to_string()]]
    );
}

#[test]
fn vanished_category_drops_the_update_silently() {
    let mut catalog = rust_catalog();
    let mut storage = Storage::new();
    // the chat still points at a category that no longer offers questions
    storage.set_state(CHAT, State::ShowingQuestions { category: "Gone".to_string() });
    let out = handle_update(&mut catalog, &mut storage, false, &message(CHAT, ALICE, "Q1"));
    assert!(out.messages.is_empty());
    assert_eq!(storage.get_state(CHAT), State::ShowingQuestions { category: "Gone".to_string() });
}

#[test]
fn leaving_member_changes_nothing() {
    let mut catalog = rust_catalog();
    let mut storage = Storage::new();
    storage.set_state(CHAT, State::ShowingCategories);
    handle_update(
        &mut catalog,
        &mut storage,
        true,
        &member_event(CHAT, ALICE, MemberStatus::Left),
    );
    assert!(storage.contains(CHAT));
    assert_eq!(storage.get_state(CHAT), State::ShowingCategories);
}
