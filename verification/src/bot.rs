//! The top of the engine: one inbound update goes in; the outbound
//! content comes back and the dialogue store and the catalog take exactly
//! the effects the transition table prescribes.
//!
//! [`handle_update`] is what a deployment's event loop calls for every
//! update it receives, in arrival order per chat; it classifies the chat,
//! runs the authorization gate, routes through the dispatch tree, runs
//! the winning handler, and persists the state it decides on.

use vstd::prelude::*;

verus! {

use crate::auth::{auth_user, spec_catalog_after_auth};
use crate::catalog::{find_user, Catalog, CatalogV};
use crate::dialogue::{state_of, State, StateV, Storage};
use crate::dispatch::{eval, make_dispatch_tree, HandlerId, RouteCtx, StateTag};
use crate::private_chat::{
    handle_not_authenticated, on_blocked, on_category_select, on_commands, on_question_select,
    outbound_empty, spec_authorized, spec_category_select, spec_no_output, spec_one_message,
    spec_question_select, spec_sender_active, KeyboardActionV, Outbound, OutboundV,
};
use crate::keyboard::spec_categories_keyboard;
use crate::update::{
    parse_command, spec_parse_command, ChatKind, Command, MemberStatus, Sender, SenderV, Update,
    UpdateV,
};

/// The store contents after a membership event: a ban deletes the chat's
/// entry; a join by an unknown or inactive sender forces the chat into
/// the blocked state; anything else changes nothing.
pub open spec fn spec_member_next_states(
    cat: CatalogV,
    states: Map<i64, StateV>,
    chat_id: i64,
    sender_id: i64,
    status: MemberStatus,
) -> Map<i64, StateV> {
    if status == MemberStatus::Banned {
        states.remove(chat_id)
    } else if status == MemberStatus::Member && !spec_sender_active(cat, sender_id) {
        states.insert(chat_id, StateV::Blocked)
    } else {
        states
    }
}

/// One private-chat message through the whole table: the reply sent and
/// the store contents afterwards.  Authorization comes first, then commands,
/// then the state-keyed dialogue handlers.
pub open spec fn spec_message_step(
    cat: CatalogV,
    states: Map<i64, StateV>,
    chat_id: i64,
    sender: SenderV,
    text: Option<Seq<char>>,
    auth_required: bool,
) -> (OutboundV, Map<i64, StateV>) {
    if !spec_authorized(auth_required, find_user(cat.users, sender.id as int)) {
        (
            spec_one_message(
                "You are not authorized to use this bot, contact the admin for authentication"@,
                KeyboardActionV::Remove,
            ),
            states,
        )
    } else {
        let cmd = match text {
            Some(t) => spec_parse_command(t),
            None => None,
        };
        match cmd {
            Some(Command::Start) => (
                spec_one_message(
                    "Main menu"@,
                    KeyboardActionV::Show(spec_categories_keyboard(cat)),
                ),
                states.insert(chat_id, StateV::ShowingCategories),
            ),
            Some(Command::Help) => (
                spec_one_message(
                    "These commands are supported:\n/help - Display this text\n/start - Start"@,
                    KeyboardActionV::Keep,
                ),
                states,
            ),
            None => match state_of(states, chat_id) {
                StateV::ShowingCategories => {
                    let step = spec_category_select(cat, text);
                    (
                        step.0,
                        match step.1 {
                            Some(s) => states.insert(chat_id, s),
                            None => states,
                        },
                    )
                },
                StateV::ShowingQuestions { category } => {
                    let step = spec_question_select(cat, category, text);
                    (
                        step.0,
                        match step.1 {
                            Some(s) => states.insert(chat_id, s),
                            None => states,
                        },
                    )
                },
                StateV::Blocked => (
                    spec_one_message(
                        "You are not authorized to use this bot, contact the admin for authentication"@,
                        KeyboardActionV::Remove,
                    ),
                    states,
                ),
            },
        }
    }
}

/// The store contents after one update, whatever its kind.  Updates from
/// chats that are not private never touch the store.
pub open spec fn spec_next_states(
    cat: CatalogV,
    states: Map<i64, StateV>,
    auth_required: bool,
    u: UpdateV,
) -> Map<i64, StateV> {
    match u {
        UpdateV::TextMessage { chat_id, chat_kind, sender, text } => {
            if chat_kind == ChatKind::Private {
                spec_message_step(cat, states, chat_id, sender, text, auth_required).1
            } else {
                states
            }
        },
        UpdateV::MemberStatusChanged { chat_id, chat_kind, sender, new_status } => {
            if chat_kind == ChatKind::Private {
                spec_member_next_states(cat, states, chat_id, sender.id, new_status)
            } else {
                states
            }
        },
    }
}

/// What one update sends out.  Membership events and non-private chats
/// send nothing; a private message answers by the table.
pub open spec fn spec_outbound_of(
    cat: CatalogV,
    states: Map<i64, StateV>,
    auth_required: bool,
    u: UpdateV,
) -> OutboundV {
    match u {
        UpdateV::TextMessage { chat_id, chat_kind, sender, text } => {
            if chat_kind == ChatKind::Private {
                spec_message_step(cat, states, chat_id, sender, text, auth_required).0
            } else {
                spec_no_output()
            }
        },
        UpdateV::MemberStatusChanged { .. } => spec_no_output(),
    }
}

/// The catalog after one update: only the authorization check of a private message ever
/// writes to it, and only to register a first-contact sender while the
/// auth policy is off.
pub open spec fn spec_catalog_next(cat: CatalogV, auth_required: bool, u: UpdateV) -> CatalogV {
    match u {
        UpdateV::TextMessage { chat_kind, sender, .. } => {
            if chat_kind == ChatKind::Private {
                spec_catalog_after_auth(cat, auth_required, sender)
            } else {
                cat
            }
        },
        UpdateV::MemberStatusChanged { .. } => cat,
    }
}

/// Events of plain group chats are logged and answered with nothing.
pub fn handle_group_chat() -> (r: Outbound)
    ensures
        r@ == spec_no_output(),
{
    outbound_empty()
}

/// A private chat's membership event: a ban deletes the dialogue entry; a
/// join by an unknown or inactive sender blocks the chat.
pub fn handle_private_chat_member(
    catalog: &Catalog,
    storage: &mut Storage,
    chat_id: i64,
    sender: &Sender,
    new_status: MemberStatus,
)
    ensures
        final(storage)@ == spec_member_next_states(
            catalog@,
            old(storage)@,
            chat_id,
            sender@.id,
            new_status,
        ),
{
    match new_status {
        MemberStatus::Banned => {
            storage.delete_state(chat_id);
        },
        MemberStatus::Member => {
            let active = match catalog.get_user(sender.id) {
                Some(u) => u.active,
                None => false,
            };
            proof {
                assert(active == spec_sender_active(catalog@, sender@.id));
            }
            if !active {
                storage.set_state(chat_id, State::Blocked);
            }
        },
        _ => {},
    }
}

/// Carries one inbound update through the whole engine: classification,
/// authorization, the dispatch tree, the winning handler, persistence.  The
/// returned bundle is what the caller sends; the store and the catalog
/// are left exactly as the transition table prescribes.
pub fn handle_update(
    catalog: &mut Catalog,
    storage: &mut Storage,
    auth_required: bool,
    upd: &Update,
) -> (r: Outbound)
    requires
        old(catalog).wf(),
    ensures
        final(catalog).wf(),
        final(catalog)@ == spec_catalog_next(old(catalog)@, auth_required, upd@),
        final(storage)@ == spec_next_states(old(catalog)@, old(storage)@, auth_required, upd@),
        r@ == spec_outbound_of(old(catalog)@, old(storage)@, auth_required, upd@),
{
    let tree = make_dispatch_tree();
    match upd {
        Update::TextMessage { chat_id, chat_kind, sender, text } => {
            let authorized = if *chat_kind == ChatKind::Private {
                auth_user(catalog, auth_required, sender)
            } else {
                true
            };
            let is_command = match text {
                Some(t) => parse_command(t).is_some(),
                None => false,
            };
            let current = storage.get_state(*chat_id);
            let tag = match &current {
                State::ShowingCategories => StateTag::ShowingCategories,
                State::ShowingQuestions { .. } => StateTag::ShowingQuestions,
                State::Blocked => StateTag::Blocked,
            };
            let ctx = RouteCtx {
                chat_kind: *chat_kind,
                is_message: true,
                authorized,
                is_command,
                state: tag,
            };
            match eval(&tree, &ctx) {
                Some(HandlerId::NotAuthenticated) => handle_not_authenticated(),
                Some(HandlerId::OnCommands) => {
                    let cmd_opt = match text {
                        Some(t) => parse_command(t),
                        None => None,
                    };
                    match cmd_opt {
                        Some(cmd) => {
                            let step = on_commands(catalog, cmd);
                            match step.1 {
                                Some(s) => storage.set_state(*chat_id, s),
                                None => {},
                            }
                            step.0
                        },
                        None => {
                            proof {
                                assert(false);
                            }
                            outbound_empty()
                        },
                    }
                },
                Some(HandlerId::OnCategorySelect) => {
                    let step = on_category_select(catalog, text.as_ref());
                    match step.1 {
                        Some(s) => storage.set_state(*chat_id, s),
                        None => {},
                    }
                    step.0
                },
                Some(HandlerId::OnQuestionSelect) => {
                    match &current {
                        State::ShowingQuestions { category } => {
                            let step = on_question_select(catalog, category, text.as_ref());
                            match step.1 {
                                Some(s) => storage.set_state(*chat_id, s),
                                None => {},
                            }
                            step.0
                        },
                        _ => {
                            proof {
                                assert(false);
                            }
                            outbound_empty()
                        },
                    }
                },
                Some(HandlerId::OnBlocked) => on_blocked(),
                _ => outbound_empty(),
            }
        },
        Update::MemberStatusChanged { chat_id, chat_kind, sender, new_status } => {
            let ctx = RouteCtx {
                chat_kind: *chat_kind,
                is_message: false,
                authorized: true,
                is_command: false,
                state: StateTag::ShowingCategories,
            };
            match eval(&tree, &ctx) {
                Some(HandlerId::PrivateChatMember) => {
                    handle_private_chat_member(catalog, storage, *chat_id, sender, *new_status);
                    outbound_empty()
                },
                Some(HandlerId::GroupChat) => handle_group_chat(),
                _ => outbound_empty(),
            }
        },
    }
}

} // verus!
