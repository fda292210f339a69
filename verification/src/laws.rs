//! The engine's laws, proved once and for all inputs: the transition
//! table row by row, totality of routing, idempotence of `"Go Back"`, the
//! blocked chat's lifecycle, and per-chat locality of state changes.

use vstd::prelude::*;

verus! {

use crate::bot::{spec_member_next_states, spec_message_step, spec_next_states};
use crate::catalog::{find_user, CatalogV};
use crate::dialogue::{state_of, StateV};
use crate::dispatch::{spec_route, RouteCtx};
use crate::private_chat::{spec_authorized, spec_has_questions, spec_sender_active};
use crate::update::{chat_id_of, ChatKind, MemberStatus, SenderV, UpdateV};

/// The transition table, row by row: for every state and every private
/// message, the next state is exactly the one the table gives.
pub proof fn lemma_transition_table(
    cat: CatalogV,
    states: Map<i64, StateV>,
    chat_id: i64,
    sender: SenderV,
    text: Option<Seq<char>>,
    auth_required: bool,
)
    ensures
// an unauthorized sender is answered by the authorization check; no state moves

        !spec_authorized(auth_required, find_user(cat.users, sender.id as int))
            ==> spec_message_step(cat, states, chat_id, sender, text, auth_required).1 == states,
        // an authorized `/start` lands in `ShowingCategories`, whatever the state was
        spec_authorized(auth_required, find_user(cat.users, sender.id as int)) && text == Some(
            "/start"@,
        ) ==> state_of(
            spec_message_step(cat, states, chat_id, sender, text, auth_required).1,
            chat_id,
        ) == StateV::ShowingCategories,
        // `/help` leaves the store untouched, whatever the state was
        spec_authorized(auth_required, find_user(cat.users, sender.id as int)) && text == Some(
            "/help"@,
        ) ==> spec_message_step(cat, states, chat_id, sender, text, auth_required).1 == states,
        // from `ShowingCategories`, an offered category moves the chat to its questions
        ({
            &&& spec_authorized(auth_required, find_user(cat.users, sender.id as int))
            &&& state_of(states, chat_id) == StateV::ShowingCategories
            &&& text matches Some(t) && spec_parse_none(t) && spec_has_questions(cat, t)
        }) ==> state_of(
            spec_message_step(cat, states, chat_id, sender, text, auth_required).1,
            chat_id,
        ) == (StateV::ShowingQuestions { category: text.unwrap() }),
        // from `ShowingCategories`, anything else leaves the chat there
        ({
            &&& spec_authorized(auth_required, find_user(cat.users, sender.id as int))
            &&& state_of(states, chat_id) == StateV::ShowingCategories
            &&& match text {
                Some(t) => spec_parse_none(t) && !spec_has_questions(cat, t),
                None => true,
            }
        }) ==> spec_message_step(cat, states, chat_id, sender, text, auth_required).1 == states,
        // from a question keyboard, `"Go Back"` returns to the categories
        ({
            &&& spec_authorized(auth_required, find_user(cat.users, sender.id as int))
            &&& state_of(states, chat_id) matches StateV::ShowingQuestions { category }
            &&& text == Some("Go Back"@)
        }) ==> state_of(
            spec_message_step(cat, states, chat_id, sender, text, auth_required).1,
            chat_id,
        ) == StateV::ShowingCategories,
        // from a question keyboard, any other free text leaves the store untouched:
        // a known question is answered, an unknown one re-offered, in place
        ({
            &&& spec_authorized(auth_required, find_user(cat.users, sender.id as int))
            &&& state_of(states, chat_id) matches StateV::ShowingQuestions { category }
            &&& match text {
                Some(t) => spec_parse_none(t) && t != "Go Back"@,
                None => true,
            }
        }) ==> spec_message_step(cat, states, chat_id, sender, text, auth_required).1 == states,
        // a blocked chat absorbs every non-command input
        ({
            &&& spec_authorized(auth_required, find_user(cat.users, sender.id as int))
            &&& state_of(states, chat_id) == StateV::Blocked
            &&& match text {
                Some(t) => spec_parse_none(t),
                None => true,
            }
        }) ==> spec_message_step(cat, states, chat_id, sender, text, auth_required).1 == states,
{
    reveal_strlit("/start");
    reveal_strlit("/help");
    reveal_strlit("Go Back");
}

/// Spelled out so the rows above can say "not a command" directly.
pub open spec fn spec_parse_none(t: Seq<char>) -> bool {
    crate::update::spec_parse_command(t) is None
}

/// The membership rows of the table: a ban deletes the chat's entry; a
/// join by an unknown or inactive sender forces `Blocked`; a join by an
/// active sender, and every other status, changes nothing.
pub proof fn lemma_member_events(
    cat: CatalogV,
    states: Map<i64, StateV>,
    chat_id: i64,
    sender_id: i64,
)
    ensures
        spec_member_next_states(cat, states, chat_id, sender_id, MemberStatus::Banned)
            == states.remove(chat_id),
        !spec_sender_active(cat, sender_id) ==> spec_member_next_states(
            cat,
            states,
            chat_id,
            sender_id,
            MemberStatus::Member,
        ) == states.insert(chat_id, StateV::Blocked),
        spec_sender_active(cat, sender_id) ==> spec_member_next_states(
            cat,
            states,
            chat_id,
            sender_id,
            MemberStatus::Member,
        ) == states,
        forall|st: MemberStatus|
            st != MemberStatus::Banned && st != MemberStatus::Member
                ==> #[trigger] spec_member_next_states(cat, states, chat_id, sender_id, st)
                == states,
{
}

/// Totality of routing: every update from a private chat reaches a
/// handler; nothing is left unhandled.
pub proof fn lemma_private_routing_total(ctx: RouteCtx)
    requires
        ctx.chat_kind == ChatKind::Private,
    ensures
        spec_route(ctx) is Some,
{
}

/// Idempotence of `"Go Back"`: sent while the chat is already showing the
/// categories, and not itself the name of an offered category, it changes
/// no state.
pub proof fn lemma_go_back_idempotent(
    cat: CatalogV,
    states: Map<i64, StateV>,
    chat_id: i64,
    sender: SenderV,
    auth_required: bool,
)
    requires
        state_of(states, chat_id) == StateV::ShowingCategories,
        !spec_has_questions(cat, "Go Back"@),
    ensures
        spec_message_step(cat, states, chat_id, sender, Some("Go Back"@), auth_required).1
            == states,
        state_of(
            spec_message_step(cat, states, chat_id, sender, Some("Go Back"@), auth_required).1,
            chat_id,
        ) == StateV::ShowingCategories,
{
    reveal_strlit("/start");
    reveal_strlit("/help");
    reveal_strlit("Go Back");
}

/// The blocked lifecycle: while the sender stays unregistered or
/// inactive under the auth policy, every message is answered by the rejection
/// and the stored state never moves; a ban then deletes the entry
/// entirely.
pub proof fn lemma_blocked_lifecycle(
    cat: CatalogV,
    states: Map<i64, StateV>,
    chat_id: i64,
    sender: SenderV,
    text: Option<Seq<char>>,
)
    requires
        !spec_sender_active(cat, sender.id),
    ensures
        spec_message_step(cat, states, chat_id, sender, text, true).1 == states,
        spec_member_next_states(cat, states, chat_id, sender.id, MemberStatus::Banned)
            == states.remove(chat_id),
        !spec_member_next_states(
            cat,
            states,
            chat_id,
            sender.id,
            MemberStatus::Banned,
        ).contains_key(chat_id),
{
}

/// Locality: one update touches at most its own chat's entry, and what it
/// does to that entry depends on the store only through that entry.  This
/// is why serializing updates per chat, with no cross-chat locking, keeps
/// every chat's state exactly as the table prescribes.
pub proof fn lemma_update_locality(
    cat: CatalogV,
    s1: Map<i64, StateV>,
    s2: Map<i64, StateV>,
    auth_required: bool,
    u: UpdateV,
    other: i64,
)
    requires
        other != chat_id_of(u),
    ensures
        state_of(spec_next_states(cat, s1, auth_required, u), other) == state_of(s1, other),
        state_of(s1, chat_id_of(u)) == state_of(s2, chat_id_of(u)) ==> state_of(
            spec_next_states(cat, s1, auth_required, u),
            chat_id_of(u),
        ) == state_of(spec_next_states(cat, s2, auth_required, u), chat_id_of(u)),
{
}

} // verus!
