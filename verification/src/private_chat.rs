//! The private-chat conversation: the dialogue state machine's transition
//! handlers and the exact statement of the transition table they follow.
//!
//! Handlers are pure: they read the catalog and the inbound text and
//! return the outbound content and, where the table says so, the next
//! dialogue state.  Sending and persisting are the caller's work.

use vstd::prelude::*;

verus! {

use vstd::string::{StringExecFns, StringSliceAdditionalSpecFns};
use vstd::utf8::{decode_utf8, encode_utf8};

use crate::catalog::{find_question_by_name, find_user, Catalog, CatalogV};
use crate::dialogue::{State, StateV};
use crate::keyboard::{
    make_categories_keyboard, make_questions_keyboard, spec_categories_keyboard,
    spec_public_question_texts, spec_questions_keyboard,
};
use crate::models::{Question, QuestionV, UserV};
use crate::text::{chunk_answer, spec_chunks, ANSWER_CHUNK_SIZE};
use crate::update::Command;

broadcast use vstd::utf8::encode_utf8_decode_utf8;

/// What an outbound message does to the reply keyboard: leaves it, clears
/// it, or shows a new one.
#[derive(Debug)]
pub enum KeyboardAction {
    Keep,
    Remove,
    Show(Vec<Vec<String>>),
}

/// Mathematical view of a [`KeyboardAction`].
#[verifier::ext_equal]
pub ghost enum KeyboardActionV {
    Keep,
    Remove,
    Show(Seq<Seq<Seq<char>>>),
}

impl View for KeyboardAction {
    type V = KeyboardActionV;

    open spec fn view(&self) -> KeyboardActionV {
        match self {
            KeyboardAction::Keep => KeyboardActionV::Keep,
            KeyboardAction::Remove => KeyboardActionV::Remove,
            KeyboardAction::Show(kb) => KeyboardActionV::Show(kb.deep_view()),
        }
    }
}

/// One outbound chat message.
#[derive(Debug)]
pub struct OutMessage {
    pub text: String,
    pub keyboard: KeyboardAction,
}

/// Mathematical view of an [`OutMessage`].
#[verifier::ext_equal]
pub ghost struct OutMessageV {
    pub text: Seq<char>,
    pub keyboard: KeyboardActionV,
}

impl View for OutMessage {
    type V = OutMessageV;

    open spec fn view(&self) -> OutMessageV {
        OutMessageV { text: self.text@, keyboard: self.keyboard@ }
    }
}

impl DeepView for OutMessage {
    type V = OutMessageV;

    open spec fn deep_view(&self) -> OutMessageV {
        self.view()
    }
}

/// Everything one update's handling sends out: messages in order, then
/// document attachments by file name.
#[derive(Debug)]
pub struct Outbound {
    pub messages: Vec<OutMessage>,
    pub documents: Vec<String>,
}

/// Mathematical view of an [`Outbound`].
#[verifier::ext_equal]
pub ghost struct OutboundV {
    pub messages: Seq<OutMessageV>,
    pub documents: Seq<Seq<char>>,
}

impl View for Outbound {
    type V = OutboundV;

    open spec fn view(&self) -> OutboundV {
        OutboundV { messages: self.messages.deep_view(), documents: self.documents.deep_view() }
    }
}

/// No messages, no documents.
pub open spec fn spec_no_output() -> OutboundV {
    OutboundV { messages: Seq::empty(), documents: Seq::empty() }
}

/// A single text message with the given keyboard action.
pub open spec fn spec_one_message(text: Seq<char>, keyboard: KeyboardActionV) -> OutboundV {
    OutboundV { messages: seq![OutMessageV { text, keyboard }], documents: Seq::empty() }
}

/// The messages that carry a (possibly long) answer: its transport-sized
/// segments in order, leaving the keyboard alone.
pub open spec fn spec_answer_messages(answer: Seq<char>) -> Seq<OutMessageV> {
    let chunks = spec_chunks(encode_utf8(answer), ANSWER_CHUNK_SIZE as int);
    Seq::new(
        chunks.len(),
        |k: int| OutMessageV { text: decode_utf8(chunks[k]), keyboard: KeyboardActionV::Keep },
    )
}

/// Whether the sender passes the authorization gate: with the auth policy
/// on, only a registered, active user passes; with it off, everyone does.
pub open spec fn spec_authorized(auth_required: bool, user: Option<UserV>) -> bool {
    if auth_required {
        match user {
            Some(u) => u.active,
            None => false,
        }
    } else {
        true
    }
}

/// Whether the sender is registered and active.
pub open spec fn spec_sender_active(cat: CatalogV, sender_id: i64) -> bool {
    match find_user(cat.users, sender_id as int) {
        Some(u) => u.active,
        None => false,
    }
}

/// Whether `name` names a category the chat offers: one with at least one
/// question on its public keyboard.
pub open spec fn spec_has_questions(cat: CatalogV, name: Seq<char>) -> bool {
    spec_public_question_texts(cat, name).len() > 0
}

/// An empty outbound bundle.
pub fn outbound_empty() -> (r: Outbound)
    ensures
        r@ == spec_no_output(),
{
    let r = Outbound { messages: Vec::new(), documents: Vec::new() };
    proof {
        assert(r@.messages =~= spec_no_output().messages);
        assert(r@.documents =~= spec_no_output().documents);
        assert(r@ =~= spec_no_output());
    }
    r
}

/// A bundle of one text message.
pub fn outbound_message(text: String, keyboard: KeyboardAction) -> (r: Outbound)
    ensures
        r@ == spec_one_message(text@, keyboard@),
{
    let mut messages: Vec<OutMessage> = Vec::new();
    messages.push(OutMessage { text, keyboard });
    let r = Outbound { messages, documents: Vec::new() };
    proof {
        assert(r@.messages =~= spec_one_message(text@, keyboard@).messages);
        assert(r@.documents =~= spec_one_message(text@, keyboard@).documents);
        assert(r@ =~= spec_one_message(text@, keyboard@));
    }
    r
}

/// The fixed rejection text: sent to a sender who fails authorization, and for
/// every message of a blocked chat.
pub fn rejection_text() -> (r: String)
    ensures
        r@ == "You are not authorized to use this bot, contact the admin for authentication"@,
{
    "You are not authorized to use this bot, contact the admin for authentication".to_owned()
}

/// The reply to an unauthorized sender: the fixed rejection,
/// and the reply keyboard cleared.
pub fn handle_not_authenticated() -> (r: Outbound)
    ensures
        r@ == spec_one_message(
            "You are not authorized to use this bot, contact the admin for authentication"@,
            KeyboardActionV::Remove,
        ),
{
    outbound_message(rejection_text(), KeyboardAction::Remove)
}

/// The reply to any message of a chat in the blocked state: the fixed
/// rejection, and the reply keyboard cleared.
pub fn on_blocked() -> (r: Outbound)
    ensures
        r@ == spec_one_message(
            "You are not authorized to use this bot, contact the admin for authentication"@,
            KeyboardActionV::Remove,
        ),
{
    outbound_message(rejection_text(), KeyboardAction::Remove)
}

/// Handles `/start` and `/help`.  `/start` answers with the category
/// keyboard and resets the dialogue; `/help` answers with the command
/// list and leaves the state alone.
pub fn on_commands(catalog: &Catalog, cmd: Command) -> (r: (Outbound, Option<State>))
    ensures
        cmd == Command::Start ==> {
            &&& r.0@ == spec_one_message(
                "Main menu"@,
                KeyboardActionV::Show(spec_categories_keyboard(catalog@)),
            )
            &&& r.1 matches Some(s) && s@ == StateV::ShowingCategories
        },
        cmd == Command::Help ==> {
            &&& r.0@ == spec_one_message(
                "These commands are supported:\n/help - Display this text\n/start - Start"@,
                KeyboardActionV::Keep,
            )
            &&& r.1 is None
        },
{
    match cmd {
        Command::Start => {
            let kb = make_categories_keyboard(catalog);
            let out = outbound_message("Main menu".to_owned(), KeyboardAction::Show(kb));
            (out, Some(State::ShowingCategories))
        },
        Command::Help => {
            let out = outbound_message(
                crate::update::command_descriptions(),
                KeyboardAction::Keep,
            );
            (out, None)
        },
    }
}

/// The reply when the chat is showing categories, by the table: a known
/// category answers with its question keyboard and moves the dialogue
/// there; anything else answers with an error and the category keyboard
/// again.
pub open spec fn spec_category_select(cat: CatalogV, text: Option<Seq<char>>) -> (OutboundV, Option<
    StateV,
>) {
    match text {
        Some(t) => {
            if spec_has_questions(cat, t) {
                (
                    spec_one_message(
                        "You chose category "@ + t,
                        KeyboardActionV::Show(spec_questions_keyboard(cat, t)),
                    ),
                    Some(StateV::ShowingQuestions { category: t }),
                )
            } else {
                (
                    spec_one_message(
                        "Category "@ + t + " is unknown or has no questions"@,
                        KeyboardActionV::Show(spec_categories_keyboard(cat)),
                    ),
                    None,
                )
            }
        },
        None => (
            spec_one_message(
                "Please select the category"@,
                KeyboardActionV::Show(spec_categories_keyboard(cat)),
            ),
            None,
        ),
    }
}

/// Free text while the categories are on screen: category selection.
pub fn on_category_select(catalog: &Catalog, text: Option<&String>) -> (r: (Outbound, Option<
    State,
>))
    ensures
        ({
            let expected = spec_category_select(
                catalog@,
                match text {
                    Some(t) => Some(t@),
                    None => None,
                },
            );
            &&& r.0@ == expected.0
            &&& match (r.1, expected.1) {
                (Some(s), Some(sv)) => s@ == sv,
                (None, None) => true,
                _ => false,
            }
        }),
{
    match text {
        Some(t) => {
            match make_questions_keyboard(catalog, t) {
                Ok(kb) => {
                    let mut m = "You chose category ".to_owned();
                    m.append(t.as_str());
                    let out = outbound_message(m, KeyboardAction::Show(kb));
                    (out, Some(State::ShowingQuestions { category: t.clone() }))
                },
                Err(_) => {
                    let mut m = "Category ".to_owned();
                    m.append(t.as_str());
                    m.append(" is unknown or has no questions");
                    let kb = make_categories_keyboard(catalog);
                    let out = outbound_message(m, KeyboardAction::Show(kb));
                    (out, None)
                },
            }
        },
        None => {
            let kb = make_categories_keyboard(catalog);
            let out = outbound_message(
                "Please select the category".to_owned(),
                KeyboardAction::Show(kb),
            );
            (out, None)
        },
    }
}

/// Sends a question's answer: the text in transport-sized segments, then
/// the attachments.
pub fn reply_with_answer(question: &Question) -> (r: Outbound)
    ensures
        r@.messages == spec_answer_messages(question@.answer),
        r@.documents == question@.attachments,
{
    let pieces = chunk_answer(question.answer.as_str(), ANSWER_CHUNK_SIZE);
    let ghost chunks = spec_chunks(encode_utf8(question@.answer), ANSWER_CHUNK_SIZE as int);
    let mut messages: Vec<OutMessage> = Vec::new();
    let mut i: usize = 0;
    proof {
        assert(Seq::new(pieces@.len(), |k: int| encode_utf8(pieces@[k]@)) == chunks);
    }
    while i < pieces.len()
        invariant
            pieces@.len() == chunks.len(),
            forall|k: int| 0 <= k < pieces@.len() ==> encode_utf8((#[trigger] pieces@[k])@)
                == chunks[k],
            i <= pieces@.len(),
            messages@.len() == i,
            forall|k: int|
                0 <= k < i ==> #[trigger] messages.deep_view()[k] == (spec_answer_messages_of(
                    chunks,
                )[k]),
        decreases pieces@.len() - i,
    {
        let ghost prev = messages.deep_view();
        messages.push(OutMessage { text: pieces[i].clone(), keyboard: KeyboardAction::Keep });
        i = i + 1;
        proof {
            assert forall|k: int|
                0 <= k < i implies #[trigger] messages.deep_view()[k] == (spec_answer_messages_of(
                chunks,
            )[k]) by {
                if k < i - 1 {
                    assert(messages.deep_view()[k] == prev[k]);
                } else {
                    assert(decode_utf8(encode_utf8(pieces@[k]@)) == pieces@[k]@);
                }
            }
        }
    }
    let documents = question.attachments.clone();
    proof {
        assert(documents.deep_view() =~= question@.attachments);
    }
    let r = Outbound { messages, documents };
    proof {
        assert(r@.messages =~= spec_answer_messages(question@.answer));
        assert(r@.documents =~= question@.attachments);
    }
    r
}

/// The answer messages, indexed from the segments directly.
pub open spec fn spec_answer_messages_of(chunks: Seq<Seq<u8>>) -> Seq<OutMessageV> {
    Seq::new(
        chunks.len(),
        |k: int| OutMessageV { text: decode_utf8(chunks[k]), keyboard: KeyboardActionV::Keep },
    )
}

/// The reply while a question keyboard is on screen, by the table:
/// `"Go Back"` returns to the categories; a known question answers; an
/// unknown one gets an error and the question keyboard again.  When the
/// category itself has vanished from the public listing, building its
/// keyboard fails and the update is logged and dropped: nothing is sent.
pub open spec fn spec_question_select(
    cat: CatalogV,
    category: Seq<char>,
    text: Option<Seq<char>>,
) -> (OutboundV, Option<StateV>) {
    match text {
        Some(t) => {
            if t == "Go Back"@ {
                (
                    spec_one_message(
                        "Main menu"@,
                        KeyboardActionV::Show(spec_categories_keyboard(cat)),
                    ),
                    Some(StateV::ShowingCategories),
                )
            } else {
                match find_question_by_name(cat.questions, cat.categories, category, t) {
                    Some(q) => (
                        OutboundV {
                            messages: spec_answer_messages(q.answer),
                            documents: q.attachments,
                        },
                        None,
                    ),
                    None => {
                        if spec_has_questions(cat, category) {
                            (
                                spec_one_message(
                                    "Unknown question: "@ + t,
                                    KeyboardActionV::Show(spec_questions_keyboard(cat, category)),
                                ),
                                None,
                            )
                        } else {
                            (spec_no_output(), None)
                        }
                    },
                }
            }
        },
        None => {
            if spec_has_questions(cat, category) {
                (
                    spec_one_message(
                        "Please select the question"@,
                        KeyboardActionV::Show(spec_questions_keyboard(cat, category)),
                    ),
                    None,
                )
            } else {
                (spec_no_output(), None)
            }
        },
    }
}

/// Free text while a question keyboard is on screen: question selection.
pub fn on_question_select(catalog: &Catalog, category: &String, text: Option<&String>) -> (r: (
    Outbound,
    Option<State>,
))
    ensures
        ({
            let expected = spec_question_select(
                catalog@,
                category@,
                match text {
                    Some(t) => Some(t@),
                    None => None,
                },
            );
            &&& r.0@ == expected.0
            &&& match (r.1, expected.1) {
                (Some(s), Some(sv)) => s@ == sv,
                (None, None) => true,
                _ => false,
            }
        }),
{
    match text {
        Some(t) => {
            let go_back = crate::keyboard::go_back_label();
            if *t == go_back {
                let kb = make_categories_keyboard(catalog);
                let out = outbound_message("Main menu".to_owned(), KeyboardAction::Show(kb));
                return (out, Some(State::ShowingCategories));
            }
            match catalog.get_question_by_category_name(t, category) {
                Some(question) => {
                    let out = reply_with_answer(&question);
                    proof {
                        assert(out@ =~= spec_question_select(catalog@, category@, Some(t@)).0);
                    }
                    (out, None)
                },
                None => {
                    match make_questions_keyboard(catalog, category) {
                        Ok(kb) => {
                            let mut m = "Unknown question: ".to_owned();
                            m.append(t.as_str());
                            let out = outbound_message(m, KeyboardAction::Show(kb));
                            (out, None)
                        },
                        Err(_) => (outbound_empty(), None),
                    }
                },
            }
        },
        None => {
            match make_questions_keyboard(catalog, category) {
                Ok(kb) => {
                    let out = outbound_message(
                        "Please select the question".to_owned(),
                        KeyboardAction::Show(kb),
                    );
                    (out, None)
                },
                Err(_) => (outbound_empty(), None),
            }
        },
    }
}

} // verus!
