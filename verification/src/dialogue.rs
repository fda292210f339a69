//! Per-chat conversation state and the keyed store that persists it.
//!
//! A chat is in exactly one [`State`]; absence from the store reads as the
//! default `ShowingCategories`.  `Blocked` marks a chat whose sender was
//! found unknown or inactive on a membership event; conversation input
//! never leaves it.

use vstd::prelude::*;

verus! {

use std::collections::HashMap;

broadcast use vstd::std_specs::hash::group_hash_axioms;

/// Conversation state of one private chat.
#[derive(Debug)]
pub enum State {
    /// The category keyboard is on screen; free text picks a category.
    ShowingCategories,
    /// The question keyboard of `category` is on screen; free text picks a
    /// question, `"Go Back"` returns to the categories.
    ShowingQuestions { category: String },
    /// The sender was rejected on a membership event; every message gets
    /// the fixed rejection reply.
    Blocked,
}

/// Mathematical view of a [`State`].
pub ghost enum StateV {
    ShowingCategories,
    ShowingQuestions { category: Seq<char> },
    Blocked,
}

impl View for State {
    type V = StateV;

    open spec fn view(&self) -> StateV {
        match self {
            State::ShowingCategories => StateV::ShowingCategories,
            State::ShowingQuestions { category } => StateV::ShowingQuestions {
                category: category@,
            },
            State::Blocked => StateV::Blocked,
        }
    }
}

impl Default for State {
    /// A chat with no stored state is showing the categories.
    fn default() -> (r: Self)
        ensures
            r@ == StateV::ShowingCategories,
    {
        State::ShowingCategories
    }
}

impl Clone for State {
    fn clone(&self) -> (r: Self)
        ensures
            r@ == self@,
    {
        match self {
            State::ShowingCategories => State::ShowingCategories,
            State::ShowingQuestions { category } => State::ShowingQuestions {
                category: category.clone(),
            },
            State::Blocked => State::Blocked,
        }
    }
}

impl PartialEq for State {
    fn eq(&self, other: &Self) -> (r: bool) {
        match (self, other) {
            (State::ShowingCategories, State::ShowingCategories) => true,
            (State::ShowingQuestions { category: a }, State::ShowingQuestions { category: b }) => *a
                == *b,
            (State::Blocked, State::Blocked) => true,
            _ => false,
        }
    }
}

impl vstd::std_specs::cmp::PartialEqSpecImpl for State {
    open spec fn obeys_eq_spec() -> bool {
        true
    }

    open spec fn eq_spec(&self, other: &Self) -> bool {
        self@ == other@
    }
}

impl Eq for State {}

/// The state a chat reads as under `states`: its entry, or the default
/// `ShowingCategories` when it has none.
pub open spec fn state_of(states: Map<i64, StateV>, chat_id: i64) -> StateV {
    if states.contains_key(chat_id) {
        states[chat_id]
    } else {
        StateV::ShowingCategories
    }
}

/// The dialogue store: conversation state keyed by chat id.
///
/// This is the in-process model of the keyed persistence the deployment
/// uses; callers that keep state elsewhere replay the same get/set/delete
/// operations against it.
pub struct Storage {
    states: HashMap<i64, State>,
}

impl View for Storage {
    type V = Map<i64, StateV>;

    closed spec fn view(&self) -> Map<i64, StateV> {
        Map::new(|k: i64| self.states@.contains_key(k), |k: i64| self.states@[k]@)
    }
}

impl Storage {
    /// An empty store: every chat reads as `ShowingCategories`.
    pub fn new() -> (r: Self)
        ensures
            r@ == Map::<i64, StateV>::empty(),
    {
        let r = Storage { states: HashMap::new() };
        proof {
            assert(r@ =~= Map::<i64, StateV>::empty());
        }
        r
    }

    /// The state stored for `chat_id`, defaulting to `ShowingCategories`.
    pub fn get_state(&self, chat_id: i64) -> (r: State)
        ensures
            r@ == state_of(self@, chat_id),
    {
        match self.states.get(&chat_id) {
            Some(s) => s.clone(),
            None => State::default(),
        }
    }

    /// True when `chat_id` has a stored entry of its own.
    pub fn contains(&self, chat_id: i64) -> (r: bool)
        ensures
            r == self@.contains_key(chat_id),
    {
        self.states.contains_key(&chat_id)
    }

    /// Stores `state` for `chat_id`, replacing any previous entry.
    pub fn set_state(&mut self, chat_id: i64, state: State)
        ensures
            final(self)@ == old(self)@.insert(chat_id, state@),
    {
        let ghost prior = self@;
        self.states.insert(chat_id, state);
        proof {
            assert(self@ =~= prior.insert(chat_id, state@));
        }
    }

    /// Removes the entry of `chat_id`; the chat reads as the default again.
    pub fn delete_state(&mut self, chat_id: i64)
        ensures
            final(self)@ == old(self)@.remove(chat_id),
    {
        let ghost prior = self@;
        self.states.remove(&chat_id);
        proof {
            assert(self@ =~= prior.remove(chat_id));
        }
    }
}

} // verus!
