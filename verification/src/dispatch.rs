//! The dispatch tree: a first-match routing structure over inbound
//! updates, mirroring the combinator tree the bot is wired from — filters
//! guard subtrees, branches try alternatives in declaration order, and
//! endpoints name the handler that wins.
//!
//! Routing is deterministic and total: evaluation of the full tree is
//! proved equal to the routing table [`spec_route`], and an update no
//! branch claims falls to the default log-and-drop handler.

use vstd::prelude::*;

verus! {

use crate::update::ChatKind;

/// Which dialogue state a chat is in, stripped of its data: what the
/// state filters of the tree test.
#[derive(Clone, Copy, Debug, PartialEq, Eq, Structural)]
pub enum StateTag {
    ShowingCategories,
    ShowingQuestions,
    Blocked,
}

/// Everything the tree's predicates may read about one update: its chat
/// kind and variant, the authorization verdict, whether the text parses as a
/// command, and the chat's current dialogue state.
#[derive(Clone, Copy, Debug, PartialEq, Eq, Structural)]
pub struct RouteCtx {
    pub chat_kind: ChatKind,
    pub is_message: bool,
    pub authorized: bool,
    pub is_command: bool,
    pub state: StateTag,
}

/// The predicates a filter node can test.
#[derive(Clone, Copy, Debug, PartialEq, Eq, Structural)]
pub enum Pred {
    PrivateChat,
    GroupChat,
    MessageUpdate,
    MemberUpdate,
    AuthFailed,
    IsCommand,
    StateShowingCategories,
    StateShowingQuestions,
    StateBlocked,
}

/// The terminal handlers an endpoint can name.
#[derive(Clone, Copy, Debug, PartialEq, Eq, Structural)]
pub enum HandlerId {
    NotAuthenticated,
    OnCommands,
    OnCategorySelect,
    OnQuestionSelect,
    OnBlocked,
    PrivateChatMember,
    GroupChat,
}

/// One node of the dispatch tree.  `Branch` tries its first subtree and
/// falls back to the second, so a branch list is a chain of `Branch`
/// nodes ending in `Fail`, which matches nothing.
#[derive(Debug)]
pub enum DispatchNode {
    Endpoint(HandlerId),
    Filter(Pred, Box<DispatchNode>),
    Branch(Box<DispatchNode>, Box<DispatchNode>),
    Fail,
}

/// What a predicate says of one update.
pub open spec fn spec_pred_holds(p: Pred, ctx: RouteCtx) -> bool {
    match p {
        Pred::PrivateChat => ctx.chat_kind == ChatKind::Private,
        Pred::GroupChat => ctx.chat_kind == ChatKind::Group,
        Pred::MessageUpdate => ctx.is_message,
        Pred::MemberUpdate => !ctx.is_message,
        Pred::AuthFailed => !ctx.authorized,
        Pred::IsCommand => ctx.is_command,
        Pred::StateShowingCategories => ctx.state == StateTag::ShowingCategories,
        Pred::StateShowingQuestions => ctx.state == StateTag::ShowingQuestions,
        Pred::StateBlocked => ctx.state == StateTag::Blocked,
    }
}

/// Tests a predicate against the update's facts.
pub fn pred_holds(p: Pred, ctx: &RouteCtx) -> (r: bool)
    ensures
        r == spec_pred_holds(p, *ctx),
{
    match p {
        Pred::PrivateChat => ctx.chat_kind == ChatKind::Private,
        Pred::GroupChat => ctx.chat_kind == ChatKind::Group,
        Pred::MessageUpdate => ctx.is_message,
        Pred::MemberUpdate => !ctx.is_message,
        Pred::AuthFailed => !ctx.authorized,
        Pred::IsCommand => ctx.is_command,
        Pred::StateShowingCategories => ctx.state == StateTag::ShowingCategories,
        Pred::StateShowingQuestions => ctx.state == StateTag::ShowingQuestions,
        Pred::StateBlocked => ctx.state == StateTag::Blocked,
    }
}

/// Depth-first, first-match evaluation: the handler the tree routes the
/// update to, if any.
pub open spec fn spec_eval(n: DispatchNode, ctx: RouteCtx) -> Option<HandlerId>
    decreases n,
{
    match n {
        DispatchNode::Endpoint(h) => Some(h),
        DispatchNode::Filter(p, child) => if spec_pred_holds(p, ctx) {
            spec_eval(*child, ctx)
        } else {
            None
        },
        DispatchNode::Branch(first, rest) => if spec_eval(*first, ctx) is Some {
            spec_eval(*first, ctx)
        } else {
            spec_eval(*rest, ctx)
        },
        DispatchNode::Fail => None,
    }
}

/// Evaluates the tree on one update's facts.
pub fn eval(n: &DispatchNode, ctx: &RouteCtx) -> (r: Option<HandlerId>)
    ensures
        r == spec_eval(*n, *ctx),
    decreases *n,
{
    match n {
        DispatchNode::Endpoint(h) => Some(*h),
        DispatchNode::Filter(p, child) => if pred_holds(*p, ctx) {
            eval(child, ctx)
        } else {
            None
        },
        DispatchNode::Branch(first, rest) => {
            let left = eval(first, ctx);
            if left.is_some() {
                left
            } else {
                eval(rest, ctx)
            }
        },
        DispatchNode::Fail => None,
    }
}

/// The routing table the full tree implements: group chats hand only
/// membership events to their handler; private messages pass authorization,
/// then command matching, then the state-keyed dialogue handlers; private
/// membership events go to the member handler; everything else is
/// unrouted and falls to the default log-and-drop handler.
pub open spec fn spec_route(ctx: RouteCtx) -> Option<HandlerId> {
    match ctx.chat_kind {
        ChatKind::Group => if !ctx.is_message {
            Some(HandlerId::GroupChat)
        } else {
            None
        },
        ChatKind::Private => if ctx.is_message {
            if !ctx.authorized {
                Some(HandlerId::NotAuthenticated)
            } else if ctx.is_command {
                Some(HandlerId::OnCommands)
            } else {
                match ctx.state {
                    StateTag::ShowingCategories => Some(HandlerId::OnCategorySelect),
                    StateTag::ShowingQuestions => Some(HandlerId::OnQuestionSelect),
                    StateTag::Blocked => Some(HandlerId::OnBlocked),
                }
            }
        } else {
            Some(HandlerId::PrivateChatMember)
        },
        _ => None,
    }
}

/// The branch serving plain group chats: only membership events, logged.
pub fn make_group_chat_branch() -> (n: DispatchNode)
    ensures
        forall|ctx: RouteCtx|
            #[trigger] spec_eval(n, ctx) == if !ctx.is_message {
                Some(HandlerId::GroupChat)
            } else {
                None::<HandlerId>
            },
{
    let n = DispatchNode::Branch(
        Box::new(
            DispatchNode::Filter(
                Pred::MemberUpdate,
                Box::new(DispatchNode::Endpoint(HandlerId::GroupChat)),
            ),
        ),
        Box::new(DispatchNode::Fail),
    );
    proof {
        assert forall|ctx: RouteCtx|
            spec_eval(n, ctx) == if !ctx.is_message {
                Some(HandlerId::GroupChat)
            } else {
                None::<HandlerId>
            } by {
            reveal_with_fuel(spec_eval, 6);
        }
    }
    n
}

/// The branch serving private chats: messages pass authorization, then the
/// command filter, then the dialogue handlers keyed by state; membership
/// events go to the member handler.  Sibling order encodes priority.
pub fn make_private_chat_branch() -> (n: DispatchNode)
    ensures
        forall|ctx: RouteCtx|
            #[trigger] spec_eval(n, ctx) == if ctx.is_message {
                if !ctx.authorized {
                    Some(HandlerId::NotAuthenticated)
                } else if ctx.is_command {
                    Some(HandlerId::OnCommands)
                } else {
                    match ctx.state {
                        StateTag::ShowingCategories => Some(HandlerId::OnCategorySelect),
                        StateTag::ShowingQuestions => Some(HandlerId::OnQuestionSelect),
                        StateTag::Blocked => Some(HandlerId::OnBlocked),
                    }
                }
            } else {
                Some(HandlerId::PrivateChatMember)
            },
{
    let dialogues = DispatchNode::Branch(
        Box::new(
            DispatchNode::Filter(
                Pred::StateShowingCategories,
                Box::new(DispatchNode::Endpoint(HandlerId::OnCategorySelect)),
            ),
        ),
        Box::new(
            DispatchNode::Branch(
                Box::new(
                    DispatchNode::Filter(
                        Pred::StateShowingQuestions,
                        Box::new(DispatchNode::Endpoint(HandlerId::OnQuestionSelect)),
                    ),
                ),
                Box::new(
                    DispatchNode::Branch(
                        Box::new(
                            DispatchNode::Filter(
                                Pred::StateBlocked,
                                Box::new(DispatchNode::Endpoint(HandlerId::OnBlocked)),
                            ),
                        ),
                        Box::new(DispatchNode::Fail),
                    ),
                ),
            ),
        ),
    );
    let messages = DispatchNode::Branch(
        Box::new(
            DispatchNode::Filter(
                Pred::AuthFailed,
                Box::new(DispatchNode::Endpoint(HandlerId::NotAuthenticated)),
            ),
        ),
        Box::new(
            DispatchNode::Branch(
                Box::new(
                    DispatchNode::Filter(
                        Pred::IsCommand,
                        Box::new(DispatchNode::Endpoint(HandlerId::OnCommands)),
                    ),
                ),
                Box::new(DispatchNode::Branch(Box::new(dialogues), Box::new(DispatchNode::Fail))),
            ),
        ),
    );
    let n = DispatchNode::Branch(
        Box::new(DispatchNode::Filter(Pred::MessageUpdate, Box::new(messages))),
        Box::new(
            DispatchNode::Branch(
                Box::new(
                    DispatchNode::Filter(
                        Pred::MemberUpdate,
                        Box::new(DispatchNode::Endpoint(HandlerId::PrivateChatMember)),
                    ),
                ),
                Box::new(DispatchNode::Fail),
            ),
        ),
    );
    proof {
        assert forall|ctx: RouteCtx|
            spec_eval(n, ctx) == if ctx.is_message {
                if !ctx.authorized {
                    Some(HandlerId::NotAuthenticated)
                } else if ctx.is_command {
                    Some(HandlerId::OnCommands)
                } else {
                    match ctx.state {
                        StateTag::ShowingCategories => Some(HandlerId::OnCategorySelect),
                        StateTag::ShowingQuestions => Some(HandlerId::OnQuestionSelect),
                        StateTag::Blocked => Some(HandlerId::OnBlocked),
                    }
                }
            } else {
                Some(HandlerId::PrivateChatMember)
            } by {
            reveal_with_fuel(spec_eval, 20);
        }
    }
    n
}

/// The full tree the dispatcher runs: the group branch, then the private
/// branch, each behind its chat-kind filter.  Evaluation equals the
/// routing table for every update.
pub fn make_dispatch_tree() -> (n: DispatchNode)
    ensures
        forall|ctx: RouteCtx| #[trigger] spec_eval(n, ctx) == spec_route(ctx),
{
    let group = make_group_chat_branch();
    let ghost group_snapshot = group;
    let private = make_private_chat_branch();
    let ghost private_snapshot = private;
    let n = DispatchNode::Branch(
        Box::new(DispatchNode::Filter(Pred::GroupChat, Box::new(group))),
        Box::new(
            DispatchNode::Branch(
                Box::new(DispatchNode::Filter(Pred::PrivateChat, Box::new(private))),
                Box::new(DispatchNode::Fail),
            ),
        ),
    );
    proof {
        assert forall|ctx: RouteCtx| #[trigger] spec_eval(n, ctx) == spec_route(ctx) by {
            reveal_with_fuel(spec_eval, 8);
            assert(spec_eval(group_snapshot, ctx) == if !ctx.is_message {
                Some(HandlerId::GroupChat)
            } else {
                None::<HandlerId>
            });
            assert(spec_eval(private_snapshot, ctx) == if ctx.is_message {
                if !ctx.authorized {
                    Some(HandlerId::NotAuthenticated)
                } else if ctx.is_command {
                    Some(HandlerId::OnCommands)
                } else {
                    match ctx.state {
                        StateTag::ShowingCategories => Some(HandlerId::OnCategorySelect),
                        StateTag::ShowingQuestions => Some(HandlerId::OnQuestionSelect),
                        StateTag::Blocked => Some(HandlerId::OnBlocked),
                    }
                }
            } else {
                Some(HandlerId::PrivateChatMember)
            });
        }
    }
    n
}

} // verus!

