//! Inbound chat events and their classification: the chat kinds, the
//! member statuses, the sender profile, the two update variants, and the
//! command grammar of the conversation.

use vstd::prelude::*;

verus! {

use vstd::string::StringExecFns;

/// What kind of chat an update comes from.  Only private chats enter the
/// conversation engine; plain group chats are logged; the rest fall
/// through to the default handler.
#[derive(Clone, Copy, Debug, PartialEq, Eq, Structural)]
pub enum ChatKind {
    Private,
    Group,
    Supergroup,
    Channel,
}

/// The sender's standing in a chat, as membership events report it.
#[derive(Clone, Copy, Debug, PartialEq, Eq, Structural)]
pub enum MemberStatus {
    Owner,
    Administrator,
    Member,
    Restricted,
    Left,
    Banned,
}

/// The profile of the event's sender, as the transport hands it over.
#[derive(Clone, Debug)]
pub struct Sender {
    pub id: i64,
    pub username: Option<String>,
    pub first_name: String,
    pub last_name: Option<String>,
}

/// Mathematical view of a [`Sender`].
#[verifier::ext_equal]
pub ghost struct SenderV {
    pub id: i64,
    pub username: Option<Seq<char>>,
    pub first_name: Seq<char>,
    pub last_name: Option<Seq<char>>,
}

impl View for Sender {
    type V = SenderV;

    open spec fn view(&self) -> SenderV {
        SenderV {
            id: self.id,
            username: match self.username {
                Some(ref s) => Some(s@),
                None => None,
            },
            first_name: self.first_name@,
            last_name: match self.last_name {
                Some(ref s) => Some(s@),
                None => None,
            },
        }
    }
}

/// One inbound event.  A message that carries no text (a photo, a sticker)
/// has `text == None`.
#[derive(Debug)]
pub enum Update {
    TextMessage { chat_id: i64, chat_kind: ChatKind, sender: Sender, text: Option<String> },
    MemberStatusChanged {
        chat_id: i64,
        chat_kind: ChatKind,
        sender: Sender,
        new_status: MemberStatus,
    },
}

/// Mathematical view of an [`Update`].
#[verifier::ext_equal]
pub ghost enum UpdateV {
    TextMessage { chat_id: i64, chat_kind: ChatKind, sender: SenderV, text: Option<Seq<char>> },
    MemberStatusChanged {
        chat_id: i64,
        chat_kind: ChatKind,
        sender: SenderV,
        new_status: MemberStatus,
    },
}

impl View for Update {
    type V = UpdateV;

    open spec fn view(&self) -> UpdateV {
        match self {
            Update::TextMessage { chat_id, chat_kind, sender, text } => UpdateV::TextMessage {
                chat_id: *chat_id,
                chat_kind: *chat_kind,
                sender: sender@,
                text: match text {
                    Some(t) => Some(t@),
                    None => None,
                },
            },
            Update::MemberStatusChanged {
                chat_id,
                chat_kind,
                sender,
                new_status,
            } => UpdateV::MemberStatusChanged {
                chat_id: *chat_id,
                chat_kind: *chat_kind,
                sender: sender@,
                new_status: *new_status,
            },
        }
    }
}

/// The chat kind an update belongs to.
pub open spec fn chat_kind_of(u: UpdateV) -> ChatKind {
    match u {
        UpdateV::TextMessage { chat_kind, .. } => chat_kind,
        UpdateV::MemberStatusChanged { chat_kind, .. } => chat_kind,
    }
}

/// The chat an update belongs to.
pub open spec fn chat_id_of(u: UpdateV) -> i64 {
    match u {
        UpdateV::TextMessage { chat_id, .. } => chat_id,
        UpdateV::MemberStatusChanged { chat_id, .. } => chat_id,
    }
}

/// True for updates from private chats: these enter the conversation
/// engine.
pub fn filter_private_chats(upd: &Update) -> (r: bool)
    ensures
        r == (chat_kind_of(upd@) == ChatKind::Private),
{
    match upd {
        Update::TextMessage { chat_kind, .. } => *chat_kind == ChatKind::Private,
        Update::MemberStatusChanged { chat_kind, .. } => *chat_kind == ChatKind::Private,
    }
}

/// True for updates from plain group chats: these are logged and dropped.
pub fn filter_group_chats(upd: &Update) -> (r: bool)
    ensures
        r == (chat_kind_of(upd@) == ChatKind::Group),
{
    match upd {
        Update::TextMessage { chat_kind, .. } => *chat_kind == ChatKind::Group,
        Update::MemberStatusChanged { chat_kind, .. } => *chat_kind == ChatKind::Group,
    }
}

/// The commands the conversation understands.
#[derive(Clone, Copy, Debug, PartialEq, Eq, Structural)]
pub enum Command {
    Help,
    Start,
}

/// The command `text` spells, if any: `"/help"` or `"/start"`, exactly.
pub open spec fn spec_parse_command(text: Seq<char>) -> Option<Command> {
    if text == "/help"@ {
        Some(Command::Help)
    } else if text == "/start"@ {
        Some(Command::Start)
    } else {
        None
    }
}

/// Parses a message text as a command.
pub fn parse_command(text: &String) -> (r: Option<Command>)
    ensures
        r == spec_parse_command(text@),
{
    let help = "/help".to_owned();
    let start = "/start".to_owned();
    if *text == help {
        Some(Command::Help)
    } else if *text == start {
        Some(Command::Start)
    } else {
        None
    }
}

/// What `/help` answers: the supported commands, one per line.
pub fn command_descriptions() -> (r: String)
    ensures
        r@ == "These commands are supported:\n/help - Display this text\n/start - Start"@,
{
    "These commands are supported:\n/help - Display this text\n/start - Start".to_owned()
}

} // verus!

