//! The record shapes of the moderation log: one entry per logged event,
//! an action describing what happened, and a snapshot of each deleted
//! message.  These are immutable value records; the codec in the rest of
//! the crate translates them to and from one line of text each.

use vstd::prelude::*;
use crate::Timestamp;

verus! {

/// Snapshot of a deleted message.
#[derive(Clone, Debug, PartialEq, Eq)]
pub struct ModLogMessage {
    pub id: u64,
    pub content: String,
    pub attachments: Vec<String>,
}

/// What moderation event occurred.
#[derive(Clone, Debug, PartialEq, Eq)]
pub enum ModLogAction {
    DeleteMessage(ModLogMessage),
    DeleteHour(Vec<ModLogMessage>),
    Reason(String),
}

/// One moderation-log record.
#[derive(Clone, Debug, PartialEq, Eq)]
pub struct ModLogEntry {
    pub timestamp: Timestamp,
    pub channel_id: u64,
    pub moderator_id: u64,
    pub moderator_name: String,
    pub moderator_discrim: u16,
    pub action: ModLogAction,
}

/// Mathematical model of a `ModLogMessage`.
#[verifier::ext_equal]
pub struct MessageV {
    pub id: u64,
    pub content: Seq<char>,
    pub attachments: Seq<Seq<char>>,
}

/// Mathematical model of a `ModLogAction`.
#[verifier::ext_equal]
pub enum ActionV {
    DeleteMessage(MessageV),
    DeleteHour(Seq<MessageV>),
    Reason(Seq<char>),
}

/// Mathematical model of a `ModLogEntry`.
#[verifier::ext_equal]
pub struct EntryV {
    pub timestamp: Timestamp,
    pub channel_id: u64,
    pub moderator_id: u64,
    pub moderator_name: Seq<char>,
    pub moderator_discrim: u16,
    pub action: ActionV,
}

impl EntryV {
    /// An entry is well formed when its timestamp fields are in range.
    pub open spec fn wf(self) -> bool {
        self.timestamp.wf()
    }
}

impl View for ModLogMessage {
    type V = MessageV;

    open spec fn view(&self) -> MessageV {
        MessageV {
            id: self.id,
            content: self.content@,
            attachments: Seq::new(self.attachments@.len(), |i: int| self.attachments@[i]@),
        }
    }
}

impl View for ModLogAction {
    type V = ActionV;

    open spec fn view(&self) -> ActionV {
        match self {
            ModLogAction::DeleteMessage(m) => ActionV::DeleteMessage(m@),
            ModLogAction::DeleteHour(ms) => ActionV::DeleteHour(
                Seq::new(ms@.len(), |i: int| ms@[i]@),
            ),
            ModLogAction::Reason(s) => ActionV::Reason(s@),
        }
    }
}

impl View for ModLogEntry {
    type V = EntryV;

    open spec fn view(&self) -> EntryV {
        EntryV {
            timestamp: self.timestamp,
            channel_id: self.channel_id,
            moderator_id: self.moderator_id,
            moderator_name: self.moderator_name@,
            moderator_discrim: self.moderator_discrim,
            action: self.action@,
        }
    }
}

impl ModLogEntry {
    /// Runtime check that the entry's timestamp is in range.
    pub fn is_wf(&self) -> (r: bool)
        ensures
            r == self@.wf(),
    {
        self.timestamp.is_wf()
    }
}

/// Failure to write one entry: either the sink failed, or the textual
/// form could not be produced.
#[derive(Debug)]
pub enum EncodeError {
    Io(std::io::Error),
    Serialization,
}

/// Failure to read one entry: either the source failed, or the line was
/// not a well-formed encoded entry.
#[derive(Debug)]
pub enum DecodeError {
    Io(std::io::Error),
    Serialization,
}

} // verus!
