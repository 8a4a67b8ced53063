mod ext;
mod model;
pub mod decode;
mod encode;
pub mod laws;
pub mod wire;

pub use model::{
    DecodeError, EncodeError, EntryV, ActionV, MessageV, ModLogAction, ModLogEntry,
    ModLogMessage,
};

use vstd::prelude::*;

verus! {

/// A calendar timestamp with second precision, the payload of the
/// `timestamp` field of a log entry.  Encoded on the wire in the
/// fixed-width form `YYYY-MM-DDThh:mm:ssZ`.
#[derive(Clone, Copy, Debug, PartialEq, Eq, Structural)]
pub struct Timestamp {
    pub year: u16,
    pub month: u8,
    pub day: u8,
    pub hour: u8,
    pub minute: u8,
    pub second: u8,
}

impl Timestamp {
    /// The ranges the fixed-width textual form can carry.
    pub open spec fn wf(self) -> bool {
        &&& self.year <= 9999
        &&& 1 <= self.month <= 12
        &&& 1 <= self.day <= 31
        &&& self.hour <= 23
        &&& self.minute <= 59
        &&& self.second <= 59
    }

    /// Runtime check for `wf`.
    pub fn is_wf(&self) -> (r: bool)
        ensures
            r == self.wf(),
    {
        self.year <= 9999 && 1 <= self.month && self.month <= 12 && 1 <= self.day
            && self.day <= 31 && self.hour <= 23 && self.minute <= 59 && self.second <= 59
    }
}

} // verus!
