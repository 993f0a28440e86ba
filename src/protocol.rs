//! Decoding of single RMonitor lines into typed records.
//!
//! A line is split on `,`; the first field is the command token that selects
//! the record variant, and the remaining fields are decoded positionally.
//! Every contract is stated over the split fields of the line (see
//! [`crate::fields::split_fields`]).
use crate::fields::{
    decode_text, decode_uint, opt_uint_in, same_text, split_fields, split_line, text_of, uint_in,
    views,
};
use vstd::prelude::*;

pub mod command;
pub mod render;

use command::{
    CLASS, COMPETITOR, COMPETITOR_EXT, CORRECTION, HEARTBEAT, INIT, LINE_CROSSING, PASSING,
    PRAC_QUAL, RACE, RUN, SETTING, TRACK_DESCRIPTION,
};

verus! {

/// An error occured when decoding a record.
#[derive(Debug)]
pub enum RecordError {
    /// The record prefix was not recognised as a valid record type.
    UnknownRecordType(String),
    /// The input could not be decoded as the record type indicated by the prefix.
    MalformedRecord,
    /// A heartbeat record included an unrecognised flag state.
    UnknownFlagState(String),
    /// A numeric record field could not be parsed as an integer of its type.
    InvalidIntegerField,
    /// A track description record had a different number of sections than it declared.
    IncorrectSectionCount,
}

/// What a [`RecordError`] says, with its text as characters.
pub enum Failure {
    UnknownRecordType(Seq<char>),
    MalformedRecord,
    UnknownFlagState(Seq<char>),
    InvalidIntegerField,
    IncorrectSectionCount,
}

impl View for RecordError {
    type V = Failure;

    open spec fn view(&self) -> Failure {
        match self {
            RecordError::UnknownRecordType(t) => Failure::UnknownRecordType(t@),
            RecordError::MalformedRecord => Failure::MalformedRecord,
            RecordError::UnknownFlagState(t) => Failure::UnknownFlagState(t@),
            RecordError::InvalidIntegerField => Failure::InvalidIntegerField,
            RecordError::IncorrectSectionCount => Failure::IncorrectSectionCount,
        }
    }
}

/// Session flag state, sent as a fixed-width (six character, space padded)
/// token.
#[derive(Copy, Clone, Debug, PartialEq, Eq, Structural)]
pub enum Flag {
    NoFlag,
    Green,
    Yellow,
    Red,
    Finish,
}

/// The flag that a token names exactly, if any.
pub open spec fn flag_of(t: Seq<char>) -> Option<Flag> {
    if t == "      "@ {
        Some(Flag::NoFlag)
    } else if t == "Green "@ {
        Some(Flag::Green)
    } else if t == "Yellow"@ {
        Some(Flag::Yellow)
    } else if t == "Red   "@ {
        Some(Flag::Red)
    } else if t == "Finish"@ {
        Some(Flag::Finish)
    } else {
        None
    }
}

impl Flag {
    /// Reads a flag from its exact fixed-width token.
    pub fn from_token(s: &str) -> (r: Result<Flag, RecordError>)
        ensures
            match r {
                Ok(flag) => flag_of(s@) == Some(flag),
                Err(e) => flag_of(s@) is None && e@ == Failure::UnknownFlagState(s@),
            },
    {
        if same_text(s, "      ") {
            Ok(Flag::NoFlag)
        } else if same_text(s, "Green ") {
            Ok(Flag::Green)
        } else if same_text(s, "Yellow") {
            Ok(Flag::Yellow)
        } else if same_text(s, "Red   ") {
            Ok(Flag::Red)
        } else if same_text(s, "Finish") {
            Ok(Flag::Finish)
        } else {
            Err(RecordError::UnknownFlagState(s.to_owned()))
        }
    }
}

impl std::str::FromStr for Flag {
    type Err = RecordError;

    fn from_str(s: &str) -> Result<Flag, RecordError> {
        Flag::from_token(s)
    }
}

/// Decodes an unsigned integer field no larger than `max`.
fn field_uint(f: &str, max: u64) -> (r: Result<u64, RecordError>)
    ensures
        match r {
            Ok(v) => uint_in(f@, max as nat) == Some(v as nat),
            Err(e) => uint_in(f@, max as nat) is None && e@ == Failure::InvalidIntegerField,
        },
{
    match decode_uint(f, max) {
        Some(v) => Ok(v),
        None => Err(RecordError::InvalidIntegerField),
    }
}

fn field_u8(f: &str) -> (r: Result<u8, RecordError>)
    ensures
        match r {
            Ok(v) => uint_in(f@, u8::MAX as nat) == Some(v as nat),
            Err(e) => uint_in(f@, u8::MAX as nat) is None && e@ == Failure::InvalidIntegerField,
        },
{
    match field_uint(f, u8::MAX as u64) {
        Ok(v) => Ok(v as u8),
        Err(e) => Err(e),
    }
}

fn field_u16(f: &str) -> (r: Result<u16, RecordError>)
    ensures
        match r {
            Ok(v) => uint_in(f@, u16::MAX as nat) == Some(v as nat),
            Err(e) => uint_in(f@, u16::MAX as nat) is None && e@ == Failure::InvalidIntegerField,
        },
{
    match field_uint(f, u16::MAX as u64) {
        Ok(v) => Ok(v as u16),
        Err(e) => Err(e),
    }
}

fn field_u32(f: &str) -> (r: Result<u32, RecordError>)
    ensures
        match r {
            Ok(v) => uint_in(f@, u32::MAX as nat) == Some(v as nat),
            Err(e) => uint_in(f@, u32::MAX as nat) is None && e@ == Failure::InvalidIntegerField,
        },
{
    match field_uint(f, u32::MAX as u64) {
        Ok(v) => Ok(v as u32),
        Err(e) => Err(e),
    }
}

fn field_opt_u32(f: &str) -> (r: Result<Option<u32>, RecordError>)
    ensures
        match r {
            Ok(Some(v)) => opt_uint_in(f@, u32::MAX as nat) == Some(Some(v as nat)),
            Ok(None) => opt_uint_in(f@, u32::MAX as nat) == Some(None::<nat>),
            Err(e) => opt_uint_in(f@, u32::MAX as nat) is None && e@
                == Failure::InvalidIntegerField,
        },
{
    if f.is_empty() {
        Ok(None)
    } else {
        match field_u32(f) {
            Ok(v) => Ok(Some(v)),
            Err(e) => Err(e),
        }
    }
}

/// Decodes a flag field: the text is unquoted, then matched exactly; an
/// unknown flag is reported with the field as it stood on the wire.
fn field_flag(f: &str) -> (r: Result<Flag, RecordError>)
    ensures
        match r {
            Ok(flag) => flag_of(text_of(f@)) == Some(flag),
            Err(e) => flag_of(text_of(f@)) is None && e@ == Failure::UnknownFlagState(f@),
        },
{
    let t = decode_text(f);
    match Flag::from_token(t.as_str()) {
        Ok(flag) => Ok(flag),
        Err(_) => Err(RecordError::UnknownFlagState(f.to_owned())),
    }
}

/// Heartbeat message, sent every second that a session is active.
#[derive(Clone, Debug)]
pub struct Heartbeat {
    /// Number of laps to go
    pub laps_to_go: u32,
    /// Time until the session ends
    pub time_to_go: String,
    /// The current time (usually in UTC, but dependent on the timing system in use)
    pub time_of_day: String,
    /// The time from the first green flag
    pub race_time: String,
    /// Current flag status
    pub flag_status: Flag,
}

impl Heartbeat {
    /// Why the fields `f` are not a heartbeat, if they are not.
    pub open spec fn fault(f: Seq<Seq<char>>) -> Option<Failure> {
        if f.len() != 6 {
            Some(Failure::MalformedRecord)
        } else if uint_in(f[1], u32::MAX as nat) is None {
            Some(Failure::InvalidIntegerField)
        } else if flag_of(text_of(f[5])) is None {
            Some(Failure::UnknownFlagState(f[5]))
        } else {
            None
        }
    }

    /// This heartbeat holds what the fields `f` say.
    pub open spec fn decoded_from(self, f: Seq<Seq<char>>) -> bool {
        &&& uint_in(f[1], u32::MAX as nat) == Some(self.laps_to_go as nat)
        &&& self.time_to_go@ == text_of(f[2])
        &&& self.time_of_day@ == text_of(f[3])
        &&& self.race_time@ == text_of(f[4])
        &&& flag_of(text_of(f[5])) == Some(self.flag_status)
    }

    fn decode(parts: &Vec<&str>) -> (r: Result<Self, RecordError>)
        ensures
            match r {
                Ok(h) => Self::fault(views(parts@)) is None && h.decoded_from(views(parts@)),
                Err(e) => Self::fault(views(parts@)) == Some(e@),
            },
    {
        if parts.len() != 6 {
            return Err(RecordError::MalformedRecord);
        }
        let laps_to_go = match field_u32(parts[1]) {
            Ok(v) => v,
            Err(e) => return Err(e),
        };
        let time_to_go = decode_text(parts[2]);
        let time_of_day = decode_text(parts[3]);
        let race_time = decode_text(parts[4]);
        let flag_status = match field_flag(parts[5]) {
            Ok(v) => v,
            Err(e) => return Err(e),
        };
        Ok(Heartbeat { laps_to_go, time_to_go, time_of_day, race_time, flag_status })
    }
}

/// Competitor information record.
///
/// Competitors are uniquely keyed on their `registration_number` field.
#[derive(Clone, Debug)]
pub struct Competitor {
    pub registration_number: String,
    pub number: String,
    pub transponder_number: u32,
    pub first_name: String,
    pub last_name: String,
    /// Often used for Make/Model or Team name by some timing software
    pub nationality: String,
    /// Unique class number (matches a `Class` record)
    pub class_number: u8,
}

impl Competitor {
    /// Why the fields `f` are not a Competitor record, if they are not.
    pub open spec fn fault(f: Seq<Seq<char>>) -> Option<Failure> {
        if f.len() != 8 {
            Some(Failure::MalformedRecord)
        } else if uint_in(f[3], u32::MAX as nat) is None {
            Some(Failure::InvalidIntegerField)
        } else if uint_in(f[7], u8::MAX as nat) is None {
            Some(Failure::InvalidIntegerField)
        } else {
            None
        }
    }

    /// This record holds what the fields `f` say.
    pub open spec fn decoded_from(self, f: Seq<Seq<char>>) -> bool {
        &&& self.registration_number@ == text_of(f[1])
        &&& self.number@ == text_of(f[2])
        &&& uint_in(f[3], u32::MAX as nat) == Some(self.transponder_number as nat)
        &&& self.first_name@ == text_of(f[4])
        &&& self.last_name@ == text_of(f[5])
        &&& self.nationality@ == text_of(f[6])
        &&& uint_in(f[7], u8::MAX as nat) == Some(self.class_number as nat)
    }

    fn decode(parts: &Vec<&str>) -> (r: Result<Self, RecordError>)
        ensures
            match r {
                Ok(x) => Self::fault(views(parts@)) is None && x.decoded_from(views(parts@)),
                Err(e) => Self::fault(views(parts@)) == Some(e@),
            },
    {
        if parts.len() != 8 {
            return Err(RecordError::MalformedRecord);
        }
        let registration_number = decode_text(parts[1]);
        let number = decode_text(parts[2]);
        let transponder_number = match field_u32(parts[3]) {
            Ok(v) => v,
            Err(e) => return Err(e),
        };
        let first_name = decode_text(parts[4]);
        let last_name = decode_text(parts[5]);
        let nationality = decode_text(parts[6]);
        let class_number = match field_u8(parts[7]) {
            Ok(v) => v,
            Err(e) => return Err(e),
        };
        Ok(Competitor { registration_number, number, transponder_number, first_name, last_name, nationality, class_number })
    }
}

/// Extended competitor information.
#[derive(Clone, Debug)]
pub struct CompetitorExt {
    pub registration_number: String,
    pub number: String,
    pub class_number: u8,
    pub first_name: String,
    pub last_name: String,
    pub nationality: String,
    pub additional_data: String,
}

impl CompetitorExt {
    /// Why the fields `f` are not a CompetitorExt record, if they are not.
    pub open spec fn fault(f: Seq<Seq<char>>) -> Option<Failure> {
        if f.len() != 8 {
            Some(Failure::MalformedRecord)
        } else if uint_in(f[3], u8::MAX as nat) is None {
            Some(Failure::InvalidIntegerField)
        } else {
            None
        }
    }

    /// This record holds what the fields `f` say.
    pub open spec fn decoded_from(self, f: Seq<Seq<char>>) -> bool {
        &&& self.registration_number@ == text_of(f[1])
        &&& self.number@ == text_of(f[2])
        &&& uint_in(f[3], u8::MAX as nat) == Some(self.class_number as nat)
        &&& self.first_name@ == text_of(f[4])
        &&& self.last_name@ == text_of(f[5])
        &&& self.nationality@ == text_of(f[6])
        &&& self.additional_data@ == text_of(f[7])
    }

    fn decode(parts: &Vec<&str>) -> (r: Result<Self, RecordError>)
        ensures
            match r {
                Ok(x) => Self::fault(views(parts@)) is None && x.decoded_from(views(parts@)),
                Err(e) => Self::fault(views(parts@)) == Some(e@),
            },
    {
        if parts.len() != 8 {
            return Err(RecordError::MalformedRecord);
        }
        let registration_number = decode_text(parts[1]);
        let number = decode_text(parts[2]);
        let class_number = match field_u8(parts[3]) {
            Ok(v) => v,
            Err(e) => return Err(e),
        };
        let first_name = decode_text(parts[4]);
        let last_name = decode_text(parts[5]);
        let nationality = decode_text(parts[6]);
        let additional_data = decode_text(parts[7]);
        Ok(CompetitorExt { registration_number, number, class_number, first_name, last_name, nationality, additional_data })
    }
}

/// Run (session) information.
#[derive(Clone, Debug)]
pub struct Run {
    /// Defined as 'unique', likely within a single RMonitor session
    pub number: u8,
    pub description: String,
}

impl Run {
    /// Why the fields `f` are not a Run record, if they are not.
    pub open spec fn fault(f: Seq<Seq<char>>) -> Option<Failure> {
        if f.len() != 3 {
            Some(Failure::MalformedRecord)
        } else if uint_in(f[1], u8::MAX as nat) is None {
            Some(Failure::InvalidIntegerField)
        } else {
            None
        }
    }

    /// This record holds what the fields `f` say.
    pub open spec fn decoded_from(self, f: Seq<Seq<char>>) -> bool {
        &&& uint_in(f[1], u8::MAX as nat) == Some(self.number as nat)
        &&& self.description@ == text_of(f[2])
    }

    fn decode(parts: &Vec<&str>) -> (r: Result<Self, RecordError>)
        ensures
            match r {
                Ok(x) => Self::fault(views(parts@)) is None && x.decoded_from(views(parts@)),
                Err(e) => Self::fault(views(parts@)) == Some(e@),
            },
    {
        if parts.len() != 3 {
            return Err(RecordError::MalformedRecord);
        }
        let number = match field_u8(parts[1]) {
            Ok(v) => v,
            Err(e) => return Err(e),
        };
        let description = decode_text(parts[2]);
        Ok(Run { number, description })
    }
}

/// Class information.
#[derive(Clone, Debug)]
pub struct Class {
    /// Defined as 'unique', likely within a single RMonitor session
    pub number: u8,
    pub description: String,
}

impl Class {
    /// Why the fields `f` are not a Class record, if they are not.
    pub open spec fn fault(f: Seq<Seq<char>>) -> Option<Failure> {
        if f.len() != 3 {
            Some(Failure::MalformedRecord)
        } else if uint_in(f[1], u8::MAX as nat) is None {
            Some(Failure::InvalidIntegerField)
        } else {
            None
        }
    }

    /// This record holds what the fields `f` say.
    pub open spec fn decoded_from(self, f: Seq<Seq<char>>) -> bool {
        &&& uint_in(f[1], u8::MAX as nat) == Some(self.number as nat)
        &&& self.description@ == text_of(f[2])
    }

    fn decode(parts: &Vec<&str>) -> (r: Result<Self, RecordError>)
        ensures
            match r {
                Ok(x) => Self::fault(views(parts@)) is None && x.decoded_from(views(parts@)),
                Err(e) => Self::fault(views(parts@)) == Some(e@),
            },
    {
        if parts.len() != 3 {
            return Err(RecordError::MalformedRecord);
        }
        let number = match field_u8(parts[1]) {
            Ok(v) => v,
            Err(e) => return Err(e),
        };
        let description = decode_text(parts[2]);
        Ok(Class { number, description })
    }
}

/// Track setting information: an arbitrary key-value pair, such as
/// `TRACKNAME` or `TRACKLENGTH`.
#[derive(Clone, Debug)]
pub struct Setting {
    pub description: String,
    /// Kept as text, also where it reads as a decimal number (e.g. '2.500')
    pub value: String,
}

impl Setting {
    /// Why the fields `f` are not a Setting record, if they are not.
    pub open spec fn fault(f: Seq<Seq<char>>) -> Option<Failure> {
        if f.len() != 3 {
            Some(Failure::MalformedRecord)
        } else {
            None
        }
    }

    /// This record holds what the fields `f` say.
    pub open spec fn decoded_from(self, f: Seq<Seq<char>>) -> bool {
        &&& self.description@ == text_of(f[1])
        &&& self.value@ == text_of(f[2])
    }

    fn decode(parts: &Vec<&str>) -> (r: Result<Self, RecordError>)
        ensures
            match r {
                Ok(x) => Self::fault(views(parts@)) is None && x.decoded_from(views(parts@)),
                Err(e) => Self::fault(views(parts@)) == Some(e@),
            },
    {
        if parts.len() != 3 {
            return Err(RecordError::MalformedRecord);
        }
        let description = decode_text(parts[1]);
        let value = decode_text(parts[2]);
        Ok(Setting { description, value })
    }
}

/// Race position information: a competitor's place in the running order,
/// laps completed and total time.
#[derive(Clone, Debug)]
pub struct Race {
    /// The competitor's position in the running order
    pub position: u16,
    pub registration_number: String,
    /// Laps completed; `None` until the competitor has completed a lap after a green flag
    pub laps: Option<u32>,
    pub total_time: String,
}

impl Race {
    /// Why the fields `f` are not a Race record, if they are not.
    pub open spec fn fault(f: Seq<Seq<char>>) -> Option<Failure> {
        if f.len() != 5 {
            Some(Failure::MalformedRecord)
        } else if uint_in(f[1], u16::MAX as nat) is None {
            Some(Failure::InvalidIntegerField)
        } else if opt_uint_in(f[3], u32::MAX as nat) is None {
            Some(Failure::InvalidIntegerField)
        } else {
            None
        }
    }

    /// This record holds what the fields `f` say.
    pub open spec fn decoded_from(self, f: Seq<Seq<char>>) -> bool {
        &&& uint_in(f[1], u16::MAX as nat) == Some(self.position as nat)
        &&& self.registration_number@ == text_of(f[2])
        &&& opt_uint_in(f[3], u32::MAX as nat) == Some(
            match self.laps {
                Some(v) => Some(v as nat),
                None => None,
            },
        )
        &&& self.total_time@ == text_of(f[4])
    }

    fn decode(parts: &Vec<&str>) -> (r: Result<Self, RecordError>)
        ensures
            match r {
                Ok(x) => Self::fault(views(parts@)) is None && x.decoded_from(views(parts@)),
                Err(e) => Self::fault(views(parts@)) == Some(e@),
            },
    {
        if parts.len() != 5 {
            return Err(RecordError::MalformedRecord);
        }
        let position = match field_u16(parts[1]) {
            Ok(v) => v,
            Err(e) => return Err(e),
        };
        let registration_number = decode_text(parts[2]);
        let laps = match field_opt_u32(parts[3]) {
            Ok(v) => v,
            Err(e) => return Err(e),
        };
        let total_time = decode_text(parts[4]);
        Ok(Race { position, registration_number, laps, total_time })
    }
}

/// Practice / qualification position information.
#[derive(Clone, Debug)]
pub struct PracticeQual {
    /// The competitor's position in the fastest-lap standings
    pub position: u16,
    pub registration_number: String,
    /// The lap number of the best lap
    pub best_lap: u32,
    /// The laptime of the best lap
    pub best_laptime: String,
}

impl PracticeQual {
    /// Why the fields `f` are not a PracticeQual record, if they are not.
    pub open spec fn fault(f: Seq<Seq<char>>) -> Option<Failure> {
        if f.len() != 5 {
            Some(Failure::MalformedRecord)
        } else if uint_in(f[1], u16::MAX as nat) is None {
            Some(Failure::InvalidIntegerField)
        } else if uint_in(f[3], u32::MAX as nat) is None {
            Some(Failure::InvalidIntegerField)
        } else {
            None
        }
    }

    /// This record holds what the fields `f` say.
    pub open spec fn decoded_from(self, f: Seq<Seq<char>>) -> bool {
        &&& uint_in(f[1], u16::MAX as nat) == Some(self.position as nat)
        &&& self.registration_number@ == text_of(f[2])
        &&& uint_in(f[3], u32::MAX as nat) == Some(self.best_lap as nat)
        &&& self.best_laptime@ == text_of(f[4])
    }

    fn decode(parts: &Vec<&str>) -> (r: Result<Self, RecordError>)
        ensures
            match r {
                Ok(x) => Self::fault(views(parts@)) is None && x.decoded_from(views(parts@)),
                Err(e) => Self::fault(views(parts@)) == Some(e@),
            },
    {
        if parts.len() != 5 {
            return Err(RecordError::MalformedRecord);
        }
        let position = match field_u16(parts[1]) {
            Ok(v) => v,
            Err(e) => return Err(e),
        };
        let registration_number = decode_text(parts[2]);
        let best_lap = match field_u32(parts[3]) {
            Ok(v) => v,
            Err(e) => return Err(e),
        };
        let best_laptime = decode_text(parts[4]);
        Ok(PracticeQual { position, registration_number, best_lap, best_laptime })
    }
}

/// Indicates that the scoreboard should be reset.
#[derive(Clone, Debug)]
pub struct Init {
    pub time: String,
    pub date: String,
}

impl Init {
    /// Why the fields `f` are not an Init record, if they are not.
    pub open spec fn fault(f: Seq<Seq<char>>) -> Option<Failure> {
        if f.len() != 3 {
            Some(Failure::MalformedRecord)
        } else {
            None
        }
    }

    /// This record holds what the fields `f` say.
    pub open spec fn decoded_from(self, f: Seq<Seq<char>>) -> bool {
        &&& self.time@ == text_of(f[1])
        &&& self.date@ == text_of(f[2])
    }

    fn decode(parts: &Vec<&str>) -> (r: Result<Self, RecordError>)
        ensures
            match r {
                Ok(x) => Self::fault(views(parts@)) is None && x.decoded_from(views(parts@)),
                Err(e) => Self::fault(views(parts@)) == Some(e@),
            },
    {
        if parts.len() != 3 {
            return Err(RecordError::MalformedRecord);
        }
        let time = decode_text(parts[1]);
        let date = decode_text(parts[2]);
        Ok(Init { time, date })
    }
}

/// Passing information, sent each time a competitor crosses the main timeline.
#[derive(Clone, Debug)]
pub struct Passing {
    pub registration_number: String,
    pub laptime: String,
    pub total_time: String,
}

impl Passing {
    /// Why the fields `f` are not a Passing record, if they are not.
    pub open spec fn fault(f: Seq<Seq<char>>) -> Option<Failure> {
        if f.len() != 4 {
            Some(Failure::MalformedRecord)
        } else {
            None
        }
    }

    /// This record holds what the fields `f` say.
    pub open spec fn decoded_from(self, f: Seq<Seq<char>>) -> bool {
        &&& self.registration_number@ == text_of(f[1])
        &&& self.laptime@ == text_of(f[2])
        &&& self.total_time@ == text_of(f[3])
    }

    fn decode(parts: &Vec<&str>) -> (r: Result<Self, RecordError>)
        ensures
            match r {
                Ok(x) => Self::fault(views(parts@)) is None && x.decoded_from(views(parts@)),
                Err(e) => Self::fault(views(parts@)) == Some(e@),
            },
    {
        if parts.len() != 4 {
            return Err(RecordError::MalformedRecord);
        }
        let registration_number = decode_text(parts[1]);
        let laptime = decode_text(parts[2]);
        let total_time = decode_text(parts[3]);
        Ok(Passing { registration_number, laptime, total_time })
    }
}

/// Corrected finish time.
#[derive(Clone, Debug)]
pub struct Correction {
    pub registration_number: String,
    pub number: String,
    pub laps: u32,
    /// The corrected total time
    pub total_time: String,
    /// The total time correction from the previous passing message
    pub correction: String,
}

impl Correction {
    /// Why the fields `f` are not a Correction record, if they are not.
    pub open spec fn fault(f: Seq<Seq<char>>) -> Option<Failure> {
        if f.len() != 6 {
            Some(Failure::MalformedRecord)
        } else if uint_in(f[3], u32::MAX as nat) is None {
            Some(Failure::InvalidIntegerField)
        } else {
            None
        }
    }

    /// This record holds what the fields `f` say.
    pub open spec fn decoded_from(self, f: Seq<Seq<char>>) -> bool {
        &&& self.registration_number@ == text_of(f[1])
        &&& self.number@ == text_of(f[2])
        &&& uint_in(f[3], u32::MAX as nat) == Some(self.laps as nat)
        &&& self.total_time@ == text_of(f[4])
        &&& self.correction@ == text_of(f[5])
    }

    fn decode(parts: &Vec<&str>) -> (r: Result<Self, RecordError>)
        ensures
            match r {
                Ok(x) => Self::fault(views(parts@)) is None && x.decoded_from(views(parts@)),
                Err(e) => Self::fault(views(parts@)) == Some(e@),
            },
    {
        if parts.len() != 6 {
            return Err(RecordError::MalformedRecord);
        }
        let registration_number = decode_text(parts[1]);
        let number = decode_text(parts[2]);
        let laps = match field_u32(parts[3]) {
            Ok(v) => v,
            Err(e) => return Err(e),
        };
        let total_time = decode_text(parts[4]);
        let correction = decode_text(parts[5]);
        Ok(Correction { registration_number, number, laps, total_time, correction })
    }
}

/// Timeline crossing message, sent each time a competitor crosses a
/// timeline (IMSA enhanced protocol).
#[derive(Clone, Debug)]
pub struct LineCrossing {
    pub number: String,
    pub timeline_number: String,
    pub timeline_name: String,
    pub date: String,
    pub time: String,
    /// Present when the line carries a seventh field.
    pub driver_id: Option<u8>,
    /// Present when the line carries an eighth field.
    pub class_name: Option<String>,
}

impl LineCrossing {
    /// Why the fields `f` are not a line crossing, if they are not: it takes
    /// six to eight fields, and a seventh must be an integer.
    pub open spec fn fault(f: Seq<Seq<char>>) -> Option<Failure> {
        if f.len() < 6 || f.len() > 8 {
            Some(Failure::MalformedRecord)
        } else if f.len() > 6 && uint_in(f[6], u8::MAX as nat) is None {
            Some(Failure::InvalidIntegerField)
        } else {
            None
        }
    }

    /// This record holds what the fields `f` say.
    pub open spec fn decoded_from(self, f: Seq<Seq<char>>) -> bool {
        &&& self.number@ == text_of(f[1])
        &&& self.timeline_number@ == text_of(f[2])
        &&& self.timeline_name@ == text_of(f[3])
        &&& self.date@ == text_of(f[4])
        &&& self.time@ == text_of(f[5])
        &&& match self.driver_id {
            Some(d) => f.len() > 6 && uint_in(f[6], u8::MAX as nat) == Some(d as nat),
            None => f.len() <= 6,
        }
        &&& match self.class_name {
            Some(c) => f.len() > 7 && c@ == text_of(f[7]),
            None => f.len() <= 7,
        }
    }

    fn decode(parts: &Vec<&str>) -> (r: Result<Self, RecordError>)
        ensures
            match r {
                Ok(x) => Self::fault(views(parts@)) is None && x.decoded_from(views(parts@)),
                Err(e) => Self::fault(views(parts@)) == Some(e@),
            },
    {
        if parts.len() < 6 || parts.len() > 8 {
            return Err(RecordError::MalformedRecord);
        }
        let driver_id = if parts.len() > 6 {
            match field_u8(parts[6]) {
                Ok(v) => Some(v),
                Err(e) => return Err(e),
            }
        } else {
            None
        };
        let class_name = if parts.len() > 7 {
            Some(decode_text(parts[7]))
        } else {
            None
        };
        Ok(LineCrossing {
            number: decode_text(parts[1]),
            timeline_number: decode_text(parts[2]),
            timeline_name: decode_text(parts[3]),
            date: decode_text(parts[4]),
            time: decode_text(parts[5]),
            driver_id,
            class_name,
        })
    }
}

/// Track and timeline description message (IMSA enhanced protocol): the
/// track, and the sections between its timelines in the order sent.
#[derive(Clone, Debug)]
pub struct TrackDescription {
    pub name: String,
    pub short_name: String,
    pub distance: String,
    pub sections: Vec<TrackSection>,
}

/// Describes a section of track between two timelines.
#[derive(Clone, Debug)]
pub struct TrackSection {
    /// Section name
    pub name: String,
    /// Timeline number at section start
    pub start: String,
    /// Timeline number at section end
    pub end: String,
    /// Section distance, given in whole inches
    pub distance: u32,
}

/// The number of complete four-field section groups after the fifth field;
/// a shorter trailing group does not count.
pub open spec fn section_groups(f: Seq<Seq<char>>) -> int {
    (f.len() - 5) / 4
}

/// The index of the first field of section group `k`.
pub open spec fn group_start(k: int) -> int {
    5 + 4 * k
}

impl TrackSection {
    /// This section holds what the four fields from `f[at]` say.
    pub open spec fn decoded_from(self, f: Seq<Seq<char>>, at: int) -> bool {
        &&& self.name@ == text_of(f[at])
        &&& self.start@ == text_of(f[at + 1])
        &&& self.end@ == text_of(f[at + 2])
        &&& uint_in(f[at + 3], u32::MAX as nat) == Some(self.distance as nat)
    }
}

impl TrackDescription {
    /// Why the fields `f` are not a track description, if they are not.
    pub open spec fn fault(f: Seq<Seq<char>>) -> Option<Failure> {
        if f.len() < 5 {
            Some(Failure::MalformedRecord)
        } else if uint_in(f[4], usize::MAX as nat) is None {
            Some(Failure::InvalidIntegerField)
        } else if exists|k: int|
            0 <= k < section_groups(f) && uint_in(#[trigger] f[group_start(k) + 3], u32::MAX as nat) is None {
            Some(Failure::InvalidIntegerField)
        } else if uint_in(f[4], usize::MAX as nat) != Some(section_groups(f) as nat) {
            Some(Failure::IncorrectSectionCount)
        } else {
            None
        }
    }

    /// This record holds what the fields `f` say, one section per complete
    /// group, in order.
    pub open spec fn decoded_from(self, f: Seq<Seq<char>>) -> bool {
        &&& self.name@ == text_of(f[1])
        &&& self.short_name@ == text_of(f[2])
        &&& self.distance@ == text_of(f[3])
        &&& self.sections@.len() == section_groups(f)
        &&& forall|k: int|
            0 <= k < section_groups(f) ==> (#[trigger] self.sections@[k]).decoded_from(
                f,
                group_start(k),
            )
    }

    fn decode(parts: &Vec<&str>) -> (r: Result<Self, RecordError>)
        ensures
            match r {
                Ok(x) => Self::fault(views(parts@)) is None && x.decoded_from(views(parts@)),
                Err(e) => Self::fault(views(parts@)) == Some(e@),
            },
    {
        let ghost f = views(parts@);
        if parts.len() < 5 {
            return Err(RecordError::MalformedRecord);
        }
        let expected = match field_uint(parts[4], usize::MAX as u64) {
            Ok(v) => v as usize,
            Err(e) => return Err(e),
        };
        let groups = (parts.len() - 5) / 4;
        let mut sections: Vec<TrackSection> = Vec::new();
        let mut k: usize = 0;
        let mut at: usize = 5;
        while k < groups
            invariant
                f == views(parts@),
                f.len() >= 5,
                groups == section_groups(f),
                k <= groups,
                at == group_start(k as int),
                at + 4 * (groups - k) <= parts.len(),
                sections@.len() == k,
                forall|j: int| 0 <= j < k ==> (#[trigger] sections@[j]).decoded_from(f, group_start(j)),
                forall|j: int| 0 <= j < k ==> uint_in(#[trigger] f[group_start(j) + 3], u32::MAX as nat) is Some,
            decreases groups - k,
        {
            let distance = match field_u32(parts[at + 3]) {
                Ok(v) => v,
                Err(e) => {
                    assert(uint_in(f[group_start(k as int) + 3], u32::MAX as nat) is None);
                    return Err(e);
                },
            };
            let section = TrackSection {
                name: decode_text(parts[at]),
                start: decode_text(parts[at + 1]),
                end: decode_text(parts[at + 2]),
                distance,
            };
            sections.push(section);
            k = k + 1;
            at = at + 4;
        }
        assert(!exists|j: int|
            0 <= j < section_groups(f) && uint_in(#[trigger] f[group_start(j) + 3], u32::MAX as nat) is None);
        if sections.len() != expected {
            return Err(RecordError::IncorrectSectionCount);
        }
        Ok(TrackDescription {
            name: decode_text(parts[1]),
            short_name: decode_text(parts[2]),
            distance: decode_text(parts[3]),
            sections,
        })
    }
}

/// A unit of data from the RMonitor protocol.
#[derive(Clone, Debug)]
pub enum Record {
    Heartbeat(Heartbeat),
    Competitor(Competitor),
    CompetitorExt(CompetitorExt),
    Run(Run),
    Class(Class),
    Setting(Setting),
    Race(Race),
    PracticeQual(PracticeQual),
    Init(Init),
    Passing(Passing),
    Correction(Correction),
    LineCrossing(LineCrossing),
    TrackDescription(TrackDescription),
}

impl Record {
    /// Why the fields `f` of a line are not a record, if they are not: too
    /// few fields, an unknown command token, or the fault of the variant that
    /// the token names.
    pub open spec fn fault(f: Seq<Seq<char>>) -> Option<Failure> {
        if f.len() < 2 {
            Some(Failure::MalformedRecord)
        } else if f[0] == HEARTBEAT@ {
            Heartbeat::fault(f)
        } else if f[0] == COMPETITOR@ {
            Competitor::fault(f)
        } else if f[0] == COMPETITOR_EXT@ {
            CompetitorExt::fault(f)
        } else if f[0] == RUN@ {
            Run::fault(f)
        } else if f[0] == CLASS@ {
            Class::fault(f)
        } else if f[0] == SETTING@ {
            Setting::fault(f)
        } else if f[0] == RACE@ {
            Race::fault(f)
        } else if f[0] == PRAC_QUAL@ {
            PracticeQual::fault(f)
        } else if f[0] == INIT@ {
            Init::fault(f)
        } else if f[0] == PASSING@ {
            Passing::fault(f)
        } else if f[0] == CORRECTION@ {
            Correction::fault(f)
        } else if f[0] == LINE_CROSSING@ {
            LineCrossing::fault(f)
        } else if f[0] == TRACK_DESCRIPTION@ {
            TrackDescription::fault(f)
        } else {
            Some(Failure::UnknownRecordType(f[0]))
        }
    }

    /// This record is the variant that the token `f[0]` names, holding what
    /// the fields `f` say.
    pub open spec fn decoded_from(self, f: Seq<Seq<char>>) -> bool {
        match self {
            Record::Heartbeat(x) => f[0] == HEARTBEAT@ && x.decoded_from(f),
            Record::Competitor(x) => f[0] == COMPETITOR@ && x.decoded_from(f),
            Record::CompetitorExt(x) => f[0] == COMPETITOR_EXT@ && x.decoded_from(f),
            Record::Run(x) => f[0] == RUN@ && x.decoded_from(f),
            Record::Class(x) => f[0] == CLASS@ && x.decoded_from(f),
            Record::Setting(x) => f[0] == SETTING@ && x.decoded_from(f),
            Record::Race(x) => f[0] == RACE@ && x.decoded_from(f),
            Record::PracticeQual(x) => f[0] == PRAC_QUAL@ && x.decoded_from(f),
            Record::Init(x) => f[0] == INIT@ && x.decoded_from(f),
            Record::Passing(x) => f[0] == PASSING@ && x.decoded_from(f),
            Record::Correction(x) => f[0] == CORRECTION@ && x.decoded_from(f),
            Record::LineCrossing(x) => f[0] == LINE_CROSSING@ && x.decoded_from(f),
            Record::TrackDescription(x) => f[0] == TRACK_DESCRIPTION@ && x.decoded_from(f),
        }
    }

    /// Decodes a record from a single line of text, without its line
    /// terminator. The result is the record that the line's fields describe,
    /// or exactly the error that [`Record::fault`] names for them.
    pub fn decode(line: &str) -> (r: Result<Self, RecordError>)
        ensures
            match r {
                Ok(rec) => Self::fault(split_fields(line@)) is None && rec.decoded_from(
                    split_fields(line@),
                ),
                Err(e) => Self::fault(split_fields(line@)) == Some(e@),
            },
    {
        let parts = split_line(line);
        if parts.len() < 2 {
            return Err(RecordError::MalformedRecord);
        }
        let token = parts[0];
        if same_text(token, HEARTBEAT) {
            match Heartbeat::decode(&parts) {
                Ok(x) => Ok(Record::Heartbeat(x)),
                Err(e) => Err(e),
            }
        } else if same_text(token, COMPETITOR) {
            match Competitor::decode(&parts) {
                Ok(x) => Ok(Record::Competitor(x)),
                Err(e) => Err(e),
            }
        } else if same_text(token, COMPETITOR_EXT) {
            match CompetitorExt::decode(&parts) {
                Ok(x) => Ok(Record::CompetitorExt(x)),
                Err(e) => Err(e),
            }
        } else if same_text(token, RUN) {
            match Run::decode(&parts) {
                Ok(x) => Ok(Record::Run(x)),
                Err(e) => Err(e),
            }
        } else if same_text(token, CLASS) {
            match Class::decode(&parts) {
                Ok(x) => Ok(Record::Class(x)),
                Err(e) => Err(e),
            }
        } else if same_text(token, SETTING) {
            match Setting::decode(&parts) {
                Ok(x) => Ok(Record::Setting(x)),
                Err(e) => Err(e),
            }
        } else if same_text(token, RACE) {
            match Race::decode(&parts) {
                Ok(x) => Ok(Record::Race(x)),
                Err(e) => Err(e),
            }
        } else if same_text(token, PRAC_QUAL) {
            match PracticeQual::decode(&parts) {
                Ok(x) => Ok(Record::PracticeQual(x)),
                Err(e) => Err(e),
            }
        } else if same_text(token, INIT) {
            match Init::decode(&parts) {
                Ok(x) => Ok(Record::Init(x)),
                Err(e) => Err(e),
            }
        } else if same_text(token, PASSING) {
            match Passing::decode(&parts) {
                Ok(x) => Ok(Record::Passing(x)),
                Err(e) => Err(e),
            }
        } else if same_text(token, CORRECTION) {
            match Correction::decode(&parts) {
                Ok(x) => Ok(Record::Correction(x)),
                Err(e) => Err(e),
            }
        } else if same_text(token, LINE_CROSSING) {
            match LineCrossing::decode(&parts) {
                Ok(x) => Ok(Record::LineCrossing(x)),
                Err(e) => Err(e),
            }
        } else if same_text(token, TRACK_DESCRIPTION) {
            match TrackDescription::decode(&parts) {
                Ok(x) => Ok(Record::TrackDescription(x)),
                Err(e) => Err(e),
            }
        } else {
            Err(RecordError::UnknownRecordType(token.to_owned()))
        }
    }
}

/// The characters of each command token.
pub proof fn lemma_command_tokens()
    ensures
        HEARTBEAT@ == seq!['$', 'F'],
        COMPETITOR@ == seq!['$', 'A'],
        COMPETITOR_EXT@ == seq!['$', 'C', 'O', 'M', 'P'],
        RUN@ == seq!['$', 'B'],
        CLASS@ == seq!['$', 'C'],
        SETTING@ == seq!['$', 'E'],
        RACE@ == seq!['$', 'G'],
        PRAC_QUAL@ == seq!['$', 'H'],
        INIT@ == seq!['$', 'I'],
        PASSING@ == seq!['$', 'J'],
        CORRECTION@ == seq!['$', 'C', 'O', 'R'],
        LINE_CROSSING@ == seq!['$', 'L'],
        TRACK_DESCRIPTION@ == seq!['$', 'T'],
{
    reveal_strlit("$F");
    assert(HEARTBEAT@ =~= seq!['$', 'F']);
    reveal_strlit("$A");
    assert(COMPETITOR@ =~= seq!['$', 'A']);
    reveal_strlit("$COMP");
    assert(COMPETITOR_EXT@ =~= seq!['$', 'C', 'O', 'M', 'P']);
    reveal_strlit("$B");
    assert(RUN@ =~= seq!['$', 'B']);
    reveal_strlit("$C");
    assert(CLASS@ =~= seq!['$', 'C']);
    reveal_strlit("$E");
    assert(SETTING@ =~= seq!['$', 'E']);
    reveal_strlit("$G");
    assert(RACE@ =~= seq!['$', 'G']);
    reveal_strlit("$H");
    assert(PRAC_QUAL@ =~= seq!['$', 'H']);
    reveal_strlit("$I");
    assert(INIT@ =~= seq!['$', 'I']);
    reveal_strlit("$J");
    assert(PASSING@ =~= seq!['$', 'J']);
    reveal_strlit("$COR");
    assert(CORRECTION@ =~= seq!['$', 'C', 'O', 'R']);
    reveal_strlit("$L");
    assert(LINE_CROSSING@ =~= seq!['$', 'L']);
    reveal_strlit("$T");
    assert(TRACK_DESCRIPTION@ =~= seq!['$', 'T']);
}

/// The field count of each fixed-layout record, by command token.
pub open spec fn fixed_arity(t: Seq<char>) -> Option<nat> {
    if t == HEARTBEAT@ {
        Some(6)
    } else if t == COMPETITOR@ {
        Some(8)
    } else if t == COMPETITOR_EXT@ {
        Some(8)
    } else if t == RUN@ {
        Some(3)
    } else if t == CLASS@ {
        Some(3)
    } else if t == SETTING@ {
        Some(3)
    } else if t == RACE@ {
        Some(5)
    } else if t == PRAC_QUAL@ {
        Some(5)
    } else if t == INIT@ {
        Some(3)
    } else if t == PASSING@ {
        Some(4)
    } else if t == CORRECTION@ {
        Some(6)
    } else {
        None
    }
}

/// `t` is one of the command tokens.
pub open spec fn is_command(t: Seq<char>) -> bool {
    fixed_arity(t) is Some || t == LINE_CROSSING@ || t == TRACK_DESCRIPTION@
}

/// An unknown command token fails with `UnknownRecordType`; a known token
/// with a field count its record cannot have fails with `MalformedRecord`,
/// before any field is read.
pub proof fn lemma_token_then_arity(f: Seq<Seq<char>>)
    requires
        f.len() >= 2,
    ensures
        !is_command(f[0]) ==> Record::fault(f) == Some(Failure::UnknownRecordType(f[0])),
        fixed_arity(f[0]) matches Some(n) && f.len() != n ==> Record::fault(f) == Some(
            Failure::MalformedRecord,
        ),
        f[0] == LINE_CROSSING@ && (f.len() < 6 || f.len() > 8) ==> Record::fault(f) == Some(
            Failure::MalformedRecord,
        ),
        f[0] == TRACK_DESCRIPTION@ && f.len() < 5 ==> Record::fault(f) == Some(
            Failure::MalformedRecord,
        ),
{
    lemma_command_tokens();
}

/// A line crossing with six fields has neither driver nor class; with eight
/// it has both, read from the seventh and eighth fields.
pub proof fn lemma_line_crossing_tail(f: Seq<Seq<char>>, lc: LineCrossing)
    requires
        lc.decoded_from(f),
    ensures
        f.len() == 6 ==> lc.driver_id is None && lc.class_name is None,
        f.len() == 8 ==> (lc.driver_id matches Some(d) && uint_in(f[6], u8::MAX as nat) == Some(
            d as nat,
        )) && (lc.class_name matches Some(c) && c@ == text_of(f[7])),
{
}

/// A track description whose declared count and section distances are
/// valid decodes exactly when the count equals the number of complete
/// four-field groups, and otherwise fails with `IncorrectSectionCount`: one
/// group fewer or one more than declared is an error.
pub proof fn lemma_section_count(f: Seq<Seq<char>>, n: nat)
    requires
        f.len() >= 5,
        f[0] == TRACK_DESCRIPTION@,
        uint_in(f[4], usize::MAX as nat) == Some(n),
        forall|k: int|
            0 <= k < section_groups(f) ==> uint_in(#[trigger] f[group_start(k) + 3], u32::MAX as nat)
                is Some,
    ensures
        section_groups(f) == n ==> Record::fault(f) is None,
        section_groups(f) != n ==> Record::fault(f) == Some(Failure::IncorrectSectionCount),
{
    lemma_command_tokens();
}

/// A trailing group of fewer than four fields is dropped: it changes neither
/// the number of sections, nor whether and how the record fails, nor the
/// record it decodes to.
pub proof fn lemma_trailing_group_dropped(
    f: Seq<Seq<char>>,
    extra: Seq<Seq<char>>,
    td: TrackDescription,
)
    requires
        f.len() >= 5,
        f[0] == TRACK_DESCRIPTION@,
        (f.len() - 5) % 4 == 0,
        extra.len() < 4,
    ensures
        section_groups(f + extra) == section_groups(f),
        Record::fault(f + extra) == Record::fault(f),
        td.decoded_from(f + extra) == td.decoded_from(f),
{
    lemma_command_tokens();
    let g = f + extra;
    assert(section_groups(g) == section_groups(f));
    assert forall|k: int| 0 <= k < section_groups(f) implies group_start(k) + 3 < f.len() by {
        assert(4 * k + 4 <= f.len() - 5);
    }
    assert forall|i: int| 0 <= i < f.len() implies #[trigger] g[i] == f[i] by {}
    assert forall|k: int| 0 <= k < section_groups(f) implies #[trigger] g[group_start(k) + 3]
        == f[group_start(k) + 3] by {
        assert(4 * k + 4 <= f.len() - 5);
    }
    if exists|k: int|
        0 <= k < section_groups(f) && uint_in(#[trigger] f[group_start(k) + 3], u32::MAX as nat)
            is None {
        let k = choose|k: int|
            0 <= k < section_groups(f) && uint_in(#[trigger] f[group_start(k) + 3], u32::MAX as nat)
                is None;
        assert(g[group_start(k) + 3] == f[group_start(k) + 3]);
    }
    if exists|k: int|
        0 <= k < section_groups(g) && uint_in(#[trigger] g[group_start(k) + 3], u32::MAX as nat)
            is None {
        let k = choose|k: int|
            0 <= k < section_groups(g) && uint_in(#[trigger] g[group_start(k) + 3], u32::MAX as nat)
                is None;
        assert(g[group_start(k) + 3] == f[group_start(k) + 3]);
    }
    assert((exists|k: int|
        0 <= k < section_groups(g) && uint_in(#[trigger] g[group_start(k) + 3], u32::MAX as nat)
            is None) == (exists|k: int|
        0 <= k < section_groups(f) && uint_in(#[trigger] f[group_start(k) + 3], u32::MAX as nat)
            is None));
}

} // verus!
