//! The data model of time-zone rules.
//!
//! These are plain records: what a decoder hands over after reading a binary
//! transition table or a POSIX descriptor, and what a code generator writes
//! out as constants. They carry no behaviour of their own. Each converts, by
//! `into_jiff`, into the form that the resolver in [`crate::tz`] works on.
//!
//! The records are generic over how text and tables are stored, so that one
//! shape serves both rule sets built on the heap at run time and rule sets
//! borrowed from constants.
use crate::access::{is_text_range, Table, Text};
use crate::tz::search::{keys_of, ordered, readable, Clock};
use vstd::prelude::*;
use vstd::utf8::*;

verus! {

/// A rule set whose text and tables are borrowed constants.
pub type TzifStatic = Tzif<
    &'static str,
    &'static str,
    &'static [TzifLocalTimeType],
    &'static [TzifTransition],
>;

/// A rule set whose text and tables live on the heap.
pub type TzifOwned = Tzif<
    String,
    crate::util::array_str::Abbreviation,
    Vec<TzifLocalTimeType>,
    Vec<TzifTransition>,
>;

/// A whole rule set: the fixed part, the local time types and the
/// transitions between them.
#[derive(Clone, Debug)]
pub struct Tzif<STRING, ABBREV, TYPES, TRANS> {
    pub fixed: TzifFixed<STRING, ABBREV>,
    pub types: TYPES,
    pub transitions: TRANS,
}

/// The part of a rule set that is neither of its two tables.
#[derive(Clone, Debug)]
pub struct TzifFixed<STRING, ABBREV> {
    /// The zone's name, where it is known.
    pub name: Option<STRING>,
    /// The version of the binary format that the rules were read from.
    pub version: u8,
    /// A checksum of the bytes that the rules were read from. It guards
    /// against mixing up sources; nothing in the rules depends on it.
    pub checksum: u32,
    /// Every abbreviation of the zone, one after the other.
    pub designations: STRING,
    /// The recurring rule that takes over where the transitions end.
    pub posix_tz: Option<PosixTimeZone<ABBREV>>,
}

/// One kind of local time that a zone has observed.
#[derive(Clone, Copy, Debug)]
pub struct TzifLocalTimeType {
    /// Seconds ahead of UTC.
    pub offset: i32,
    /// Whether this is daylight saving time.
    pub is_dst: bool,
    /// Where the abbreviation lies in the designations, as a range of bytes:
    /// the first bound is inside, the second is not.
    pub designation: (u8, u8),
    /// How the times of a recurring rule are to be read beside this type.
    pub indicator: TzifIndicator,
}

/// How the times of a recurring rule are to be read.
#[derive(Clone, Copy, Debug, PartialEq, Eq, Structural)]
pub enum TzifIndicator {
    LocalWall,
    LocalStandard,
    UTStandard,
}

/// A table of classified transitions, held column by column.
#[derive(Clone, Debug)]
pub struct TzifTransitions<TIMESTAMPS, STARTS, ENDS, INFOS> {
    pub timestamps: TIMESTAMPS,
    pub civil_starts: STARTS,
    pub civil_ends: ENDS,
    pub infos: INFOS,
}

/// What is known of a transition besides its times.
#[derive(Clone, Copy, Debug, PartialEq, Eq, Structural)]
pub struct TzifTransitionInfo {
    /// The local time type that begins at the transition.
    pub type_index: u8,
    /// What the transition does to the wall clock.
    pub kind: TzifTransitionKind,
}

/// What a transition does to the wall clock.
///
/// It is decided by the offset before the transition and the offset after
/// it, and it says how the transition's two wall-clock times are to be read.
#[derive(Clone, Copy, Debug, PartialEq, Eq, Structural)]
pub enum TzifTransitionKind {
    /// The offset stays as it was. Every wall-clock time near the transition
    /// occurs once. The start is the wall-clock time of the transition; the
    /// end is all zeroes and means nothing.
    Unambiguous,
    /// The offset grows, and the wall clock jumps ahead. The wall-clock times
    /// from the start (inside) to the end (outside) never occur.
    Gap,
    /// The offset shrinks, and the wall clock is set back. The wall-clock
    /// times from the start (inside) to the end (outside) occur twice.
    Fold,
}

/// A transition as it is recorded: when it happens and what begins.
#[derive(Clone, Copy, Debug)]
pub struct TzifTransition {
    /// Seconds since 1970-01-01T00:00:00Z.
    pub timestamp: i64,
    /// The local time type that begins at the transition.
    pub type_index: u8,
}

impl<
    STRING: Text,
    ABBREV: Text,
    TYPES: Table<TzifLocalTimeType>,
    TRANS: Table<TzifTransition>,
> Tzif<STRING, ABBREV, TYPES, TRANS> {
    /// Whether the rule set is sound:
    /// there is something to answer from; the timestamps of the
    /// transitions go strictly up; every transition leads to a local time
    /// type that exists; every abbreviation is a stretch of whole characters
    /// of the designations; and the days of the recurring rule are within
    /// what each way of naming a day allows.
    pub open spec fn wf(&self) -> bool {
        let types = self.types.rows();
        let trans = self.transitions.rows();
        let bytes = encode_utf8(self.fixed.designations.text());
        &&& types.len() > 0 || self.fixed.posix_tz is Some
        &&& forall|i: int, j: int|
            0 <= i < j < trans.len() ==> trans[i].timestamp < trans[j].timestamp
        &&& forall|i: int|
            0 <= i < trans.len() ==> (#[trigger] trans[i]).type_index < types.len()
        &&& forall|k: int|
            0 <= k < types.len() ==> is_text_range(
                bytes,
                (#[trigger] types[k]).designation.0 as int,
                types[k].designation.1 as int,
            )
        &&& self.fixed.posix_tz is Some ==> {
            let posix = self.fixed.posix_tz->0;
            posix.dst is Some ==> posix.dst->0.rule.start.date.wf()
                && posix.dst->0.rule.end.date.wf()
        }
    }
}

impl<STRING: Text, ABBREV: Text> Tzif<
    STRING,
    ABBREV,
    Vec<TzifLocalTimeType>,
    Vec<TzifTransition>,
> {
    /// Turns a rule set built at run time into one that the resolver reads,
    /// or gives `None` where the rule set is not sound.
    ///
    /// Every transition is classified against the local time type before
    /// it: the one that the transition before it led to, and the first local
    /// time type for the first transition.
    pub fn into_jiff(self) -> (r: Option<
        crate::tz::tzif::Tzif<
            STRING,
            ABBREV,
            Vec<crate::tz::tzif::LocalTimeType>,
            Vec<crate::tz::tzif::Transition>,
        >,
    >)
        ensures
            r is Some <==> self.wf(),
            r is Some ==> r->0.wf() && r->0.matches_shared(self),
    {
        crate::tz::tzif::Tzif::from_shared_owned(self)
    }
}

impl<STRING: Text, ABBREV: Text> TzifFixed<STRING, ABBREV> {
    /// Puts the fixed part together with two tables into a rule set that the
    /// resolver reads.
    ///
    /// The recurring rule has its offsets turned into seconds ahead of UTC.
    /// The tables are taken as they are; the rule set notes whether the
    /// wall-clock starts of the transitions are in order.
    pub fn into_jiff<
        TYPES: Table<crate::tz::tzif::LocalTimeType>,
        TRANS: Table<crate::tz::tzif::Transition>,
    >(self, types: TYPES, trans: TRANS) -> (r: crate::tz::tzif::Tzif<STRING, ABBREV, TYPES, TRANS>)
        ensures
            r.name == self.name,
            r.version == self.version,
            r.checksum == self.checksum,
            r.designations == self.designations,
            r.posix_tz == match self.posix_tz {
                Some(posix) => Some(crate::tz::posix::PosixTimeZone::spec_from_shared(posix)),
                None => None,
            },
            r.types == types,
            r.transitions == trans,
            r.wall_ordered == (readable(trans.rows()) && ordered(
                keys_of(trans.rows(), Clock::Wall),
            )),
    {
        crate::tz::tzif::Tzif::from_shared(self, types, trans)
    }
}

impl TzifLocalTimeType {
    /// The same row, in the form the resolver reads.
    pub fn into_jiff(self) -> (r: crate::tz::tzif::LocalTimeType)
        ensures
            r == crate::tz::tzif::LocalTimeType::spec_from_shared(self),
    {
        crate::tz::tzif::LocalTimeType::from_shared(self)
    }
}

impl TzifTransition {
    /// Classifies this transition as a change from `prev_offset` to
    /// `this_offset`, the offsets of the zone just before it and from it on.
    ///
    /// The result says whether the wall clock skips a stretch of time (a
    /// gap), shows one twice (a fold) or does neither, and where on the wall
    /// clock that stretch begins and ends.
    pub fn into_jiff(self, prev_offset: i32, this_offset: i32) -> (r: crate::tz::tzif::Transition)
        ensures
            r.classifies(self, prev_offset as int, this_offset as int),
    {
        crate::tz::tzif::Transition::from_shared(self, prev_offset, this_offset)
    }
}

/// A zone described by a POSIX descriptor: standard time, and daylight
/// saving time where the zone has it.
#[derive(Clone, Debug, Eq, PartialEq)]
pub struct PosixTimeZone<ABBREV> {
    pub std_abbrev: ABBREV,
    pub std_offset: PosixOffset,
    pub dst: Option<PosixDst<ABBREV>>,
}

impl<ABBREV: Text> PosixTimeZone<ABBREV> {
    /// The same zone in the form the resolver reads: with its offsets turned
    /// from seconds west of UTC into seconds ahead of UTC.
    pub fn into_jiff(self) -> (r: crate::tz::posix::PosixTimeZone<ABBREV>)
        ensures
            r == crate::tz::posix::PosixTimeZone::spec_from_shared(self),
            r.std_offset == -self.std_offset.second,
            r.dst is Some ==> r.dst->0.offset == -self.dst->0.offset.second,
    {
        crate::tz::posix::PosixTimeZone::from_shared(self)
    }
}

/// The daylight saving time of a POSIX zone.
#[derive(Clone, Debug, Eq, PartialEq)]
pub struct PosixDst<ABBREV> {
    pub abbrev: ABBREV,
    pub offset: PosixOffset,
    pub rule: PosixRule,
}

/// When daylight saving time begins and ends, each year.
#[derive(Clone, Copy, Debug, Eq, PartialEq)]
pub struct PosixRule {
    pub start: PosixDayTime,
    pub end: PosixDayTime,
}

/// A day of the year and a time on that day.
#[derive(Clone, Copy, Debug, Eq, PartialEq)]
pub struct PosixDayTime {
    pub date: PosixDay,
    pub time: PosixTime,
}

/// A day of the year, in one of the three ways a POSIX descriptor can name
/// one.
#[derive(Clone, Copy, Debug, Eq, PartialEq)]
pub enum PosixDay {
    /// The day of the year, from 1 to 365, counted as if no year had a 29th
    /// of February: day 60 is the first of March in every year.
    JulianOne(i16),
    /// The day of the year, from 0 to 365, counted with the 29th of February
    /// where the year has one.
    JulianZero(i16),
    /// A weekday of a month.
    WeekdayOfMonth {
        /// The month, from 1 to 12.
        month: i8,
        /// Which of the month's occurrences of the weekday, from 1 to 5.
        /// 5 stands for the last one, also in a month that has but four.
        week: i8,
        /// The weekday, from 0 to 6. 0 is Sunday.
        weekday: i8,
    },
}

/// A time of day in seconds after midnight. It may be negative, and it may
/// reach past the end of the day.
#[derive(Clone, Copy, Debug, Eq, PartialEq)]
pub struct PosixTime {
    pub second: i32,
}

/// An offset as a POSIX descriptor writes it: in seconds, and positive to the
/// west of UTC. Local time is UTC less this value.
#[derive(Clone, Copy, Debug, Eq, PartialEq)]
pub struct PosixOffset {
    pub second: i32,
}

} // verus!
