//! Rule sets made of recorded transitions, in the form the resolver reads.
use crate::access::{is_text_range, text_range, Table, Text};
use crate::civil::CivilDateTime;
use crate::shared::{
    TzifIndicator, TzifLocalTimeType, TzifTransition, TzifTransitionInfo, TzifTransitionKind,
    TzifTransitions,
};
use crate::tz::offset::{AmbiguousOffset, AmbiguousView, OffsetInfo, OffsetView};
use crate::tz::posix::PosixTimeZone;
use crate::tz::search::{
    find_by_bisection, find_by_scan, keys_of, latest_at_or_before, ordered, readable, Clock,
};
use crate::tz::wall::{classify, kind_of, window_end, window_start};
use vstd::prelude::*;
use vstd::string::*;
use vstd::utf8::*;

verus! {

/// One kind of local time that a zone has observed.
#[derive(Clone, Copy, Debug, PartialEq, Eq, Structural)]
pub struct LocalTimeType {
    /// Seconds ahead of UTC.
    pub offset: i32,
    /// Whether this is daylight saving time.
    pub is_dst: bool,
    /// The first byte of the abbreviation in the designations.
    pub designation_start: u8,
    /// The byte after the last byte of the abbreviation in the designations.
    pub designation_end: u8,
    /// How the times of a recurring rule are to be read beside this type.
    pub indicator: TzifIndicator,
}

impl LocalTimeType {
    /// The row `sh`, for the resolver.
    pub open spec fn spec_from_shared(sh: TzifLocalTimeType) -> LocalTimeType {
        LocalTimeType {
            offset: sh.offset,
            is_dst: sh.is_dst,
            designation_start: sh.designation.0,
            designation_end: sh.designation.1,
            indicator: sh.indicator,
        }
    }

    /// The row `sh`, for the resolver.
    pub fn from_shared(sh: TzifLocalTimeType) -> (r: LocalTimeType)
        ensures
            r == Self::spec_from_shared(sh),
    {
        LocalTimeType {
            offset: sh.offset,
            is_dst: sh.is_dst,
            designation_start: sh.designation.0,
            designation_end: sh.designation.1,
            indicator: sh.indicator,
        }
    }
}

/// A transition together with what it does to the wall clock.
#[derive(Clone, Copy, Debug, PartialEq, Eq, Structural)]
pub struct Transition {
    /// Seconds since 1970-01-01T00:00:00Z.
    pub timestamp: i64,
    /// The first wall-clock time that the transition disturbs.
    pub civil_start: CivilDateTime,
    /// The first wall-clock time after those that the transition disturbs.
    /// All zeroes where the transition disturbs none.
    pub civil_end: CivilDateTime,
    /// The local time type that begins, and the kind of the transition.
    pub info: TzifTransitionInfo,
}

impl Transition {
    /// Whether this is the recorded transition `sh`, classified as a change
    /// from offset `prev` to offset `this`.
    pub open spec fn classifies(self, sh: TzifTransition, prev: int, this: int) -> bool {
        let at = sh.timestamp as int;
        &&& self.timestamp == sh.timestamp
        &&& self.info.type_index == sh.type_index
        &&& self.info.kind == kind_of(prev, this)
        &&& self.civil_start.wf()
        &&& self.civil_start.spec_seconds() == window_start(at, prev, this)
        &&& if self.info.kind is Unambiguous {
            self.civil_end == CivilDateTime::spec_zero()
        } else {
            &&& self.civil_end.wf()
            &&& self.civil_end.spec_seconds() == window_end(at, prev, this)
        }
    }

    /// Classifies the recorded transition `sh` as a change from
    /// `prev_offset` to `this_offset`, and works out the wall-clock times
    /// that it disturbs.
    pub fn from_shared(sh: TzifTransition, prev_offset: i32, this_offset: i32) -> (r: Transition)
        ensures
            r.classifies(sh, prev_offset as int, this_offset as int),
    {
        let kind = classify(prev_offset, this_offset);
        let info = TzifTransitionInfo { type_index: sh.type_index, kind };
        match kind {
            TzifTransitionKind::Unambiguous => Transition {
                timestamp: sh.timestamp,
                civil_start: CivilDateTime::from_timestamp(sh.timestamp, prev_offset as i64),
                civil_end: CivilDateTime::zero(),
                info,
            },
            TzifTransitionKind::Gap => Transition {
                timestamp: sh.timestamp,
                civil_start: CivilDateTime::from_timestamp(sh.timestamp, prev_offset as i64),
                civil_end: CivilDateTime::from_timestamp(sh.timestamp, this_offset as i64),
                info,
            },
            TzifTransitionKind::Fold => Transition {
                timestamp: sh.timestamp,
                civil_start: CivilDateTime::from_timestamp(sh.timestamp, this_offset as i64),
                civil_end: CivilDateTime::from_timestamp(sh.timestamp, prev_offset as i64),
                info,
            },
        }
    }
}

impl<
    TIMESTAMPS: Table<i64>,
    STARTS: Table<CivilDateTime>,
    ENDS: Table<CivilDateTime>,
    INFOS: Table<TzifTransitionInfo>,
> TzifTransitions<TIMESTAMPS, STARTS, ENDS, INFOS> {
    /// The number of transitions that the four columns hold in full: the
    /// length of the shortest column.
    pub open spec fn spec_len(&self) -> nat {
        let a = self.timestamps.rows().len();
        let b = self.civil_starts.rows().len();
        let c = self.civil_ends.rows().len();
        let d = self.infos.rows().len();
        let ab = if a <= b {
            a
        } else {
            b
        };
        let cd = if c <= d {
            c
        } else {
            d
        };
        if ab <= cd {
            ab
        } else {
            cd
        }
    }

    /// The transition that row `i` of the four columns makes up.
    pub open spec fn spec_row(&self, i: int) -> Transition {
        Transition {
            timestamp: self.timestamps.rows()[i],
            civil_start: self.civil_starts.rows()[i],
            civil_end: self.civil_ends.rows()[i],
            info: self.infos.rows()[i],
        }
    }
}

/// Four columns read as one table of transitions. Rows past the end of the
/// shortest column are not part of the table.
impl<
    TIMESTAMPS: Table<i64>,
    STARTS: Table<CivilDateTime>,
    ENDS: Table<CivilDateTime>,
    INFOS: Table<TzifTransitionInfo>,
> Table<Transition> for TzifTransitions<TIMESTAMPS, STARTS, ENDS, INFOS> {
    open spec fn rows(&self) -> Seq<Transition> {
        Seq::new(self.spec_len(), |i: int| self.spec_row(i))
    }

    fn len(&self) -> (n: usize) {
        let a = self.timestamps.len();
        let b = self.civil_starts.len();
        let c = self.civil_ends.len();
        let d = self.infos.len();
        let ab = if a <= b {
            a
        } else {
            b
        };
        let cd = if c <= d {
            c
        } else {
            d
        };
        if ab <= cd {
            ab
        } else {
            cd
        }
    }

    fn get(&self, i: usize) -> (row: Transition) {
        Transition {
            timestamp: self.timestamps.get(i),
            civil_start: self.civil_starts.get(i),
            civil_end: self.civil_ends.get(i),
            info: self.infos.get(i),
        }
    }
}

/// A recorded transition has one classification only.
pub proof fn lemma_classification_is_unique(
    a: Transition,
    b: Transition,
    sh: TzifTransition,
    prev: int,
    this: int,
)
    requires
        a.classifies(sh, prev, this),
        b.classifies(sh, prev, this),
    ensures
        a == b,
{
    crate::civil::lemma_seconds_unique(a.civil_start, b.civil_start);
    if !(a.info.kind is Unambiguous) {
        crate::civil::lemma_seconds_unique(a.civil_end, b.civil_end);
    }
}

/// A rule set: transitions that were recorded, the local time types they
/// lead to, and the recurring rule that takes over where the record ends.
#[derive(Clone, Debug)]
pub struct Tzif<STRING, ABBREV, TYPES, TRANS> {
    /// The zone's name, where it is known.
    pub name: Option<STRING>,
    /// The version of the binary format that the rules were read from.
    pub version: u8,
    /// A checksum of the bytes that the rules were read from.
    pub checksum: u32,
    /// Every abbreviation of the zone, one after the other.
    pub designations: STRING,
    /// The recurring rule that takes over where the transitions end.
    pub posix_tz: Option<PosixTimeZone<ABBREV>>,
    /// The local time types, in the order in which transitions refer to them.
    pub types: TYPES,
    /// The transitions, from the earliest to the latest.
    pub transitions: TRANS,
    /// Whether the wall-clock starts of the transitions never go down from
    /// one transition to the next. Where they do not, a wall-clock time is
    /// looked up by bisection.
    pub wall_ordered: bool,
}

/// A rule set whose text and tables are borrowed constants.
pub type TzifStatic = Tzif<
    &'static str,
    &'static str,
    &'static [LocalTimeType],
    &'static [Transition],
>;

/// A rule set whose text and tables live on the heap.
pub type TzifOwned = Tzif<
    String,
    crate::util::array_str::Abbreviation,
    Vec<LocalTimeType>,
    Vec<Transition>,
>;

/// The transition as it was recorded, without its classification.
pub open spec fn recorded(t: Transition) -> TzifTransition {
    TzifTransition { timestamp: t.timestamp, type_index: t.info.type_index }
}

/// The offset that holds from transition `i` on.
pub open spec fn offset_from(types: Seq<LocalTimeType>, trans: Seq<Transition>, i: int) -> int {
    types[trans[i].info.type_index as int].offset as int
}

/// The local time type that holds until transition `i`: the one that the
/// transition before it led to, and the first local time type for the first
/// transition.
pub open spec fn type_before(types: Seq<LocalTimeType>, trans: Seq<Transition>, i: int)
    -> LocalTimeType {
    if i <= 0 {
        types[0]
    } else {
        types[trans[i - 1].info.type_index as int]
    }
}

/// Whether transition `i` leads to a local time type that exists, and is
/// classified as the change from the local time type before it to that one.
pub open spec fn transition_ok(types: Seq<LocalTimeType>, trans: Seq<Transition>, i: int) -> bool {
    &&& trans[i].info.type_index < types.len()
    &&& trans[i].classifies(
        recorded(trans[i]),
        type_before(types, trans, i).offset as int,
        offset_from(types, trans, i),
    )
}

/// Whether the abbreviation of local time type `k` is a stretch of whole
/// characters of the designations, whose bytes are `bytes`.
pub open spec fn type_ok(bytes: Seq<u8>, types: Seq<LocalTimeType>, k: int) -> bool {
    is_text_range(bytes, types[k].designation_start as int, types[k].designation_end as int)
}

/// Whether every wall-clock start can be read and none is earlier than the
/// one before it.
pub fn walls_in_order<TRANS: Table<Transition>>(trans: &TRANS) -> (r: bool)
    ensures
        r == (readable(trans.rows()) && ordered(keys_of(trans.rows(), Clock::Wall))),
{
    let n = trans.len();
    let ghost rows = trans.rows();
    let ghost keys = keys_of(rows, Clock::Wall);
    let mut prev: i128 = 0;
    let mut i: usize = 0;
    while i < n
        invariant
            i <= n == rows.len(),
            rows == trans.rows(),
            keys == keys_of(rows, Clock::Wall),
            forall|j: int| 0 <= j < i ==> (#[trigger] rows[j]).civil_start.wf(),
            forall|a: int, b: int| 0 <= a <= b < i ==> keys[a] <= keys[b],
            i > 0 ==> prev == keys[i - 1],
        decreases n - i,
    {
        let row = trans.get(i);
        if !row.civil_start.is_valid() {
            assert(!rows[i as int].civil_start.wf());
            return false;
        }
        let key = row.civil_start.to_seconds();
        if i > 0 && key < prev {
            assert(keys[i - 1] > keys[i as int]);
            return false;
        }
        prev = key;
        i += 1;
    }
    true
}

/// What a local time type says, where `bytes` are the designations.
pub open spec fn row_view(bytes: Seq<u8>, t: LocalTimeType) -> OffsetView {
    OffsetView {
        offset: t.offset as int,
        is_dst: t.is_dst,
        abbreviation: decode_utf8(
            bytes.subrange(t.designation_start as int, t.designation_end as int),
        ),
    }
}

impl<STRING: Text, ABBREV: Text, TYPES: Table<LocalTimeType>, TRANS: Table<Transition>> Tzif<
    STRING,
    ABBREV,
    TYPES,
    TRANS,
> {
    /// Puts a fixed part together with two tables.
    pub fn from_shared(sh: crate::shared::TzifFixed<STRING, ABBREV>, types: TYPES, trans: TRANS) -> (r:
        Self)
        ensures
            r.name == sh.name,
            r.version == sh.version,
            r.checksum == sh.checksum,
            r.designations == sh.designations,
            r.posix_tz == match sh.posix_tz {
                Some(posix) => Some(PosixTimeZone::spec_from_shared(posix)),
                None => None,
            },
            r.types == types,
            r.transitions == trans,
            r.wall_ordered == (readable(trans.rows()) && ordered(
                keys_of(trans.rows(), Clock::Wall),
            )),
    {
        let posix_tz = match sh.posix_tz {
            Some(posix) => Some(PosixTimeZone::from_shared(posix)),
            None => None,
        };
        let wall_ordered = walls_in_order(&trans);
        Tzif {
            name: sh.name,
            version: sh.version,
            checksum: sh.checksum,
            designations: sh.designations,
            posix_tz,
            types,
            transitions: trans,
            wall_ordered,
        }
    }

    /// The designations as bytes.
    pub open spec fn spec_designation_bytes(&self) -> Seq<u8> {
        encode_utf8(self.designations.text())
    }

    /// Whether the rule set is sound:
    /// there is something to answer from; the timestamps of the
    /// transitions go strictly up; every transition leads to a local time
    /// type that exists and is classified against the one before it; every
    /// abbreviation is a stretch of whole characters of the designations;
    /// the recurring rule is sound; and the transitions' wall-clock starts
    /// are in order where the rule set says so.
    pub open spec fn wf(&self) -> bool {
        let types = self.types.rows();
        let trans = self.transitions.rows();
        &&& types.len() > 0 || self.posix_tz is Some
        &&& forall|i: int, j: int|
            0 <= i < j < trans.len() ==> trans[i].timestamp < trans[j].timestamp
        &&& forall|i: int| 0 <= i < trans.len() ==> #[trigger] transition_ok(types, trans, i)
        &&& forall|k: int|
            0 <= k < types.len() ==> #[trigger] type_ok(self.spec_designation_bytes(), types, k)
        &&& self.posix_tz is Some ==> self.posix_tz->0.wf()
        &&& self.wall_ordered ==> ordered(keys_of(trans, Clock::Wall))
    }

    /// What the rule set says of the instant `ts`.
    ///
    /// The latest transition at or before `ts` decides: the local time type
    /// that it leads to holds. Before the first transition, and after the
    /// last, the recurring rule decides if there is one. Without one, the
    /// first local time type holds before the first transition, and the last
    /// transition goes on holding after it.
    pub open spec fn spec_to_offset(&self, ts: int) -> OffsetView {
        let types = self.types.rows();
        let trans = self.transitions.rows();
        let i = latest_at_or_before(keys_of(trans, Clock::Universal), ts);
        if i < 0 {
            if self.posix_tz is Some {
                self.posix_tz->0.spec_to_offset(ts)
            } else {
                row_view(self.spec_designation_bytes(), types[0])
            }
        } else if i == trans.len() - 1 && trans[i].timestamp < ts && self.posix_tz is Some {
            self.posix_tz->0.spec_to_offset(ts)
        } else {
            row_view(self.spec_designation_bytes(), types[trans[i].info.type_index as int])
        }
    }

    /// The offsets that the wall-clock time `civil`, which lies in year `y`,
    /// may stand for.
    ///
    /// The latest transition whose wall-clock start is at or before `civil`
    /// decides. If `civil` lies before the transition's wall-clock end,
    /// `civil` is in a gap, or in a fold between the local time type that
    /// held until the transition and the one that it leads to. If not,
    /// `civil` occurs once, under the local time type that the transition
    /// leads to; but after the last transition the recurring rule decides, if
    /// there is one, and so it does before the first wall-clock start.
    pub open spec fn spec_to_ambiguous(&self, civil: int, y: int) -> AmbiguousView {
        let types = self.types.rows();
        let trans = self.transitions.rows();
        let bytes = self.spec_designation_bytes();
        let i = latest_at_or_before(keys_of(trans, Clock::Wall), civil);
        if i < 0 {
            if self.posix_tz is Some {
                self.posix_tz->0.spec_to_ambiguous(civil, y)
            } else {
                AmbiguousView::Unambiguous { offset: row_view(bytes, types[0]) }
            }
        } else {
            let t = trans[i];
            let this = types[t.info.type_index as int];
            if !(t.info.kind is Unambiguous) && civil < t.civil_end.spec_seconds() {
                if t.info.kind is Gap {
                    AmbiguousView::Gap
                } else {
                    AmbiguousView::Fold {
                        before: row_view(bytes, type_before(types, trans, i)),
                        after: row_view(bytes, this),
                    }
                }
            } else if i == trans.len() - 1 && t.timestamp < civil - this.offset
                && self.posix_tz is Some {
                self.posix_tz->0.spec_to_ambiguous(civil, y)
            } else {
                AmbiguousView::Unambiguous { offset: row_view(bytes, this) }
            }
        }
    }

    /// The number of local time types.
    pub fn type_count(&self) -> (n: usize)
        ensures
            n == self.types.rows().len(),
    {
        self.types.len()
    }

    /// The local time type at `index`, or `None` where there is none.
    pub fn local_time_type(&self, index: usize) -> (r: Option<LocalTimeType>)
        ensures
            r == if index < self.types.rows().len() {
                Some(self.types.rows()[index as int])
            } else {
                None
            },
    {
        if index < self.types.len() {
            Some(self.types.get(index))
        } else {
            None
        }
    }

    /// The number of transitions.
    pub fn transition_count(&self) -> (n: usize)
        ensures
            n == self.transitions.rows().len(),
    {
        self.transitions.len()
    }

    /// The transition at `index`, or `None` where there is none.
    pub fn transition(&self, index: usize) -> (r: Option<Transition>)
        ensures
            r == if index < self.transitions.rows().len() {
                Some(self.transitions.rows()[index as int])
            } else {
                None
            },
    {
        if index < self.transitions.len() {
            Some(self.transitions.get(index))
        } else {
            None
        }
    }

    /// The zone's name, where it is known.
    pub fn name<'a>(&'a self) -> (r: Option<&'a str>)
        ensures
            r is Some <==> self.name is Some,
            r is Some ==> r->0@ == self.name->0.text(),
    {
        match &self.name {
            Some(name) => Some(name.as_text()),
            None => None,
        }
    }

    /// Every abbreviation of the zone, one after the other.
    pub fn designations<'a>(&'a self) -> (r: &'a str)
        ensures
            r@ == self.designations.text(),
    {
        self.designations.as_text()
    }

    /// Whether the rule set is sound.
    pub fn is_valid(&self) -> (r: bool)
        ensures
            r == self.wf(),
    {
        let ghost types = self.types.rows();
        let ghost trans = self.transitions.rows();
        let ghost bytes = self.spec_designation_bytes();
        let n_types = self.types.len();
        let n = self.transitions.len();
        match &self.posix_tz {
            None => {
                if n_types == 0 {
                    return false;
                }
            },
            Some(posix) => {
                if !posix.is_valid() {
                    return false;
                }
            },
        }
        let all = self.designations.as_text();
        let mut k: usize = 0;
        while k < n_types
            invariant
                k <= n_types == types.len(),
                types == self.types.rows(),
                bytes == self.spec_designation_bytes(),
                all@ == self.designations.text(),
                forall|j: int| 0 <= j < k ==> #[trigger] type_ok(bytes, types, j),
            decreases n_types - k,
        {
            let t = self.types.get(k);
            if !crate::access::check_text_range(
                all,
                t.designation_start as usize,
                t.designation_end as usize,
            ) {
                assert(!type_ok(bytes, types, k as int));
                return false;
            }
            k += 1;
        }
        let mut i: usize = 0;
        while i < n
            invariant
                i <= n == trans.len(),
                n_types == types.len(),
                types == self.types.rows(),
                trans == self.transitions.rows(),
                forall|j: int| 0 <= j < i ==> #[trigger] transition_ok(types, trans, j),
                forall|a: int, b: int| 0 <= a < b < i ==> trans[a].timestamp < trans[b].timestamp,
            decreases n - i,
        {
            let t = self.transitions.get(i);
            if t.info.type_index as usize >= n_types {
                assert(!transition_ok(types, trans, i as int));
                return false;
            }
            let this = self.types.get(t.info.type_index as usize);
            let before = if i == 0 {
                self.types.get(0)
            } else {
                let prev = self.transitions.get(i - 1);
                assert(transition_ok(types, trans, i - 1));
                if prev.timestamp >= t.timestamp {
                    assert(!(trans[i - 1].timestamp < trans[i as int].timestamp));
                    return false;
                }
                self.types.get(prev.info.type_index as usize)
            };
            let sh = TzifTransition { timestamp: t.timestamp, type_index: t.info.type_index };
            let expected = Transition::from_shared(sh, before.offset, this.offset);
            proof {
                if t.classifies(sh, before.offset as int, this.offset as int) {
                    lemma_classification_is_unique(
                        t,
                        expected,
                        sh,
                        before.offset as int,
                        this.offset as int,
                    );
                }
            }
            if !(t == expected) {
                assert(!transition_ok(types, trans, i as int));
                return false;
            }
            assert(transition_ok(types, trans, i as int));
            i += 1;
        }
        if self.wall_ordered && !walls_in_order(&self.transitions) {
            assert(readable(trans)) by {
                assert forall|j: int| 0 <= j < trans.len() implies (
                #[trigger] trans[j]).civil_start.wf() by {
                    assert(transition_ok(types, trans, j));
                }
            }
            return false;
        }
        true
    }

    /// What the local time type `t` says.
    pub fn row_info<'a>(&'a self, t: LocalTimeType) -> (r: OffsetInfo<'a>)
        requires
            is_text_range(
                self.spec_designation_bytes(),
                t.designation_start as int,
                t.designation_end as int,
            ),
        ensures
            r@ == row_view(self.spec_designation_bytes(), t),
    {
        let all = self.designations.as_text();
        let abbreviation = text_range(all, t.designation_start as usize, t.designation_end as usize);
        OffsetInfo { offset: t.offset as i64, is_dst: t.is_dst, abbreviation }
    }

    /// What the rule set says of the instant `timestamp`, in seconds since
    /// 1970-01-01T00:00:00Z. The transition is found by bisection.
    pub fn to_offset<'a>(&'a self, timestamp: i64) -> (r: OffsetInfo<'a>)
        requires
            self.wf(),
        ensures
            r@ == self.spec_to_offset(timestamp as int),
    {
        proof {
            self.lemma_timestamps_ordered();
        }
        let found = find_by_bisection(&self.transitions, Clock::Universal, timestamp as i128);
        self.offset_at(found, timestamp)
    }

    /// What the rule set says of the instant `timestamp`, in seconds since
    /// 1970-01-01T00:00:00Z. The transition is found by looking at each in
    /// turn: the plain way, to hold the quick one against.
    pub fn to_offset_by_scan<'a>(&'a self, timestamp: i64) -> (r: OffsetInfo<'a>)
        requires
            self.wf(),
        ensures
            r@ == self.spec_to_offset(timestamp as int),
    {
        let found = find_by_scan(&self.transitions, Clock::Universal, timestamp as i128);
        self.offset_at(found, timestamp)
    }

    /// What the rule set says of the instant `timestamp`, given the
    /// transition that governs it.
    fn offset_at<'a>(&'a self, found: Option<usize>, timestamp: i64) -> (r: OffsetInfo<'a>)
        requires
            self.wf(),
            crate::tz::search::index_of(found) == latest_at_or_before(
                keys_of(self.transitions.rows(), Clock::Universal),
                timestamp as int,
            ),
        ensures
            r@ == self.spec_to_offset(timestamp as int),
    {
        proof {
            crate::tz::search::lemma_latest_is_greatest(
                keys_of(self.transitions.rows(), Clock::Universal),
                timestamp as int,
            );
        }
        let ghost types = self.types.rows();
        let ghost bytes = self.spec_designation_bytes();
        match found {
            None => match &self.posix_tz {
                Some(posix) => posix.to_offset(timestamp),
                None => {
                    assert(type_ok(bytes, types, 0));
                    self.row_info(self.types.get(0))
                },
            },
            Some(i) => {
                let t = self.transitions.get(i);
                assert(transition_ok(types, self.transitions.rows(), i as int));
                assert(type_ok(bytes, types, t.info.type_index as int));
                let past_last = i == self.transitions.len() - 1 && t.timestamp < timestamp;
                match &self.posix_tz {
                    Some(posix) if past_last => posix.to_offset(timestamp),
                    _ => self.row_info(self.types.get(t.info.type_index as usize)),
                }
            },
        }
    }

    /// The offsets that the wall-clock time `dt` may stand for.
    pub fn to_ambiguous_kind<'a>(&'a self, dt: CivilDateTime) -> (r: AmbiguousOffset<'a>)
        requires
            self.wf(),
            dt.wf(),
        ensures
            r@ == self.spec_to_ambiguous(dt.spec_seconds(), dt.year as int),
    {
        let civil = dt.to_seconds();
        let ghost keys = keys_of(self.transitions.rows(), Clock::Wall);
        proof {
            crate::tz::search::lemma_latest_is_greatest(keys, civil as int);
        }
        proof {
            self.lemma_timestamps_ordered();
        }
        let found = if self.wall_ordered {
            find_by_bisection(&self.transitions, Clock::Wall, civil)
        } else {
            find_by_scan(&self.transitions, Clock::Wall, civil)
        };
        let ghost types = self.types.rows();
        let ghost trans = self.transitions.rows();
        let ghost bytes = self.spec_designation_bytes();
        match found {
            None => match &self.posix_tz {
                Some(posix) => posix.to_ambiguous_at(civil, dt.year),
                None => {
                    assert(type_ok(bytes, types, 0));
                    AmbiguousOffset::Unambiguous { offset: self.row_info(self.types.get(0)) }
                },
            },
            Some(i) => {
                let t = self.transitions.get(i);
                assert(transition_ok(types, trans, i as int));
                assert(type_ok(bytes, types, t.info.type_index as int));
                let this = self.types.get(t.info.type_index as usize);
                let disturbed = match t.info.kind {
                    TzifTransitionKind::Unambiguous => false,
                    _ => civil < t.civil_end.to_seconds(),
                };
                if disturbed {
                    match t.info.kind {
                        TzifTransitionKind::Gap => AmbiguousOffset::Gap,
                        _ => {
                            let before = if i == 0 {
                                self.types.get(0)
                            } else {
                                let prev = self.transitions.get(i - 1);
                                assert(transition_ok(types, trans, i - 1));
                                self.types.get(prev.info.type_index as usize)
                            };
                            assert(before == type_before(types, trans, i as int));
                            assert(types.contains(before));
                            assert(exists|k: int|
                                0 <= k < types.len() && types[k] == before && type_ok(
                                    bytes,
                                    types,
                                    k,
                                ));
                            AmbiguousOffset::Fold {
                                before: self.row_info(before),
                                after: self.row_info(this),
                            }
                        },
                    }
                } else {
                    let past_last = i == self.transitions.len() - 1 && (t.timestamp as i128)
                        < civil - this.offset as i128;
                    match &self.posix_tz {
                        Some(posix) if past_last => posix.to_ambiguous_at(civil, dt.year),
                        _ => AmbiguousOffset::Unambiguous { offset: self.row_info(this) },
                    }
                }
            },
        }
    }

    /// In a sound rule set the timestamps never go down, and every
    /// wall-clock start can be read.
    pub proof fn lemma_timestamps_ordered(&self)
        requires
            self.wf(),
        ensures
            ordered(keys_of(self.transitions.rows(), Clock::Universal)),
            readable(self.transitions.rows()),
    {
        let trans = self.transitions.rows();
        let keys = keys_of(trans, Clock::Universal);
        assert forall|i: int, j: int| 0 <= i <= j < keys.len() implies keys[i] <= keys[j] by {
            if i < j {
                assert(trans[i].timestamp < trans[j].timestamp);
            }
        }
        assert forall|i: int| 0 <= i < trans.len() implies (#[trigger] trans[i]).civil_start.wf() by {
            assert(transition_ok(self.types.rows(), trans, i));
        }
    }
}

impl<STRING: Text, ABBREV: Text> Tzif<STRING, ABBREV, Vec<LocalTimeType>, Vec<Transition>> {
    /// Whether this rule set holds what `sh` holds: the same fixed part, the
    /// same local time types, and the same transitions.
    pub open spec fn matches_shared(
        &self,
        sh: crate::shared::Tzif<STRING, ABBREV, Vec<TzifLocalTimeType>, Vec<TzifTransition>>,
    ) -> bool {
        &&& self.name == sh.fixed.name
        &&& self.version == sh.fixed.version
        &&& self.checksum == sh.fixed.checksum
        &&& self.designations == sh.fixed.designations
        &&& self.posix_tz == match sh.fixed.posix_tz {
            Some(posix) => Some(PosixTimeZone::spec_from_shared(posix)),
            None => None,
        }
        &&& self.types@.len() == sh.types@.len()
        &&& forall|k: int|
            0 <= k < self.types@.len() ==> #[trigger] self.types@[k]
                == LocalTimeType::spec_from_shared(sh.types@[k])
        &&& self.transitions@.len() == sh.transitions@.len()
        &&& forall|i: int|
            0 <= i < self.transitions@.len() ==> recorded(#[trigger] self.transitions@[i])
                == sh.transitions@[i]
    }

    /// Turns a rule set built at run time into one that the resolver reads,
    /// or gives `None` where the rule set is not sound.
    pub fn from_shared_owned(
        sh: crate::shared::Tzif<STRING, ABBREV, Vec<TzifLocalTimeType>, Vec<TzifTransition>>,
    ) -> (r: Option<Self>)
        ensures
            r is Some <==> sh.wf(),
            r is Some ==> r->0.wf() && r->0.matches_shared(sh),
    {
        let crate::shared::Tzif { fixed, types: raw_types, transitions: raw_trans } = sh;
        assert(raw_types@ == sh.types.rows() && raw_trans@ == sh.transitions.rows());
        let n_types = raw_types.len();
        let mut types: Vec<LocalTimeType> = Vec::new();
        let mut k: usize = 0;
        while k < n_types
            invariant
                k <= n_types == raw_types@.len(),
                types@.len() == k,
                forall|j: int|
                    0 <= j < k ==> #[trigger] types@[j] == LocalTimeType::spec_from_shared(
                        raw_types@[j],
                    ),
            decreases n_types - k,
        {
            types.push(LocalTimeType::from_shared(raw_types[k]));
            k += 1;
        }
        let n = raw_trans.len();
        let mut trans: Vec<Transition> = Vec::new();
        let mut i: usize = 0;
        while i < n
            invariant
                i <= n == raw_trans@.len(),
                n_types == raw_types@.len() == types@.len(),
                raw_types@ == sh.types.rows(),
                raw_trans@ == sh.transitions.rows(),
                trans@.len() == i,
                forall|j: int|
                    0 <= j < n_types ==> #[trigger] types@[j] == LocalTimeType::spec_from_shared(
                        raw_types@[j],
                    ),
                forall|j: int| 0 <= j < i ==> recorded(#[trigger] trans@[j]) == raw_trans@[j],
                forall|j: int| 0 <= j < i ==> #[trigger] transition_ok(types@, trans@, j),
            decreases n - i,
        {
            let raw = raw_trans[i];
            if raw.type_index as usize >= n_types {
                assert(!(sh.transitions.rows()[i as int].type_index < sh.types.rows().len()));
                return None;
            }
            let before = if i == 0 {
                types[0].offset
            } else {
                assert(transition_ok(types@, trans@, i - 1));
                types[trans[i - 1].info.type_index as usize].offset
            };
            let this = types[raw.type_index as usize].offset;
            let ghost earlier = trans@;
            trans.push(Transition::from_shared(raw, before, this));
            proof {
                assert forall|j: int| 0 <= j < i + 1 implies #[trigger] transition_ok(
                    types@,
                    trans@,
                    j,
                ) by {
                    if j < i {
                        assert(transition_ok(types@, earlier, j));
                        assert(trans@[j] == earlier[j]);
                        if j > 0 {
                            assert(trans@[j - 1] == earlier[j - 1]);
                        }
                    }
                }
            }
            i += 1;
        }
        let ghost fixed_before = fixed;
        let zone = Tzif::from_shared(fixed, types, trans);
        proof {
            let sh_types = sh.types.rows();
            let sh_trans = sh.transitions.rows();
            let bytes = zone.spec_designation_bytes();
            assert(zone.matches_shared(sh));
            if sh.wf() {
                assert forall|k: int| 0 <= k < zone.types@.len() implies #[trigger] type_ok(
                    bytes,
                    zone.types@,
                    k,
                ) by {
                    assert(zone.types@[k] == LocalTimeType::spec_from_shared(sh_types[k]));
                }
                assert forall|a: int, b: int| 0 <= a < b < zone.transitions@.len() implies zone.transitions@[a].timestamp
                    < zone.transitions@[b].timestamp by {
                    assert(recorded(zone.transitions@[a]) == sh_trans[a]);
                    assert(recorded(zone.transitions@[b]) == sh_trans[b]);
                    assert(sh_trans[a].timestamp < sh_trans[b].timestamp);
                }
                assert(zone.wf());
            }
            if zone.wf() {
                assert forall|k: int| 0 <= k < sh_types.len() implies is_text_range(
                    bytes,
                    (#[trigger] sh_types[k]).designation.0 as int,
                    sh_types[k].designation.1 as int,
                ) by {
                    assert(type_ok(bytes, zone.types@, k));
                    assert(zone.types@[k] == LocalTimeType::spec_from_shared(sh_types[k]));
                }
                assert forall|a: int, b: int| 0 <= a < b < sh_trans.len() implies sh_trans[a].timestamp
                    < sh_trans[b].timestamp by {
                    assert(recorded(zone.transitions@[a]) == sh_trans[a]);
                    assert(recorded(zone.transitions@[b]) == sh_trans[b]);
                }
                assert forall|a: int| 0 <= a < sh_trans.len() implies (
                #[trigger] sh_trans[a]).type_index < sh_types.len() by {
                    assert(recorded(zone.transitions@[a]) == sh_trans[a]);
                    assert(transition_ok(zone.types@, zone.transitions@, a));
                }
                assert(sh.wf());
            }
        }
        if zone.is_valid() {
            Some(zone)
        } else {
            None
        }
    }
}

} // verus!
