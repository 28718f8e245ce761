//! Coverage recording: the names fix qualities are stored under, the
//! bookkeeping of an import of fields and AB lines from another PC, and the
//! state of the coverage logger (engage/disengage segments, epoch
//! deduplication, the time filter, and batched writes).

use vstd::prelude::*;
use vstd::string::*;
use vstd::utf8::*;
use crate::text::bytes_eq;
use crate::types::FixQuality;

verus! {

// ---------------------------------------------------------------------
// Stored names of fix qualities
// ---------------------------------------------------------------------

/// The name a fix quality is stored under.
pub open spec fn fix_quality_name(q: FixQuality) -> Seq<char> {
    match q {
        FixQuality::NoFix => seq!['N', 'o', 'F', 'i', 'x'],
        FixQuality::Gps => seq!['G', 'P', 'S'],
        FixQuality::Dgps => seq!['D', 'G', 'P', 'S'],
        FixQuality::Rtk => seq!['R', 'T', 'K'],
        FixQuality::RtkFloat => seq!['R', 't', 'k', 'F', 'l', 'o', 'a', 't'],
    }
}

/// The fix quality stored under a name: `RTK`, `RtkFloat`, `DGPS` and
/// `GPS` are recognised, anything else reads as no fix.
pub open spec fn fix_quality_of_name(s: Seq<char>) -> FixQuality {
    if s == fix_quality_name(FixQuality::Rtk) {
        FixQuality::Rtk
    } else if s == fix_quality_name(FixQuality::RtkFloat) {
        FixQuality::RtkFloat
    } else if s == fix_quality_name(FixQuality::Dgps) {
        FixQuality::Dgps
    } else if s == fix_quality_name(FixQuality::Gps) {
        FixQuality::Gps
    } else {
        FixQuality::NoFix
    }
}

/// The name of a fix quality as bytes.
pub open spec fn fix_quality_name_bytes(q: FixQuality) -> Seq<u8> {
    match q {
        FixQuality::NoFix => seq!['N' as u8, 'o' as u8, 'F' as u8, 'i' as u8, 'x' as u8],
        FixQuality::Gps => seq!['G' as u8, 'P' as u8, 'S' as u8],
        FixQuality::Dgps => seq!['D' as u8, 'G' as u8, 'P' as u8, 'S' as u8],
        FixQuality::Rtk => seq!['R' as u8, 'T' as u8, 'K' as u8],
        FixQuality::RtkFloat => seq![
            'R' as u8,
            't' as u8,
            'k' as u8,
            'F' as u8,
            'l' as u8,
            'o' as u8,
            'a' as u8,
            't' as u8,
        ],
    }
}

/// The UTF-8 encoding of a stored name is its bytes, and a string encodes
/// to those bytes exactly when it is that name.
proof fn lemma_name_bytes(q: FixQuality, s: Seq<char>)
    ensures
        encode_utf8(fix_quality_name(q)) == fix_quality_name_bytes(q),
        (encode_utf8(s) == fix_quality_name_bytes(q)) <==> (s == fix_quality_name(q)),
{
    let n = fix_quality_name(q);
    assert(is_ascii_chars(n));
    is_ascii_chars_encode_utf8(n);
    assert(encode_utf8(n) =~= fix_quality_name_bytes(q));
    if encode_utf8(s) == fix_quality_name_bytes(q) {
        encode_utf8_decode_utf8(s);
        encode_utf8_decode_utf8(n);
    }
}

/// The name a fix quality is stored under.
pub fn fix_quality_to_str(q: FixQuality) -> (r: &'static str)
    ensures
        r@ == fix_quality_name(q),
{
    match q {
        FixQuality::NoFix => {
            proof {
                reveal_strlit("NoFix");
            }
            "NoFix"
        },
        FixQuality::Gps => {
            proof {
                reveal_strlit("GPS");
            }
            "GPS"
        },
        FixQuality::Dgps => {
            proof {
                reveal_strlit("DGPS");
            }
            "DGPS"
        },
        FixQuality::Rtk => {
            proof {
                reveal_strlit("RTK");
            }
            "RTK"
        },
        FixQuality::RtkFloat => {
            proof {
                reveal_strlit("RtkFloat");
            }
            "RtkFloat"
        },
    }
}

/// Whether the string holds exactly the stored name of `q`.
fn is_name_of(s: &str, q: FixQuality) -> (r: bool)
    ensures
        r == (s@ == fix_quality_name(q)),
{
    let name: Vec<u8> = match q {
        FixQuality::NoFix => vec!['N' as u8, 'o' as u8, 'F' as u8, 'i' as u8, 'x' as u8],
        FixQuality::Gps => vec!['G' as u8, 'P' as u8, 'S' as u8],
        FixQuality::Dgps => vec!['D' as u8, 'G' as u8, 'P' as u8, 'S' as u8],
        FixQuality::Rtk => vec!['R' as u8, 'T' as u8, 'K' as u8],
        FixQuality::RtkFloat => vec![
            'R' as u8,
            't' as u8,
            'k' as u8,
            'F' as u8,
            'l' as u8,
            'o' as u8,
            'a' as u8,
            't' as u8,
        ],
    };
    assert(name@ == fix_quality_name_bytes(q));
    proof {
        lemma_name_bytes(q, s@);
    }
    bytes_eq(s.as_bytes(), name.as_slice())
}

/// The fix quality stored under a name; unknown names read as no fix.
pub fn str_to_fix_quality(s: &str) -> (q: FixQuality)
    ensures
        q == fix_quality_of_name(s@),
{
    if is_name_of(s, FixQuality::Rtk) {
        FixQuality::Rtk
    } else if is_name_of(s, FixQuality::RtkFloat) {
        FixQuality::RtkFloat
    } else if is_name_of(s, FixQuality::Dgps) {
        FixQuality::Dgps
    } else if is_name_of(s, FixQuality::Gps) {
        FixQuality::Gps
    } else {
        FixQuality::NoFix
    }
}

/// Every fix quality reads back as itself from the name it is stored
/// under.
pub proof fn law_fix_quality_name_round_trip(q: FixQuality)
    ensures
        fix_quality_of_name(fix_quality_name(q)) == q,
{
    let n = fix_quality_name(q);
    if q != FixQuality::Rtk {
        assert(n != fix_quality_name(FixQuality::Rtk)) by {
            if n.len() == 3 {
                assert(n[0] != fix_quality_name(FixQuality::Rtk)[0]);
            }
        }
    }
    if q != FixQuality::RtkFloat {
        assert(n.len() != 8);
    }
    if q != FixQuality::Dgps {
        assert(n.len() != 4);
    }
}

// ---------------------------------------------------------------------
// Import of fields and AB lines
// ---------------------------------------------------------------------

/// A saved field (paddock).
#[derive(Debug, Clone)]
pub struct SavedField {
    pub id: i64,
    pub name: String,
    pub created_at: String,
}

/// Result of an import of fields and AB lines.
#[derive(Debug, Clone, Copy, PartialEq, Eq, Structural)]
pub struct ImportStats {
    pub fields_added: u32,
    pub lines_added: u32,
    pub lines_skipped: u32,
}

/// The value of the last entry under `key`, as a map that is filled entry
/// by entry (a later entry overrides an earlier one) answers it.
pub open spec fn lookup_last<K>(entries: Seq<(K, i64)>, key: K) -> Option<i64>
    decreases entries.len(),
{
    if entries.len() == 0 {
        None
    } else if entries.last().0 == key {
        Some(entries.last().1)
    } else {
        lookup_last(entries.drop_last(), key)
    }
}

/// A key just entered answers with its new value; other keys answer as
/// before.
pub proof fn law_lookup_after_entry<K>(entries: Seq<(K, i64)>, key: K, value: i64, other: K)
    ensures
        lookup_last(entries.push((key, value)), key) == Some(value),
        other != key ==> lookup_last(entries.push((key, value)), other) == lookup_last(
            entries,
            other,
        ),
{
    assert(entries.push((key, value)).drop_last() =~= entries);
}

/// Whether two string slices hold the same characters.
fn str_eq(a: &str, b: &str) -> (r: bool)
    ensures
        r == (a@ == b@),
{
    let r = bytes_eq(a.as_bytes(), b.as_bytes());
    proof {
        if r {
            encode_utf8_decode_utf8(a@);
            encode_utf8_decode_utf8(b@);
        }
    }
    r
}

/// The field names and ids of name-keyed entries, as characters.
pub open spec fn name_entries(v: Seq<(String, i64)>) -> Seq<(Seq<char>, i64)> {
    v.map_values(|e: (String, i64)| (e.0@, e.1))
}

/// The id entered last under `name`.
fn find_by_name(entries: &Vec<(String, i64)>, name: &str) -> (r: Option<i64>)
    ensures
        r == lookup_last(name_entries(entries@), name@),
{
    let ghost v = name_entries(entries@);
    let mut i: usize = entries.len();
    assert(v.take(i as int) =~= v);
    while i > 0
        invariant
            i <= entries@.len(),
            v == name_entries(entries@),
            lookup_last(v, name@) == lookup_last(v.take(i as int), name@),
        decreases i,
    {
        let e = &entries[i - 1];
        assert(v.take(i as int).last() == (e.0@, e.1));
        if str_eq(e.0.as_str(), name) {
            return Some(e.1);
        }
        assert(v.take(i as int).drop_last() =~= v.take(i - 1));
        i = i - 1;
    }
    None
}

/// The value entered last under `key`.
fn find_by_id(entries: &Vec<(i64, i64)>, key: i64) -> (r: Option<i64>)
    ensures
        r == lookup_last(entries@, key),
{
    let ghost v = entries@;
    let mut i: usize = entries.len();
    assert(v.take(i as int) =~= v);
    while i > 0
        invariant
            i <= entries@.len(),
            v == entries@,
            lookup_last(v, key) == lookup_last(v.take(i as int), key),
        decreases i,
    {
        let e = entries[i - 1];
        assert(v.take(i as int).last() == e);
        if e.0 == key {
            return Some(e.1);
        }
        assert(v.take(i as int).drop_last() =~= v.take(i - 1));
        i = i - 1;
    }
    None
}

/// Bookkeeping of an import: fields are matched by name, so a field of the
/// bundle whose name is known reuses the local field; the bundle's field
/// ids are mapped to local ids for its AB lines; and the fields created and
/// the lines added or skipped are counted.
pub struct ImportPlan {
    names: Vec<(String, i64)>,
    bundle_ids: Vec<(i64, i64)>,
    fields_added: u32,
    lines_added: u32,
    lines_skipped: u32,
}

impl ImportPlan {
    /// Local fields by name, in the order they were entered.
    pub closed spec fn names(&self) -> Seq<(Seq<char>, i64)> {
        name_entries(self.names@)
    }

    /// Bundle field ids mapped to local ids, in the order they were entered.
    pub closed spec fn ids(&self) -> Seq<(i64, i64)> {
        self.bundle_ids@
    }

    /// The counts so far.
    pub closed spec fn counts(&self) -> ImportStats {
        ImportStats {
            fields_added: self.fields_added,
            lines_added: self.lines_added,
            lines_skipped: self.lines_skipped,
        }
    }

    /// Start an import into a database that already holds `existing`.
    pub fn new(existing: &Vec<SavedField>) -> (p: Self)
        ensures
            p.names() == existing@.map_values(|f: SavedField| (f.name@, f.id)),
            p.ids() == Seq::<(i64, i64)>::empty(),
            p.counts() == (ImportStats { fields_added: 0, lines_added: 0, lines_skipped: 0 }),
    {
        let mut names: Vec<(String, i64)> = Vec::new();
        let mut i: usize = 0;
        while i < existing.len()
            invariant
                i <= existing@.len(),
                name_entries(names@) == existing@.take(i as int).map_values(
                    |f: SavedField| (f.name@, f.id),
                ),
            decreases existing@.len() - i,
        {
            let f = &existing[i];
            let ghost before = names@;
            let copy = f.name.clone();
            assert(copy@ == f.name@);
            names.push((copy, f.id));
            assert(name_entries(names@) =~= name_entries(before).push((f.name@, f.id)));
            assert(existing@.take(i + 1) =~= existing@.take(i as int).push(existing@[i as int]));
            assert(existing@.take(i + 1).map_values(|f: SavedField| (f.name@, f.id))
                =~= existing@.take(i as int).map_values(|f: SavedField| (f.name@, f.id)).push(
                (f.name@, f.id),
            ));
            i = i + 1;
        }
        assert(existing@.take(existing@.len() as int) =~= existing@);
        ImportPlan { names, bundle_ids: Vec::new(), fields_added: 0, lines_added: 0, lines_skipped: 0 }
    }

    /// Match a bundle field by name. When a local field of that name is
    /// known, its id is returned and the bundle id `bundle_id` is mapped to
    /// it; otherwise nothing changes and the field has to be created.
    pub fn plan_field(&mut self, name: &str, bundle_id: i64) -> (r: Option<i64>)
        ensures
            r == lookup_last(old(self).names(), name@),
            final(self).names() == old(self).names(),
            final(self).counts() == old(self).counts(),
            r matches Some(id) ==> final(self).ids() == old(self).ids().push((bundle_id, id)),
            r is None ==> final(self).ids() == old(self).ids(),
    {
        let r = find_by_name(&self.names, name);
        match r {
            Some(id) => {
                self.bundle_ids.push((bundle_id, id));
            },
            None => {},
        }
        r
    }

    /// A field missing locally was created with id `local_id`: it is known
    /// by its name from now on, the bundle id is mapped to it, and it is
    /// counted.
    pub fn field_created(&mut self, name: &str, bundle_id: i64, local_id: i64)
        requires
            old(self).counts().fields_added < u32::MAX,
        ensures
            final(self).names() == old(self).names().push((name@, local_id)),
            final(self).ids() == old(self).ids().push((bundle_id, local_id)),
            final(self).counts() == (ImportStats {
                fields_added: (old(self).counts().fields_added + 1) as u32,
                ..old(self).counts()
            }),
    {
        let owned = name.to_owned();
        self.names.push((owned, local_id));
        assert(name_entries(self.names@) =~= name_entries(old(self).names@).push((name@, local_id)));
        self.bundle_ids.push((bundle_id, local_id));
        self.fields_added = self.fields_added + 1;
    }

    /// The local field an AB line of the bundle belongs to: that of its
    /// bundle field, when it has one that was mapped.
    pub fn local_field_id(&self, bundle_field_id: Option<i64>) -> (r: Option<i64>)
        ensures
            r == (match bundle_field_id {
                Some(b) => lookup_last(self.ids(), b),
                None => None,
            }),
    {
        match bundle_field_id {
            Some(b) => find_by_id(&self.bundle_ids, b),
            None => None,
        }
    }

    /// An AB line of the bundle was handled: skipped as a duplicate when it
    /// `existed`, added otherwise.
    pub fn line_done(&mut self, existed: bool)
        requires
            old(self).counts().lines_added < u32::MAX,
            old(self).counts().lines_skipped < u32::MAX,
        ensures
            final(self).names() == old(self).names(),
            final(self).ids() == old(self).ids(),
            final(self).counts() == (if existed {
                ImportStats {
                    lines_skipped: (old(self).counts().lines_skipped + 1) as u32,
                    ..old(self).counts()
                }
            } else {
                ImportStats {
                    lines_added: (old(self).counts().lines_added + 1) as u32,
                    ..old(self).counts()
                }
            }),
    {
        if existed {
            self.lines_skipped = self.lines_skipped + 1;
        } else {
            self.lines_added = self.lines_added + 1;
        }
    }

    /// The counts of the import.
    pub fn stats(&self) -> (s: ImportStats)
        ensures
            s == self.counts(),
    {
        ImportStats {
            fields_added: self.fields_added,
            lines_added: self.lines_added,
            lines_skipped: self.lines_skipped,
        }
    }
}

// ---------------------------------------------------------------------
// Coverage logger
// ---------------------------------------------------------------------

/// How many points are buffered before they are written as one batch.
pub const WRITE_BUFFER_SIZE: usize = 50;

/// How creating a job in the database went.
#[derive(Debug, Clone, Copy, PartialEq, Eq, Structural)]
pub enum JobStart {
    /// The job was created under this id.
    Created(i64),
    /// There is no database: points are kept in memory only.
    NoDatabase,
    /// The database refused to create the job.
    Failed,
}

/// The totals a job is closed with in the database.
#[derive(Debug, Clone, Copy, PartialEq, Eq, Structural)]
pub struct JobTotals {
    pub job_id: i64,
    pub total_points: u64,
    pub total_segments: u32,
}

/// The integer state of a coverage logger.
#[derive(Debug, Clone, Copy, PartialEq, Eq, Structural)]
pub struct CoverageState {
    /// Whether the implement is engaged (logging active).
    pub engaged: bool,
    /// Current segment number; each engage starts a new one.
    pub segment: u32,
    /// Points logged in the current job.
    pub points: u64,
    /// Points logged in the current segment.
    pub segment_points: u64,
    /// The current job in the database, if one was started.
    pub job: Option<i64>,
    /// Timestamp of the last logged point; 0 before the first point of a
    /// segment.
    pub last_ts: u64,
    /// Minimum time between logged points in milliseconds; 0 for none.
    pub min_interval: u64,
}

/// Milliseconds from `earlier` to `later`, or 0 when `later` is not later.
pub open spec fn elapsed_ms(later: u64, earlier: u64) -> u64 {
    if later >= earlier {
        (later - earlier) as u64
    } else {
        0
    }
}

/// Whether a fix stamped `timestamp_ms` is logged: the implement is
/// engaged, the fix is of a new epoch, and it is neither too soon (time
/// filter) nor too close (`too_close`: the distance filter rejects it)
/// after the last logged point. The last two filters apply only once the
/// segment has a point.
pub open spec fn admits(st: CoverageState, timestamp_ms: u64, too_close: bool) -> bool {
    &&& st.engaged
    &&& !(timestamp_ms == st.last_ts && st.last_ts != 0)
    &&& !(st.min_interval > 0 && st.last_ts > 0 && elapsed_ms(timestamp_ms, st.last_ts)
        < st.min_interval)
    &&& !(too_close && st.last_ts > 0)
}

/// Epoch deduplication: once a fix is logged, another fix of the same
/// epoch is never logged.
pub proof fn law_same_epoch_not_logged(st: CoverageState, too_close: bool)
    requires
        st.last_ts != 0,
    ensures
        !admits(st, st.last_ts, too_close),
{
}

/// Time filter: a fix logged after another in the same segment is at
/// least the minimum interval later.
pub proof fn law_time_filter(st: CoverageState, timestamp_ms: u64, too_close: bool)
    requires
        admits(st, timestamp_ms, too_close),
        st.last_ts > 0,
    ensures
        st.min_interval > 0 ==> timestamp_ms >= st.last_ts + st.min_interval,
        timestamp_ms != st.last_ts,
{
}

/// The first fix of a segment is always logged while engaged: the
/// deduplication state is reset on engage.
pub proof fn law_first_fix_of_segment_logged(
    st: CoverageState,
    timestamp_ms: u64,
    too_close: bool,
)
    requires
        st.engaged,
        st.last_ts == 0,
    ensures
        admits(st, timestamp_ms, too_close),
{
}

/// The bookkeeping of coverage recording, over the database rows `R` and
/// the render points `P` of logged fixes. Fixes of one epoch are logged
/// once; logged points are buffered and written in batches; each engage
/// starts a new segment of the current job.
pub struct CoverageLogger<R, P> {
    engaged: bool,
    current_segment: u32,
    points_logged: u64,
    segment_points: u64,
    render_cache: Vec<P>,
    write_buffer: Vec<R>,
    current_job_id: Option<i64>,
    last_logged_timestamp_ms: u64,
    min_interval_ms: u64,
}

impl<R, P> CoverageLogger<R, P> {
    /// The logger's integer state.
    pub closed spec fn state(&self) -> CoverageState {
        CoverageState {
            engaged: self.engaged,
            segment: self.current_segment,
            points: self.points_logged,
            segment_points: self.segment_points,
            job: self.current_job_id,
            last_ts: self.last_logged_timestamp_ms,
            min_interval: self.min_interval_ms,
        }
    }

    /// Logged points not yet written to the database.
    pub closed spec fn buffer(&self) -> Seq<R> {
        self.write_buffer@
    }

    /// Points shown on the field view.
    pub closed spec fn cache(&self) -> Seq<P> {
        self.render_cache@
    }

    /// A disengaged logger with no job, no points, and the given minimum
    /// time between logged points.
    pub fn new(min_interval_ms: u64) -> (l: Self)
        ensures
            l.state() == (CoverageState {
                engaged: false,
                segment: 0,
                points: 0,
                segment_points: 0,
                job: None,
                last_ts: 0,
                min_interval: min_interval_ms,
            }),
            l.buffer() == Seq::<R>::empty(),
            l.cache() == Seq::<P>::empty(),
    {
        CoverageLogger {
            engaged: false,
            current_segment: 0,
            points_logged: 0,
            segment_points: 0,
            render_cache: Vec::new(),
            write_buffer: Vec::new(),
            current_job_id: None,
            last_logged_timestamp_ms: 0,
            min_interval_ms,
        }
    }

    /// Change the minimum time between logged points.
    pub fn set_min_interval(&mut self, ms: u64)
        ensures
            final(self).state() == (CoverageState { min_interval: ms, ..old(self).state() }),
            final(self).buffer() == old(self).buffer(),
            final(self).cache() == old(self).cache(),
    {
        self.min_interval_ms = ms;
    }

    /// Engage the implement: a new segment starts and its first fix will
    /// be logged. Returns whether a job has to be started for it.
    pub fn engage(&mut self) -> (needs_job: bool)
        requires
            !old(self).state().engaged,
            old(self).state().segment < u32::MAX,
        ensures
            final(self).state() == (CoverageState {
                engaged: true,
                segment: (old(self).state().segment + 1) as u32,
                segment_points: 0,
                last_ts: 0,
                ..old(self).state()
            }),
            needs_job == old(self).state().job is None,
            final(self).buffer() == old(self).buffer(),
            final(self).cache() == old(self).cache(),
    {
        self.engaged = true;
        self.current_segment = self.current_segment + 1;
        self.segment_points = 0;
        self.last_logged_timestamp_ms = 0;
        self.current_job_id.is_none()
    }

    /// Record how starting a job went. A created job, or the lack of a
    /// database, starts the count afresh (segment 0, no points, nothing
    /// shown); a refused job changes nothing.
    pub fn job_started(&mut self, outcome: JobStart)
        ensures
            final(self).buffer() == old(self).buffer(),
            outcome == JobStart::Failed ==> final(self).state() == old(self).state()
                && final(self).cache() == old(self).cache(),
            outcome != JobStart::Failed ==> final(self).cache() == Seq::<P>::empty()
                && final(self).state() == (CoverageState {
                job: (match outcome {
                    JobStart::Created(id) => Some(id),
                    _ => old(self).state().job,
                }),
                points: 0,
                segment: 0,
                ..old(self).state()
            }),
    {
        match outcome {
            JobStart::Created(id) => {
                self.current_job_id = Some(id);
                self.points_logged = 0;
                self.current_segment = 0;
                self.render_cache.clear();
            },
            JobStart::NoDatabase => {
                self.points_logged = 0;
                self.current_segment = 0;
                self.render_cache.clear();
            },
            JobStart::Failed => {},
        }
    }

    /// Disengage the implement; the job stays open for the next engage.
    pub fn disengage(&mut self)
        ensures
            final(self).state() == (CoverageState { engaged: false, ..old(self).state() }),
            final(self).buffer() == old(self).buffer(),
            final(self).cache() == old(self).cache(),
    {
        self.engaged = false;
    }

    /// Offer a fix stamped `timestamp_ms`, whose database row is `row` and
    /// render point `point`; `too_close` says whether the distance filter
    /// rejects it. Returns whether it was logged: buffered, shown, counted,
    /// and taken as the last logged point.
    pub fn log_fix(&mut self, timestamp_ms: u64, too_close: bool, row: R, point: P) -> (logged: bool)
        requires
            admits(old(self).state(), timestamp_ms, too_close) ==> old(self).state().points
                < u64::MAX && old(self).state().segment_points < u64::MAX,
        ensures
            logged == admits(old(self).state(), timestamp_ms, too_close),
            logged ==> final(self).state() == (CoverageState {
                points: (old(self).state().points + 1) as u64,
                segment_points: (old(self).state().segment_points + 1) as u64,
                last_ts: timestamp_ms,
                ..old(self).state()
            }) && final(self).buffer() == old(self).buffer().push(row) && final(self).cache()
                == old(self).cache().push(point),
            !logged ==> final(self).state() == old(self).state() && final(self).buffer() == old(
                self,
            ).buffer() && final(self).cache() == old(self).cache(),
    {
        if !self.engaged {
            return false;
        }
        if timestamp_ms == self.last_logged_timestamp_ms && self.last_logged_timestamp_ms != 0 {
            return false;
        }
        if self.min_interval_ms > 0 && self.last_logged_timestamp_ms > 0 {
            let elapsed = timestamp_ms.saturating_sub(self.last_logged_timestamp_ms);
            if elapsed < self.min_interval_ms {
                return false;
            }
        }
        if too_close && self.last_logged_timestamp_ms > 0 {
            return false;
        }
        self.render_cache.push(point);
        self.write_buffer.push(row);
        self.last_logged_timestamp_ms = timestamp_ms;
        self.points_logged = self.points_logged + 1;
        self.segment_points = self.segment_points + 1;
        true
    }

    /// Whether enough points are buffered to write a batch.
    pub fn flush_due(&self) -> (r: bool)
        ensures
            r == (self.buffer().len() >= WRITE_BUFFER_SIZE),
    {
        self.write_buffer.len() >= WRITE_BUFFER_SIZE
    }

    /// The buffered points, to be written as one batch.
    pub fn pending(&self) -> (r: &Vec<R>)
        ensures
            r@ == self.buffer(),
    {
        &self.write_buffer
    }

    /// A batch write finished: the buffer is emptied unless the write
    /// failed, in which case it is kept for a retry.
    pub fn flush_finished(&mut self, write_failed: bool)
        ensures
            final(self).state() == old(self).state(),
            final(self).cache() == old(self).cache(),
            final(self).buffer() == (if write_failed {
                old(self).buffer()
            } else {
                Seq::<R>::empty()
            }),
    {
        if !write_failed {
            self.write_buffer.clear();
        }
    }

    /// End the current job: the implement is disengaged and the job
    /// closed. Returns the totals to close it with in the database, if
    /// there was a job.
    pub fn end_job(&mut self) -> (r: Option<JobTotals>)
        ensures
            final(self).state() == (CoverageState {
                engaged: false,
                job: None,
                ..old(self).state()
            }),
            final(self).buffer() == old(self).buffer(),
            final(self).cache() == old(self).cache(),
            r == (match old(self).state().job {
                Some(id) => Some(
                    JobTotals {
                        job_id: id,
                        total_points: old(self).state().points,
                        total_segments: old(self).state().segment,
                    },
                ),
                None => None,
            }),
    {
        self.engaged = false;
        let r = match self.current_job_id {
            Some(id) => Some(
                JobTotals {
                    job_id: id,
                    total_points: self.points_logged,
                    total_segments: self.current_segment,
                },
            ),
            None => None,
        };
        self.current_job_id = None;
        r
    }

    /// Clear what is shown and end the current job, so the next engage
    /// starts afresh; the database keeps its points. Returns the totals
    /// to close the job with, if there was one.
    pub fn clear_coverage(&mut self) -> (r: Option<JobTotals>)
        ensures
            final(self).state() == (CoverageState {
                engaged: false,
                job: None,
                points: 0,
                segment: 0,
                segment_points: 0,
                last_ts: 0,
                ..old(self).state()
            }),
            final(self).buffer() == old(self).buffer(),
            final(self).cache() == Seq::<P>::empty(),
            r == (match old(self).state().job {
                Some(id) => Some(
                    JobTotals {
                        job_id: id,
                        total_points: old(self).state().points,
                        total_segments: old(self).state().segment,
                    },
                ),
                None => None,
            }),
    {
        let r = self.end_job();
        self.render_cache.clear();
        self.points_logged = 0;
        self.current_segment = 0;
        self.segment_points = 0;
        self.last_logged_timestamp_ms = 0;
        r
    }

    /// Show the points of a previously recorded job instead.
    pub fn replace_points(&mut self, points: Vec<P>)
        ensures
            final(self).state() == old(self).state(),
            final(self).buffer() == old(self).buffer(),
            final(self).cache() == points@,
    {
        self.render_cache = points;
    }

    /// The points shown on the field view.
    pub fn points(&self) -> (r: &Vec<P>)
        ensures
            r@ == self.cache(),
    {
        &self.render_cache
    }

    /// Whether the implement is engaged.
    pub fn is_engaged(&self) -> (r: bool)
        ensures
            r == self.state().engaged,
    {
        self.engaged
    }

    /// The current job, if one was started.
    pub fn current_job_id(&self) -> (r: Option<i64>)
        ensures
            r == self.state().job,
    {
        self.current_job_id
    }

    /// Points logged in the current job.
    pub fn total_points(&self) -> (r: u64)
        ensures
            r == self.state().points,
    {
        self.points_logged
    }

    /// Points logged in the current segment.
    pub fn segment_points(&self) -> (r: u64)
        ensures
            r == self.state().segment_points,
    {
        self.segment_points
    }

    /// The current segment number.
    pub fn segment(&self) -> (r: u32)
        ensures
            r == self.state().segment,
    {
        self.current_segment
    }

    /// The minimum time between logged points.
    pub fn min_interval(&self) -> (r: u64)
        ensures
            r == self.state().min_interval,
    {
        self.min_interval_ms
    }
}

/// Distance filter: once the segment has a logged point, a fix that the
/// distance filter rejects is never logged, whatever the time filter is
/// (none included); and while engaged, a fix of a new epoch that neither
/// filter rejects is always logged.
pub proof fn law_distance_filter(st: CoverageState, timestamp_ms: u64, too_close: bool)
    ensures
        st.last_ts > 0 && too_close ==> !admits(st, timestamp_ms, too_close),
        st.engaged && st.min_interval == 0 && !too_close && timestamp_ms != st.last_ts ==> admits(
            st,
            timestamp_ms,
            too_close,
        ),
{
}

} // verus!
