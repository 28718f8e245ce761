//! Routing and field extraction for the sentences the GPS module sends:
//! standard NMEA (GGA for position, VTG for course and speed) and Quectel's
//! proprietary `$PQTMINS` (dead-reckoning attitude) and `$PQTMDRCAL`
//! (dead-reckoning calibration state).

use vstd::prelude::*;
use vstd::string::*;
use crate::digits::{parse_unsigned, parse_unsigned_range};
use crate::protocol::{COMMA, STAR};
use crate::text::{
    bytes_eq, contains_seq, find_byte, find_byte_in, find_seq_in, split_bytes, split_in,
    starts_with, starts_with_in, views,
};
use crate::types::{DrCalState, FixQuality};

verus! {

/// Which handler a GPS sentence goes to.
#[derive(Debug, Clone, Copy, PartialEq, Eq, Structural)]
pub enum SentenceKind {
    /// `$PQTMINS`: dead-reckoning attitude, velocity and heading.
    Ins,
    /// `$PQTMDRCAL`: dead-reckoning calibration state.
    DrCal,
    /// A VTG sentence: course and speed over ground.
    Vtg,
    /// A GGA sentence: a position fix, one per epoch.
    Gga,
    /// Any other sentence.
    Other,
}

/// `$PQTMINS`
pub open spec fn ins_tag() -> Seq<u8> {
    seq!['$' as u8, 'P' as u8, 'Q' as u8, 'T' as u8, 'M' as u8, 'I' as u8, 'N' as u8, 'S' as u8]
}

/// `$PQTMDRCAL`
pub open spec fn drcal_tag() -> Seq<u8> {
    seq!['$' as u8, 'P' as u8, 'Q' as u8, 'T' as u8, 'M' as u8, 'D' as u8, 'R' as u8, 'C' as u8, 'A' as u8, 'L' as u8]
}

/// `VTG`
pub open spec fn vtg_text() -> Seq<u8> {
    seq!['V' as u8, 'T' as u8, 'G' as u8]
}

/// `GGA`
pub open spec fn gga_text() -> Seq<u8> {
    seq!['G' as u8, 'G' as u8, 'A' as u8]
}

/// Routing of a sentence, checked in this order: `$PQTMINS` prefix,
/// `$PQTMDRCAL` prefix, `VTG` anywhere, `GGA` anywhere.
pub open spec fn sentence_kind(s: Seq<u8>) -> SentenceKind {
    if starts_with(s, ins_tag()) {
        SentenceKind::Ins
    } else if starts_with(s, drcal_tag()) {
        SentenceKind::DrCal
    } else if contains_seq(s, vtg_text()) {
        SentenceKind::Vtg
    } else if contains_seq(s, gga_text()) {
        SentenceKind::Gga
    } else {
        SentenceKind::Other
    }
}

/// Decides which handler a GPS sentence goes to.
pub fn classify_sentence(sentence: &str) -> (k: SentenceKind)
    ensures
        k == sentence_kind(sentence.spec_bytes()),
{
    let s = sentence.as_bytes();
    assert(s@.subrange(0, s@.len() as int) =~= s@);
    let ins: Vec<u8> = vec!['$' as u8, 'P' as u8, 'Q' as u8, 'T' as u8, 'M' as u8, 'I' as u8, 'N' as u8, 'S' as u8];
    let drcal: Vec<u8> = vec!['$' as u8, 'P' as u8, 'Q' as u8, 'T' as u8, 'M' as u8, 'D' as u8, 'R' as u8, 'C' as u8, 'A' as u8, 'L' as u8];
    let vtg: Vec<u8> = vec!['V' as u8, 'T' as u8, 'G' as u8];
    let gga: Vec<u8> = vec!['G' as u8, 'G' as u8, 'A' as u8];
    assert(ins@ == ins_tag());
    assert(drcal@ == drcal_tag());
    assert(vtg@ == vtg_text());
    assert(gga@ == gga_text());
    if starts_with_in(s, 0, s.len(), ins.as_slice()) {
        SentenceKind::Ins
    } else if starts_with_in(s, 0, s.len(), drcal.as_slice()) {
        SentenceKind::DrCal
    } else if find_seq_in(s, 0, s.len(), vtg.as_slice()).is_some() {
        SentenceKind::Vtg
    } else if find_seq_in(s, 0, s.len(), gga.as_slice()).is_some() {
        SentenceKind::Gga
    } else {
        SentenceKind::Other
    }
}

/// A proprietary sentence without its checksum: the text before the first
/// `*`, or all of it when there is none.
pub open spec fn pqtm_body(s: Seq<u8>) -> Seq<u8> {
    match find_byte(s, STAR) {
        Some(i) => s.take(i as int),
        None => s,
    }
}

/// The comma-separated fields of a proprietary sentence, checksum removed.
pub fn pqtm_fields(sentence: &str) -> (parts: Vec<Vec<u8>>)
    ensures
        views(parts@) == split_bytes(pqtm_body(sentence.spec_bytes()), COMMA),
{
    let s = sentence.as_bytes();
    assert(s@.subrange(0, s@.len() as int) =~= s@);
    let end = match find_byte_in(s, 0, s.len(), STAR) {
        Some(i) => i,
        None => s.len(),
    };
    proof {
        if end < s@.len() {
            assert(s@.take(end as int) =~= s@.subrange(0, end as int));
        }
    }
    split_in(s, 0, end, COMMA)
}

/// The comma-separated fields of a whole sentence (as a VTG sentence is read).
pub fn sentence_fields(sentence: &str) -> (parts: Vec<Vec<u8>>)
    ensures
        views(parts@) == split_bytes(sentence.spec_bytes(), COMMA),
{
    let s = sentence.as_bytes();
    assert(s@.subrange(0, s@.len() as int) =~= s@);
    split_in(s, 0, s.len(), COMMA)
}

/// The calibration state named by a `$PQTMDRCAL,<MsgVer>,<CalState>` sentence:
/// state `0`, `1` or `2` in the third field; `None` for fewer fields or any
/// other state text.
pub open spec fn drcal_state_spec(s: Seq<u8>) -> Option<DrCalState> {
    let p = split_bytes(pqtm_body(s), COMMA);
    if p.len() < 3 {
        None
    } else if p[2] == seq!['0' as u8] {
        Some(DrCalState::Uncalibrated)
    } else if p[2] == seq!['1' as u8] {
        Some(DrCalState::Calibrating)
    } else if p[2] == seq!['2' as u8] {
        Some(DrCalState::Calibrated)
    } else {
        None
    }
}

/// Reads the dead-reckoning calibration state from a `$PQTMDRCAL` sentence.
pub fn parse_pqtmdrcal(sentence: &str) -> (r: Option<DrCalState>)
    ensures
        r == drcal_state_spec(sentence.spec_bytes()),
{
    let parts = pqtm_fields(sentence);
    if parts.len() < 3 {
        return None;
    }
    let f = parts[2].as_slice();
    assert(f@ == views(parts@)[2]);
    let zero: Vec<u8> = vec!['0' as u8];
    let one: Vec<u8> = vec!['1' as u8];
    let two: Vec<u8> = vec!['2' as u8];
    assert(zero@ == seq!['0' as u8]);
    assert(one@ == seq!['1' as u8]);
    assert(two@ == seq!['2' as u8]);
    if bytes_eq(f, zero.as_slice()) {
        Some(DrCalState::Uncalibrated)
    } else if bytes_eq(f, one.as_slice()) {
        Some(DrCalState::Calibrating)
    } else if bytes_eq(f, two.as_slice()) {
        Some(DrCalState::Calibrated)
    } else {
        None
    }
}

/// The solution type field of a `$PQTMINS` sentence read as `u8`, or 0 when
/// it does not parse.
pub fn pqtmins_sol_type(field: &[u8]) -> (t: u8)
    ensures
        t as nat == match parse_unsigned(field@, 10, 255) {
            Some(v) => v,
            None => 0,
        },
{
    assert(field@.subrange(0, field@.len() as int) =~= field@);
    match parse_unsigned_range(field, 0, field.len(), 10, 255) {
        Some(v) => v as u8,
        None => 0,
    }
}

/// A `$PQTMINS` heading is usable once the solution type is at least 1
/// (GNSS, attitude and relative heading ready).
pub fn ins_heading_usable(sol_type: u8) -> (r: bool)
    ensures
        r == (sol_type >= 1),
{
    sol_type >= 1
}

/// The GGA fix indicator, as the NMEA decoder reports it.
#[derive(Debug, Clone, Copy, PartialEq, Eq, Structural)]
pub enum GgaFixType {
    Invalid,
    Gps,
    DGps,
    /// Precise Positioning Service.
    Pps,
    Rtk,
    FloatRtk,
    Estimated,
    Manual,
    Simulation,
}

/// The fix quality of a GGA fix indicator: no indicator or an invalid fix
/// is no fix; GPS, DGPS, RTK fixed and RTK float map to their own quality;
/// any other indicator counts as a plain GPS fix.
pub open spec fn fix_quality_spec(t: Option<GgaFixType>) -> FixQuality {
    match t {
        None => FixQuality::NoFix,
        Some(GgaFixType::Invalid) => FixQuality::NoFix,
        Some(GgaFixType::Gps) => FixQuality::Gps,
        Some(GgaFixType::DGps) => FixQuality::Dgps,
        Some(GgaFixType::Rtk) => FixQuality::Rtk,
        Some(GgaFixType::FloatRtk) => FixQuality::RtkFloat,
        Some(_) => FixQuality::Gps,
    }
}

/// The fix quality of a GGA fix indicator.
pub fn fix_quality_of(t: Option<GgaFixType>) -> (q: FixQuality)
    ensures
        q == fix_quality_spec(t),
{
    match t {
        None => FixQuality::NoFix,
        Some(GgaFixType::Invalid) => FixQuality::NoFix,
        Some(GgaFixType::Gps) => FixQuality::Gps,
        Some(GgaFixType::DGps) => FixQuality::Dgps,
        Some(GgaFixType::Rtk) => FixQuality::Rtk,
        Some(GgaFixType::FloatRtk) => FixQuality::RtkFloat,
        Some(_) => FixQuality::Gps,
    }
}

/// Only `$PQTMINS` sentences go to the dead-reckoning attitude handler and
/// only `$PQTMDRCAL` sentences to the calibration handler: other `$PQTM`
/// sentences (such as `$PQTMIMU`) are routed to neither.
pub proof fn law_pqtm_routing(s: Seq<u8>)
    ensures
        sentence_kind(s) == SentenceKind::Ins <==> starts_with(s, ins_tag()),
        sentence_kind(s) == SentenceKind::DrCal <==> starts_with(s, drcal_tag()),
{
    if starts_with(s, drcal_tag()) {
        assert(s[5] == drcal_tag()[5]);
        assert(!starts_with(s, ins_tag())) by {
            if starts_with(s, ins_tag()) {
                assert(s[5] == ins_tag()[5]);
            }
        }
    }
}

} // verus!
