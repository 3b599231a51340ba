//! Wall-clock times as the app prints them: report file names, the report
//! heading, live utterance stamps, and elapsed-time stamps for uploads.
//!
//! The fields follow chrono's `%Y %m %d %H %M %S` conversions: `%Y` is
//! zero-padded to four digits for years 0..=9999 and carries a sign
//! otherwise; the others are zero-padded to two digits.
use vstd::prelude::*;
use crate::text::{dec, pad, pad2, push_char, push_dec, push_padded, push_str};

verus! {

/// A local date and time, broken into the fields the app prints.
#[derive(Clone, Copy, Debug, PartialEq, Eq, Structural)]
pub struct SessionTime {
    pub year: i32,
    pub month: u32,
    pub day: u32,
    pub hour: u32,
    pub minute: u32,
    /// 0..=59, or 60 during a leap second.
    pub second: u32,
}

impl SessionTime {
    /// The field ranges of a calendar date and time of day.
    pub open spec fn wf(&self) -> bool {
        &&& 1 <= self.month <= 12
        &&& 1 <= self.day <= 31
        &&& self.hour <= 23
        &&& self.minute <= 59
        &&& self.second <= 60
    }
}

/// chrono's `%Y`.
pub open spec fn year_text(y: int) -> Seq<char> {
    if 0 <= y <= 9999 {
        pad(y as nat, 4)
    } else if y > 9999 {
        seq!['+'] + dec(y as nat)
    } else {
        seq!['-'] + pad((-y) as nat, 4)
    }
}

/// `%Y-%m-%d_%H-%M-%S`, the stem of a session's file names.
pub open spec fn base_name(t: SessionTime) -> Seq<char> {
    year_text(t.year as int) + seq!['-'] + pad2(t.month as nat) + seq!['-'] + pad2(t.day as nat)
        + seq!['_'] + pad2(t.hour as nat) + seq!['-'] + pad2(t.minute as nat) + seq!['-'] + pad2(
        t.second as nat,
    )
}

/// `%Y년 %m월 %d일 %H:%M`, the date in the report heading.
pub open spec fn heading_date(t: SessionTime) -> Seq<char> {
    year_text(t.year as int) + "년 "@ + pad2(t.month as nat) + "월 "@ + pad2(t.day as nat) + "일 "@
        + pad2(t.hour as nat) + seq![':'] + pad2(t.minute as nat)
}

/// `%H:%M:%S`, the stamp of a live utterance.
pub open spec fn clock_text(t: SessionTime) -> Seq<char> {
    pad2(t.hour as nat) + seq![':'] + pad2(t.minute as nat) + seq![':'] + pad2(t.second as nat)
}

/// `{:02}:{:02}` of whole minutes and the remaining seconds.
pub open spec fn offset_text(secs: nat) -> Seq<char> {
    pad2(secs / 60) + seq![':'] + pad2(secs % 60)
}

/// Appends chrono's `%Y`.
pub fn push_year(out: &mut String, y: i32)
    ensures
        final(out)@ == old(out)@ + year_text(y as int),
{
    if 0 <= y && y <= 9999 {
        push_padded(out, y as u64, 4);
    } else if y > 9999 {
        push_char(out, '+');
        push_dec(out, y as u64);
        assert(final(out)@ =~= old(out)@ + year_text(y as int));
    } else {
        push_char(out, '-');
        let a: u64 = (-(y as i64)) as u64;
        push_padded(out, a, 4);
        assert(final(out)@ =~= old(out)@ + year_text(y as int));
    }
}

/// The stem shared by a session's report, transcript and sidecar files.
pub fn session_base_name(t: &SessionTime) -> (r: String)
    requires
        t.wf(),
    ensures
        r@ == base_name(*t),
{
    let mut s = String::new();
    push_year(&mut s, t.year);
    push_char(&mut s, '-');
    push_padded(&mut s, t.month as u64, 2);
    push_char(&mut s, '-');
    push_padded(&mut s, t.day as u64, 2);
    push_char(&mut s, '_');
    push_padded(&mut s, t.hour as u64, 2);
    push_char(&mut s, '-');
    push_padded(&mut s, t.minute as u64, 2);
    push_char(&mut s, '-');
    push_padded(&mut s, t.second as u64, 2);
    assert(s@ =~= base_name(*t));
    s
}

/// Appends the report heading's date.
pub fn push_heading_date(out: &mut String, t: &SessionTime)
    requires
        t.wf(),
    ensures
        final(out)@ == old(out)@ + heading_date(*t),
{
    let ghost start = out@;
    push_year(out, t.year);
    push_str(out, "년 ");
    push_padded(out, t.month as u64, 2);
    push_str(out, "월 ");
    push_padded(out, t.day as u64, 2);
    push_str(out, "일 ");
    push_padded(out, t.hour as u64, 2);
    push_char(out, ':');
    push_padded(out, t.minute as u64, 2);
    assert(out@ =~= start + heading_date(*t));
}

/// The `%H:%M:%S` stamp given to an utterance captured live.
pub fn clock_timestamp(t: &SessionTime) -> (r: String)
    requires
        t.wf(),
    ensures
        r@ == clock_text(*t),
{
    let mut s = String::new();
    push_padded(&mut s, t.hour as u64, 2);
    push_char(&mut s, ':');
    push_padded(&mut s, t.minute as u64, 2);
    push_char(&mut s, ':');
    push_padded(&mut s, t.second as u64, 2);
    assert(s@ =~= clock_text(*t));
    s
}

/// The `mm:ss` stamp of an utterance `total_secs` seconds into an uploaded
/// file (minutes are not capped at 59).
pub fn format_offset_timestamp(total_secs: u64) -> (r: String)
    ensures
        r@ == offset_text(total_secs as nat),
{
    let mut s = String::new();
    push_padded(&mut s, total_secs / 60, 2);
    push_char(&mut s, ':');
    push_padded(&mut s, total_secs % 60, 2);
    assert(s@ =~= offset_text(total_secs as nat));
    s
}

} // verus!
