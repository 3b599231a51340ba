//! Display titles of saved sessions.  A report saved at 14:30:45 on
//! 2025-01-20 is named `2025-01-20_14-30-45.md` and listed as
//! `Jan 20, 2:30 PM`; a file name that does not have that shape is shown
//! as it is.
use vstd::prelude::*;
use crate::text::{
    chars_of, dec, lemma_dec_digits, lemma_digits_exclude,
    lemma_pad_parses, lemma_split_concat, lemma_split_no_sep, pad, pad2, parse_u32, parse_unsigned,
    push_char, push_dec, push_padded, push_str, split, split_chars, vec_range, views,
};
use crate::clock::{base_name, year_text, SessionTime};

verus! {

/// English month abbreviation of month `m` (1..=12).
pub open spec fn month_abbr(m: nat) -> Seq<char> {
    if m == 1 {
        "Jan"@
    } else if m == 2 {
        "Feb"@
    } else if m == 3 {
        "Mar"@
    } else if m == 4 {
        "Apr"@
    } else if m == 5 {
        "May"@
    } else if m == 6 {
        "Jun"@
    } else if m == 7 {
        "Jul"@
    } else if m == 8 {
        "Aug"@
    } else if m == 9 {
        "Sep"@
    } else if m == 10 {
        "Oct"@
    } else if m == 11 {
        "Nov"@
    } else {
        "Dec"@
    }
}

/// The month names, in calendar order: month `m` is shown as the `m`-th of
/// Jan, Feb, Mar, Apr, May, Jun, Jul, Aug, Sep, Oct, Nov, Dec, so that
/// different months always get different names.
pub proof fn lemma_month_names(m: nat, n: nat)
    requires
        1 <= m <= 12,
        1 <= n <= 12,
    ensures
        month_abbr(m) == seq![
            "Jan"@, "Feb"@, "Mar"@, "Apr"@, "May"@, "Jun"@,
            "Jul"@, "Aug"@, "Sep"@, "Oct"@, "Nov"@, "Dec"@,
        ][m - 1],
        m != n ==> month_abbr(m) != month_abbr(n),
{
    reveal_strlit("Jan");
    reveal_strlit("Feb");
    reveal_strlit("Mar");
    reveal_strlit("Apr");
    reveal_strlit("May");
    reveal_strlit("Jun");
    reveal_strlit("Jul");
    reveal_strlit("Aug");
    reveal_strlit("Sep");
    reveal_strlit("Oct");
    reveal_strlit("Nov");
    reveal_strlit("Dec");
    if m != n && month_abbr(m) == month_abbr(n) {
        assert(month_abbr(m)[0] == month_abbr(n)[0]);
        assert(month_abbr(m)[1] == month_abbr(n)[1]);
        assert(month_abbr(m)[2] == month_abbr(n)[2]);
    }
}

/// The hour on a 12-hour clock.
pub open spec fn hour12(h: nat) -> nat {
    if h % 12 == 0 {
        12
    } else {
        h % 12
    }
}

/// `AM` before noon, `PM` from noon on.
pub open spec fn am_pm(h: nat) -> Seq<char> {
    if h < 12 {
        "AM"@
    } else {
        "PM"@
    }
}

/// `{month} {day}, {hour12}:{minute:02} {AM|PM}`.
pub open spec fn title_text(m: nat, d: nat, h: nat, mi: nat) -> Seq<char> {
    month_abbr(m) + seq![' '] + dec(d) + seq![',', ' '] + dec(hour12(h)) + seq![':'] + pad2(mi)
        + seq![' '] + am_pm(h)
}

/// The title read from a `YYYY-MM-DD_HH-MM-SS.md` file name: the name
/// without `.md` must split on `_` into a date and a time, each splitting
/// on `-` into three fields; month, day, hour and minute must parse as
/// unsigned numbers (the month as `usize`, the others as `u32`) and the
/// month must be 1..=12.
pub open spec fn stamp_title(f: Seq<char>) -> Option<Seq<char>> {
    if f.len() >= 3 && f.skip(f.len() - 3) == seq!['.', 'm', 'd'] {
        let parts = split(f.take(f.len() - 3), '_');
        if parts.len() == 2 {
            let dp = split(parts[0], '-');
            let tp = split(parts[1], '-');
            if dp.len() == 3 && tp.len() == 3 {
                let m = parse_unsigned(dp[1], usize::MAX as nat);
                let d = parse_unsigned(dp[2], u32::MAX as nat);
                let h = parse_unsigned(tp[0], u32::MAX as nat);
                let mi = parse_unsigned(tp[1], u32::MAX as nat);
                if m is Some && d is Some && h is Some && mi is Some && 1 <= m->0 <= 12 {
                    Some(title_text(m->0, d->0, h->0, mi->0))
                } else {
                    None
                }
            } else {
                None
            }
        } else {
            None
        }
    } else {
        None
    }
}

/// The title shown for a report file name.
pub open spec fn session_title(f: Seq<char>) -> Seq<char> {
    match stamp_title(f) {
        Some(t) => t,
        None => f,
    }
}

fn push_month_abbr(out: &mut String, m: u32)
    requires
        1 <= m <= 12,
    ensures
        final(out)@ == old(out)@ + month_abbr(m as nat),
{
    let a = if m == 1 {
        "Jan"
    } else if m == 2 {
        "Feb"
    } else if m == 3 {
        "Mar"
    } else if m == 4 {
        "Apr"
    } else if m == 5 {
        "May"
    } else if m == 6 {
        "Jun"
    } else if m == 7 {
        "Jul"
    } else if m == 8 {
        "Aug"
    } else if m == 9 {
        "Sep"
    } else if m == 10 {
        "Oct"
    } else if m == 11 {
        "Nov"
    } else {
        "Dec"
    };
    push_str(out, a);
}

fn render_title(m: u32, d: u32, h: u32, mi: u32) -> (r: String)
    requires
        1 <= m <= 12,
    ensures
        r@ == title_text(m as nat, d as nat, h as nat, mi as nat),
{
    let mut s = String::new();
    push_month_abbr(&mut s, m);
    push_char(&mut s, ' ');
    push_dec(&mut s, d as u64);
    push_char(&mut s, ',');
    push_char(&mut s, ' ');
    let h12: u32 = if h % 12 == 0 {
        12
    } else {
        h % 12
    };
    push_dec(&mut s, h12 as u64);
    push_char(&mut s, ':');
    push_padded(&mut s, mi as u64, 2);
    push_char(&mut s, ' ');
    if h < 12 {
        push_str(&mut s, "AM");
    } else {
        push_str(&mut s, "PM");
    }
    assert(s@ =~= title_text(m as nat, d as nat, h as nat, mi as nat));
    s
}

/// The title of a `YYYY-MM-DD_HH-MM-SS.md` file name, if it has that shape.
fn stamp_title_of(filename: &str) -> (r: Option<String>)
    ensures
        r matches Some(t) ==> stamp_title(filename@) == Some(t@),
        r is None ==> stamp_title(filename@) is None,
{
    let v = chars_of(filename);
    let n = v.len();
    if n < 3 || v[n - 3] != '.' || v[n - 2] != 'm' || v[n - 1] != 'd' {
        proof {
            if n >= 3 && v@.skip(n - 3) == seq!['.', 'm', 'd'] {
                assert(v@.skip(n - 3)[0] == v@[n - 3]);
                assert(v@.skip(n - 3)[1] == v@[n - 2]);
                assert(v@.skip(n - 3)[2] == v@[n - 1]);
            }
        }
        return None;
    }
    assert(v@.skip(n - 3) =~= seq!['.', 'm', 'd']);
    let stem = vec_range(&v, 0, n - 3);
    assert(stem@ =~= v@.take(n - 3));
    let parts = split_chars(&stem, '_');
    if parts.len() != 2 {
        return None;
    }
    assert(views(parts@)[0] == parts@[0]@);
    assert(views(parts@)[1] == parts@[1]@);
    let dp = split_chars(&parts[0], '-');
    let tp = split_chars(&parts[1], '-');
    if dp.len() != 3 || tp.len() != 3 {
        return None;
    }
    assert(views(dp@)[1] == dp@[1]@);
    assert(views(dp@)[2] == dp@[2]@);
    assert(views(tp@)[0] == tp@[0]@);
    assert(views(tp@)[1] == tp@[1]@);
    let m = parse_u32(&dp[1]);
    let d = parse_u32(&dp[2]);
    let h = parse_u32(&tp[0]);
    let mi = parse_u32(&tp[1]);
    match (m, d, h, mi) {
        (Some(m), Some(d), Some(h), Some(mi)) => {
            if 1 <= m && m <= 12 {
                Some(render_title(m, d, h, mi))
            } else {
                None
            }
        },
        _ => None,
    }
}

/// The title shown for a session's report file: the time encoded in a
/// `YYYY-MM-DD_HH-MM-SS.md` name (`Jan 20, 2:30 PM`), or the name itself.
pub fn format_session_title(filename: &str) -> (r: String)
    ensures
        r@ == session_title(filename@),
{
    match stamp_title_of(filename) {
        Some(t) => t,
        None => filename.to_owned(),
    }
}

/// `a + b` contains `c` only if `a` or `b` does.
proof fn lemma_concat_excludes(a: Seq<char>, b: Seq<char>, c: char)
    requires
        !a.contains(c),
        !b.contains(c),
    ensures
        !(a + b).contains(c),
{
    if (a + b).contains(c) {
        let k = choose|k: int| 0 <= k < (a + b).len() && (a + b)[k] == c;
        if k < a.len() {
            assert(a[k] == c);
        } else {
            assert(b[k - a.len()] == c);
        }
    }
}

/// A two-digit field contains neither separator and parses back.
proof fn lemma_field(n: nat, max: nat)
    requires
        n <= max,
    ensures
        !pad2(n).contains('-'),
        !pad2(n).contains('_'),
        parse_unsigned(pad2(n), max) == Some(n),
{
    lemma_pad_parses(n, 2, max);
    lemma_digits_exclude(pad2(n), '-');
    lemma_digits_exclude(pad2(n), '_');
}

/// A year from 0 on is written without `-` or `_`.
proof fn lemma_year_field(y: int)
    requires
        y >= 0,
    ensures
        !year_text(y).contains('-'),
        !year_text(y).contains('_'),
{
    if y <= 9999 {
        lemma_pad_parses(y as nat, 4, y as nat);
        lemma_digits_exclude(pad(y as nat, 4), '-');
        lemma_digits_exclude(pad(y as nat, 4), '_');
    } else {
        lemma_dec_digits(y as nat);
        lemma_digits_exclude(dec(y as nat), '-');
        lemma_digits_exclude(dec(y as nat), '_');
        assert(!seq!['+'].contains('-')) by {
            if seq!['+'].contains('-') {
                assert(seq!['+'][0] == '+');
            }
        }
        assert(!seq!['+'].contains('_')) by {
            if seq!['+'].contains('_') {
                assert(seq!['+'][0] == '+');
            }
        }
        lemma_concat_excludes(seq!['+'], dec(y as nat), '-');
        lemma_concat_excludes(seq!['+'], dec(y as nat), '_');
    }
}

/// `x - y - z` splits on `-` into its three fields.
proof fn lemma_three_fields(x: Seq<char>, y: Seq<char>, z: Seq<char>)
    requires
        !x.contains('-'),
        !y.contains('-'),
        !z.contains('-'),
    ensures
        split(x + seq!['-'] + y + seq!['-'] + z, '-') == seq![x, y, z],
        !(x + seq!['-'] + y + seq!['-'] + z).contains('_') <== (!x.contains('_') && !y.contains('_')
            && !z.contains('_')),
{
    let yz = y + seq!['-'] + z;
    assert(x + seq!['-'] + y + seq!['-'] + z =~= x + seq!['-'] + yz);
    lemma_split_concat(x, '-', yz);
    lemma_split_concat(y, '-', z);
    lemma_split_no_sep(x, '-');
    lemma_split_no_sep(y, '-');
    lemma_split_no_sep(z, '-');
    assert(seq![x] + (seq![y] + seq![z]) =~= seq![x, y, z]);
    if !x.contains('_') && !y.contains('_') && !z.contains('_') {
        let d = seq!['-'];
        assert(!d.contains('_')) by {
            if d.contains('_') {
                assert(d[0] == '-');
            }
        }
        lemma_concat_excludes(x, d, '_');
        lemma_concat_excludes(x + d, y, '_');
        lemma_concat_excludes(x + d + y, d, '_');
        lemma_concat_excludes(x + d + y + d, z, '_');
    }
}

/// A report saved at time `t` is listed under the title that shows `t`:
/// the file name `base_name(t).md` reads back as
/// `{month} {day}, {hour12}:{minute:02} {AM|PM}` of `t`.
#[verifier::rlimit(40)]
pub proof fn lemma_saved_report_title(t: SessionTime)
    requires
        t.wf(),
        t.year >= 0,
    ensures
        session_title(base_name(t) + seq!['.', 'm', 'd']) == title_text(
            t.month as nat,
            t.day as nat,
            t.hour as nat,
            t.minute as nat,
        ),
{
    let y = year_text(t.year as int);
    let mo = pad2(t.month as nat);
    let d = pad2(t.day as nat);
    let h = pad2(t.hour as nat);
    let mi = pad2(t.minute as nat);
    let se = pad2(t.second as nat);
    lemma_year_field(t.year as int);
    lemma_field(t.month as nat, usize::MAX as nat);
    lemma_field(t.day as nat, u32::MAX as nat);
    lemma_field(t.hour as nat, u32::MAX as nat);
    lemma_field(t.minute as nat, u32::MAX as nat);
    lemma_field(t.second as nat, u32::MAX as nat);
    let date = y + seq!['-'] + mo + seq!['-'] + d;
    let time = h + seq!['-'] + mi + seq!['-'] + se;
    lemma_three_fields(y, mo, d);
    lemma_three_fields(h, mi, se);
    let base = base_name(t);
    assert(base =~= date + seq!['_'] + time);
    lemma_split_concat(date, '_', time);
    lemma_split_no_sep(date, '_');
    lemma_split_no_sep(time, '_');
    assert(split(base, '_') =~= seq![date, time]);
    let f = base + seq!['.', 'm', 'd'];
    assert(f.skip(f.len() - 3) =~= seq!['.', 'm', 'd']);
    assert(f.take(f.len() - 3) =~= base);
}

} // verus!
