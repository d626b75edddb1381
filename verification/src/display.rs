//! Presentation helpers over parsed field values: date, time and
//! timestamp formatting, and width-bounded truncation. All counts are in
//! characters.

use vstd::prelude::*;
use vstd::string::*;

verus! {

/// `YYYYMMDD` rendered as `YYYY-MM-DD`; anything of another length is
/// returned unchanged.
pub open spec fn spec_format_date(d: Seq<char>) -> Seq<char> {
    if d.len() == 8 {
        d.subrange(0, 4) + seq!['-'] + d.subrange(4, 6) + seq!['-'] + d.subrange(6, 8)
    } else {
        d
    }
}

/// `HHMM...` rendered as `HH:MM`, dropping anything after the minutes;
/// anything shorter than four characters is returned unchanged.
pub open spec fn spec_format_time(t: Seq<char>) -> Seq<char> {
    if t.len() >= 4 {
        t.subrange(0, 2) + seq![':'] + t.subrange(2, 4)
    } else {
        t
    }
}

/// A timestamp `YYYYMMDD[HHMM...]`: the date part formatted, then the
/// time part when present; anything shorter than eight characters is
/// returned unchanged.
pub open spec fn spec_format_timestamp(ts: Seq<char>) -> Seq<char> {
    if ts.len() >= 8 {
        if ts.len() >= 12 {
            spec_format_date(ts.subrange(0, 8)) + seq![' '] + spec_format_time(
                ts.subrange(8, 12),
            )
        } else {
            spec_format_date(ts.subrange(0, 8))
        }
    } else {
        ts
    }
}

/// The string itself when it fits in `max_len` characters, else its first
/// `max_len - 3` characters with an ellipsis.
pub open spec fn spec_truncate(s: Seq<char>, max_len: int) -> Seq<char> {
    if s.len() <= max_len {
        s
    } else {
        s.subrange(0, max_len - 3) + seq!['.', '.', '.']
    }
}

/// Render a `YYYYMMDD` date with dashes.
pub fn format_date(date: &str) -> (r: String)
    ensures
        r@ == spec_format_date(date@),
{
    if date.unicode_len() == 8 {
        let mut r = String::from_str(date.substring_char(0, 4));
        r.append("-");
        r.append(date.substring_char(4, 6));
        r.append("-");
        r.append(date.substring_char(6, 8));
        proof {
            reveal_strlit("-");
            assert("-"@ =~= seq!['-']);
            assert(r@ =~= spec_format_date(date@));
        }
        r
    } else {
        date.to_owned()
    }
}

/// Render an `HHMM...` time as hours and minutes with a colon.
pub fn format_time(time: &str) -> (r: String)
    ensures
        r@ == spec_format_time(time@),
{
    if time.unicode_len() >= 4 {
        let mut r = String::from_str(time.substring_char(0, 2));
        r.append(":");
        r.append(time.substring_char(2, 4));
        proof {
            reveal_strlit(":");
            assert(":"@ =~= seq![':']);
            assert(r@ =~= spec_format_time(time@));
        }
        r
    } else {
        time.to_owned()
    }
}

/// Render a `YYYYMMDD[HHMM...]` timestamp readably.
pub fn format_timestamp(ts: &str) -> (r: String)
    ensures
        r@ == spec_format_timestamp(ts@),
{
    let n = ts.unicode_len();
    if n >= 8 {
        let date_part = format_date(ts.substring_char(0, 8));
        if n >= 12 {
            let time_part = format_time(ts.substring_char(8, 12));
            let mut r = date_part;
            r.append(" ");
            r.append(time_part.as_str());
            proof {
                reveal_strlit(" ");
                assert(" "@ =~= seq![' ']);
                assert(r@ =~= spec_format_timestamp(ts@));
            }
            r
        } else {
            date_part
        }
    } else {
        ts.to_owned()
    }
}

/// Cut a string down to at most `max_len` characters, marking the cut
/// with an ellipsis.
pub fn truncate(s: &str, max_len: usize) -> (r: String)
    requires
        max_len >= 3,
    ensures
        r@ == spec_truncate(s@, max_len as int),
{
    let n = s.unicode_len();
    if n <= max_len {
        s.to_owned()
    } else {
        let mut r = String::from_str(s.substring_char(0, max_len - 3));
        r.append("...");
        proof {
            reveal_strlit("...");
            assert("..."@ =~= seq!['.', '.', '.']);
            assert(r@ =~= spec_truncate(s@, max_len as int));
        }
        r
    }
}

} // verus!
