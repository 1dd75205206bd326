use vstd::prelude::*;
use vstd::string::StringExecFns;

use crate::session::Session;
use crate::session::SessionModel;

verus! {

/// The character of a single decimal digit.
pub open spec fn digit_char(d: int) -> char {
    if d == 0 {
        '0'
    } else if d == 1 {
        '1'
    } else if d == 2 {
        '2'
    } else if d == 3 {
        '3'
    } else if d == 4 {
        '4'
    } else if d == 5 {
        '5'
    } else if d == 6 {
        '6'
    } else if d == 7 {
        '7'
    } else if d == 8 {
        '8'
    } else {
        '9'
    }
}

/// The decimal numeral of `n`, most significant digit first, without leading
/// zeros (a single zero for zero itself).
pub open spec fn dec_str(n: int) -> Seq<char>
    recommends
        n >= 0,
    decreases n,
{
    if n < 10 {
        seq![digit_char(n)]
    } else {
        dec_str(n / 10).push(digit_char(n % 10))
    }
}

/// The single-character numeral of one decimal digit.
fn digit_str(d: u32) -> (r: &'static str)
    requires
        d < 10,
    ensures
        r@ == seq![digit_char(d as int)],
{
    let r: &'static str = if d == 0 {
        "0"
    } else if d == 1 {
        "1"
    } else if d == 2 {
        "2"
    } else if d == 3 {
        "3"
    } else if d == 4 {
        "4"
    } else if d == 5 {
        "5"
    } else if d == 6 {
        "6"
    } else if d == 7 {
        "7"
    } else if d == 8 {
        "8"
    } else {
        "9"
    };
    proof {
        reveal_strlit("0");
        reveal_strlit("1");
        reveal_strlit("2");
        reveal_strlit("3");
        reveal_strlit("4");
        reveal_strlit("5");
        reveal_strlit("6");
        reveal_strlit("7");
        reveal_strlit("8");
        reveal_strlit("9");
        assert(r@ =~= seq![digit_char(d as int)]);
    }
    r
}

/// Renders `n` as its decimal numeral.
pub fn u32_to_string(n: u32) -> (r: String)
    ensures
        r@ == dec_str(n as int),
    decreases n,
{
    if n < 10 {
        let r = digit_str(n).to_owned();
        proof {
            assert(r@ =~= dec_str(n as int));
        }
        r
    } else {
        let mut r = u32_to_string(n / 10);
        r.append(digit_str(n % 10));
        proof {
            assert(r@ =~= dec_str(n as int));
        }
        r
    }
}

/// The rendered duration: the parts that apply — "for now" while the session
/// still runs, the hours clause when there is at least one whole hour, and
/// always the minutes clause — joined by `sep`.
pub open spec fn spec_format_duration(value: u32, still_running: bool, sep: Seq<char>) -> Seq<
    char,
> {
    let head: Seq<char> = if still_running {
        "for now"@ + sep
    } else {
        Seq::<char>::empty()
    };
    let hours = value as int / 60;
    let minutes = value as int % 60;
    let hours_part: Seq<char> = if hours > 0 {
        dec_str(hours) + " hours"@ + sep
    } else {
        Seq::<char>::empty()
    };
    head + hours_part + dec_str(minutes) + " minutes"@
}

/// Renders a duration of `value` whole minutes for display, decomposed into
/// hours and remaining minutes; the hours clause is omitted when it would be
/// zero, and a session that still runs is marked "for now".
pub fn format_duration(value: u32, still_running: bool, separator: &str) -> (r: String)
    ensures
        r@ == spec_format_duration(value, still_running, separator@),
{
    let mut r = String::new();
    if still_running {
        r.append("for now");
        r.append(separator);
    }
    let hours = value / 60;
    if hours > 0 {
        let h = u32_to_string(hours);
        r.append(h.as_str());
        r.append(" hours");
        r.append(separator);
    }
    let minutes = value % 60;
    let m = u32_to_string(minutes);
    r.append(m.as_str());
    r.append(" minutes");
    proof {
        assert(r@ =~= spec_format_duration(value, still_running, separator@));
    }
    r
}

/// The display duration of a session at instant `now`, in whole minutes,
/// truncating any fractional minute: from its start to its end when it has
/// ended, to `now` while it is running.
pub open spec fn spec_session_duration(m: SessionModel, now: i64) -> int {
    match m.end_at {
        Some(e) => (e - m.start_at) / 60,
        None => (now - m.start_at) / 60,
    }
}

/// Whether a session's display duration at `now` fits the counter: it is not
/// negative and not beyond the counter's range.
pub open spec fn session_duration_ok(m: SessionModel, now: i64) -> bool {
    0 <= spec_session_duration(m, now) <= u32::MAX
}

/// The display durations of all sessions at `now`, summed.
pub open spec fn spec_total_minutes(s: Seq<SessionModel>, now: i64) -> int
    decreases s.len(),
{
    if s.len() == 0 {
        0
    } else {
        spec_total_minutes(s.drop_last(), now) + spec_session_duration(s.last(), now)
    }
}

/// Every session's display duration at `now` fits the counter.
pub open spec fn all_durations_ok(s: Seq<SessionModel>, now: i64) -> bool {
    forall|i: int| 0 <= i < s.len() ==> session_duration_ok(#[trigger] s[i], now)
}

/// When every duration fits the counter, the total over a prefix never
/// exceeds the total over the whole sequence.
proof fn lemma_total_take_le(s: Seq<SessionModel>, now: i64, k: int)
    requires
        0 <= k <= s.len(),
        all_durations_ok(s, now),
    ensures
        spec_total_minutes(s.take(k), now) <= spec_total_minutes(s, now),
    decreases s.len() - k,
{
    if k == s.len() {
        assert(s.take(k) =~= s);
    } else {
        lemma_total_take_le(s, now, k + 1);
        assert(s.take(k + 1).drop_last() =~= s.take(k));
        assert(s.take(k + 1).last() == s[k]);
    }
}

/// The display duration of one session at instant `now`, in whole minutes;
/// nothing when the session starts after the relevant end instant or the
/// duration does not fit the counter.
pub fn session_duration_minutes(s: &Session, now: i64) -> (r: Option<u32>)
    ensures
        r is Some <==> session_duration_ok(s@, now),
        r matches Some(d) ==> d == spec_session_duration(s@, now),
{
    let upper: i64 = match s.end_at {
        Some(e) => e,
        None => now,
    };
    if s.start_at > upper {
        return None;
    }
    let diff: i128 = (upper as i128) - (s.start_at as i128);
    let minutes: i128 = diff / 60;
    if minutes > (u32::MAX as i128) {
        None
    } else {
        Some(minutes as u32)
    }
}

/// The summed display duration of the given sessions at instant `now`;
/// nothing when some duration, or the sum, does not fit the counter.
pub fn total_duration_minutes(sessions: &Vec<Session>, now: i64) -> (r: Option<u32>)
    ensures
        r is Some <==> all_durations_ok(sessions.deep_view(), now) && spec_total_minutes(
            sessions.deep_view(),
            now,
        ) <= u32::MAX,
        r matches Some(t) ==> t == spec_total_minutes(sessions.deep_view(), now),
{
    let ghost dv = sessions.deep_view();
    let mut total: u32 = 0;
    let mut i: usize = 0;
    while i < sessions.len()
        invariant
            i <= sessions.len(),
            dv == sessions.deep_view(),
            total == spec_total_minutes(dv.take(i as int), now),
            forall|j: int| 0 <= j < i ==> session_duration_ok(#[trigger] dv[j], now),
        decreases sessions.len() - i,
    {
        proof {
            assert(dv.take(i as int + 1).drop_last() =~= dv.take(i as int));
            assert(dv.take(i as int + 1).last() == dv[i as int]);
        }
        let d = match session_duration_minutes(&sessions[i], now) {
            Some(d) => d,
            None => {
                proof {
                    assert(!session_duration_ok(dv[i as int], now));
                }
                return None;
            },
        };
        if d > u32::MAX - total {
            proof {
                if all_durations_ok(dv, now) {
                    lemma_total_take_le(dv, now, i as int + 1);
                    assert(spec_total_minutes(dv, now) > u32::MAX);
                }
            }
            return None;
        }
        total = total + d;
        i = i + 1;
    }
    proof {
        assert(dv.take(dv.len() as int) =~= dv);
    }
    Some(total)
}

/// Whole minutes elapsed between two instants, truncating any fractional
/// minute.
pub fn duration_minutes(start_at: i64, end_at: i64) -> (r: u32)
    requires
        start_at <= end_at,
        (end_at - start_at) / 60 <= u32::MAX,
    ensures
        r == (end_at - start_at) / 60,
{
    let diff: i128 = (end_at as i128) - (start_at as i128);
    let minutes: i128 = diff / 60;
    minutes as u32
}

} // verus!
