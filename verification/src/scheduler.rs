//! The decision logic of the adapter to the host deferred-execution
//! facility: the target wall-clock time of a submission, the verdict on an
//! invocation's exit, and the job-identifier extraction from the
//! pending-job listing.
//!
//! Job-id discovery reads the listing queried right after a confirmed
//! submission and takes the last record's leading token; another actor
//! submitting concurrently can race that query. The race is accepted: the
//! tool assumes a single personal user of the host queue.

use vstd::prelude::*;
use vstd::arithmetic::div_mod::{lemma_fundamental_div_mod, lemma_mod_multiples_vanish};
use crate::calendar::DateSnapshot;
use crate::duration::{pad2, two_digits, Duration};
use crate::errors::AtError;

verus! {

/// Horizontal whitespace as it separates the fields of a listing record.
pub open spec fn is_space(c: char) -> bool {
    c == ' ' || c == '\t' || c == '\r'
}

/// The index of the last newline in `s[0..i]`, or -1 when there is none.
pub open spec fn last_newline(s: Seq<char>, i: int) -> int
    decreases i when 0 <= i <= s.len()
{
    if i <= 0 {
        -1
    } else if s[i - 1] == '\n' {
        i - 1
    } else {
        last_newline(s, i - 1)
    }
}

/// The listing's length once one trailing newline is dropped.
pub open spec fn content_end(s: Seq<char>) -> int {
    if s.len() > 0 && s[s.len() - 1] == '\n' {
        s.len() - 1
    } else {
        s.len() as int
    }
}

/// The first position in `s[i..end]` that is not horizontal whitespace.
pub open spec fn skip_spaces(s: Seq<char>, i: int, end: int) -> int
    decreases end - i when 0 <= i <= end <= s.len()
{
    if i < end && is_space(s[i]) {
        skip_spaces(s, i + 1, end)
    } else {
        i
    }
}

/// The end of the whitespace-free token that starts at `i`.
pub open spec fn token_end(s: Seq<char>, i: int, end: int) -> int
    decreases end - i when 0 <= i <= end <= s.len()
{
    if i < end && !is_space(s[i]) {
        token_end(s, i + 1, end)
    } else {
        i
    }
}

/// The job identifier a pending-job listing yields: the leading
/// whitespace-delimited token of its last line, or nothing when the
/// listing is empty or that line holds no token.
pub open spec fn job_id_of(s: Seq<char>) -> Option<Seq<char>> {
    let e = content_end(s);
    let start = last_newline(s, e) + 1;
    let t0 = skip_spaces(s, start, e);
    if t0 == e {
        None
    } else {
        Some(s.subrange(t0, token_end(s, t0, e)))
    }
}

fn is_space_char(c: char) -> (r: bool)
    ensures
        r == is_space(c),
{
    c == ' ' || c == '\t' || c == '\r'
}

/// Extracts the identifier of the most recently submitted job from the
/// pending-job listing: the leading whitespace-delimited token of the last
/// line. Fails with a `ParseError` exactly when the listing is empty or
/// its last line holds no token.
pub fn extract_job_id(listing: &str) -> (r: Result<String, AtError>)
    ensures
        match r {
            Ok(id) => job_id_of(listing@) == Some(id@),
            Err(e) => job_id_of(listing@) is None && e is ParseError,
        },
{
    let ghost sq = listing@;
    let len = listing.unicode_len();
    if len == 0 {
        return Err(AtError::ParseError(String::from_str("Failed to read atq output")));
    }
    let e = if listing.get_char(len - 1) == '\n' {
        len - 1
    } else {
        len
    };
    let mut j = e;
    while j > 0 && listing.get_char(j - 1) != '\n'
        invariant
            j <= e <= len,
            len == sq.len(),
            sq == listing@,
            last_newline(sq, e as int) == last_newline(sq, j as int),
        decreases j,
    {
        j = j - 1;
    }
    let start = j;
    assert(start == last_newline(sq, e as int) + 1);
    let mut t0 = start;
    while t0 < e && is_space_char(listing.get_char(t0))
        invariant
            start <= t0 <= e <= len,
            len == sq.len(),
            sq == listing@,
            skip_spaces(sq, start as int, e as int) == skip_spaces(sq, t0 as int, e as int),
        decreases e - t0,
    {
        t0 = t0 + 1;
    }
    if t0 == e {
        return Err(AtError::ParseError(String::from_str("Failed to parse job ID")));
    }
    let mut t1 = t0;
    while t1 < e && !is_space_char(listing.get_char(t1))
        invariant
            t0 <= t1 <= e <= len,
            len == sq.len(),
            sq == listing@,
            token_end(sq, t0 as int, e as int) == token_end(sq, t1 as int, e as int),
        decreases e - t1,
    {
        t1 = t1 + 1;
    }
    let tok = listing.substring_char(t0, t1);
    Ok(tok.to_owned())
}

/// The verdict on one invocation of the host facility: a zero exit passes;
/// a non-zero exit yields a `CommandError` carrying the invocation's
/// error-stream text, and nothing else.
pub fn command_outcome(success: bool, stderr: &str) -> (r: Result<(), AtError>)
    ensures
        match r {
            Ok(u) => success,
            Err(e) => !success && (match e {
                AtError::CommandError(m) => m@ == stderr@,
                _ => false,
            }),
        },
{
    if success {
        Ok(())
    } else {
        Err(AtError::CommandError(stderr.to_owned()))
    }
}

/// The second of the day at which a job submitted at the snapshot's time
/// with the given offset is due, wrapping at midnight.
pub open spec fn target_seconds_spec(snap: DateSnapshot, d: Duration) -> int {
    (snap.seconds_of_day_spec() + d.total_spec()) % 86400
}

/// A second of the day in the `HH:MM` form the facility takes.
pub open spec fn clock_chars(t: int) -> Seq<char> {
    pad2(t / 3600) + seq![':'] + pad2(t % 3600 / 60)
}

/// The wall-clock time `HH:MM` at which a job submitted now with offset
/// `d` is due: now plus the offset, wrapping at midnight, to the minute.
pub fn schedule_clock_time(snap: &DateSnapshot, d: &Duration) -> (r: String)
    requires
        snap.wf(),
        d.wf(),
    ensures
        r@ == clock_chars(target_seconds_spec(*snap, *d)),
{
    let now = snap.seconds_of_day() as u64;
    let total = d.total_seconds();
    let offset = total % 86400;
    let target = (now + offset) % 86400;
    proof {
        lemma_fundamental_div_mod(total as int, 86400);
        lemma_mod_multiples_vanish(total as int / 86400, now + (total as int % 86400), 86400);
        lemma_fundamental_div_mod(target as int, 3600);
        lemma_fundamental_div_mod(target as int % 3600, 60);
    }
    let h = target / 3600;
    let m = (target % 3600) / 60;
    let mut out = two_digits(h);
    out.append(":");
    let mm = two_digits(m);
    out.append(mm.as_str());
    proof {
        reveal_strlit(":");
        assert(out@ =~= clock_chars(target_seconds_spec(*snap, *d)));
    }
    out
}

} // verus!
