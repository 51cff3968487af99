//! Log lines.
use vstd::prelude::*;
use vstd::string::*;

use crate::text;
use crate::text::{chars_of, is_control, padded};
use crate::text_laws;

verus! {

/// The time of day that `secs` seconds since midnight UTC of some day fall on,
/// as hours, minutes and seconds.
pub open spec fn clock_text(secs: nat) -> Seq<char> {
    text::two_digits(secs / 3600 % 24) + ":"@ + text::two_digits(secs / 60 % 60) + ":"@
        + text::two_digits(secs % 60)
}

/// The time of day of a Unix timestamp, in UTC, as `HH:MM:SS`.
pub fn format_timestamp(secs: u64) -> (r: String)
    ensures
        r@ == clock_text(secs as nat),
{
    let h: u64 = (secs % 86400) / 3600;
    let m: u64 = (secs % 3600) / 60;
    let s: u64 = secs % 60;
    assert(h == (secs as nat) / 3600 % 24);
    assert(m == (secs as nat) / 60 % 60);
    let mut r = padded(h);
    r.append(":");
    let m = padded(m);
    r.append(m.as_str());
    r.append(":");
    let s = padded(s);
    r.append(s.as_str());
    r
}

/// A whole day later the clock shows the same time.
pub proof fn clock_repeats_daily(secs: nat, days: nat)
    ensures
        clock_text(secs + days * 86400) == clock_text(secs),
{
    let d = days * 86400;
    assert((secs + d) / 3600 % 24 == secs / 3600 % 24);
    assert((secs + d) / 60 % 60 == secs / 60 % 60);
    assert((secs + d) % 60 == secs % 60);
}

/// `s` with a question mark for each control code.
pub open spec fn sanitized(s: Seq<char>) -> Seq<char> {
    s.map_values(|c: char| if text::control(c) { '?' } else { c })
}

/// `s` with a question mark for each control code.
pub fn sanitize_for_log(s: &str) -> (r: String)
    ensures
        r@ == sanitized(s@),
{
    let cs = chars_of(s);
    let mut r = String::new();
    assert(sanitized(s@).take(0) =~= Seq::<char>::empty());
    for i in 0..cs.len()
        invariant
            cs@ == s@,
            r@ == sanitized(s@).take(i as int),
    {
        let c = if is_control(cs[i]) {
            '?'
        } else {
            cs[i]
        };
        r.push(c);
        assert(sanitized(s@).take(i + 1) =~= sanitized(s@).take(i as int).push(c));
    }
    assert(sanitized(s@).take(cs@.len() as int) =~= sanitized(s@));
    r
}

/// A sanitized text holds no control code, has as many characters as before,
/// and is not changed by sanitizing it again; a text without control codes is
/// not changed at all.
pub proof fn sanitized_text_is_inert(s: Seq<char>)
    ensures
        sanitized(s).len() == s.len(),
        forall|i: int| 0 <= i < s.len() ==> !text::control(#[trigger] sanitized(s)[i]),
        sanitized(sanitized(s)) == sanitized(s),
        (forall|i: int| 0 <= i < s.len() ==> !text::control(#[trigger] s[i])) ==> sanitized(s) == s,
{
    assert(sanitized(sanitized(s)) =~= sanitized(s));
    if forall|i: int| 0 <= i < s.len() ==> !text::control(#[trigger] s[i]) {
        assert(sanitized(s) =~= s);
    }
}

/// The line that is written for a log message at `secs` seconds since the
/// epoch.
pub open spec fn log_text(secs: nat, msg: Seq<char>) -> Seq<char> {
    "[git-bulk-clean "@ + clock_text(secs) + "] "@ + msg
}

/// The line that is written for a log message at `secs` seconds since the
/// epoch.
pub fn log_line(secs: u64, msg: &str) -> (r: String)
    ensures
        r@ == log_text(secs as nat, msg@),
        r@ == "[git-bulk-clean "@ + clock_text(secs as nat) + "] "@ + msg@,
{
    let mut r = "[git-bulk-clean ".to_string();
    let t = format_timestamp(secs);
    r.append(t.as_str());
    r.append("] ");
    r.append(msg);
    r
}

/// A number below a hundred takes two digits, the tens first.
proof fn lemma_two_digits(n: nat)
    requires
        n < 100,
    ensures
        text::two_digits(n).len() == 2,
        text::two_digits(n)[0] as int == '0' as int + n / 10,
        text::two_digits(n)[1] as int == '0' as int + n % 10,
{
    text_laws::numbers_are_written_digit_by_digit(0, n % 10);
    if n >= 10 {
        text_laws::numbers_are_written_digit_by_digit(n / 10, n % 10);
        text_laws::numbers_are_written_digit_by_digit(0, n / 10);
        assert(10 * (n / 10) + n % 10 == n);
    }
}

/// The clock shows two digits each for hours, minutes and seconds, with colons
/// between them, and together they make up the seconds since midnight.
pub proof fn clock_shows_the_time_of_day(secs: nat) -> (t: (nat, nat, nat))
    ensures
        t.0 < 24,
        t.1 < 60,
        t.2 < 60,
        3600 * t.0 + 60 * t.1 + t.2 == secs % (24 * 60 * 60),
        clock_text(secs).len() == 8,
        clock_text(secs)[0] as int == '0' as int + t.0 / 10,
        clock_text(secs)[1] as int == '0' as int + t.0 % 10,
        clock_text(secs)[2] == ':',
        clock_text(secs)[3] as int == '0' as int + t.1 / 10,
        clock_text(secs)[4] as int == '0' as int + t.1 % 10,
        clock_text(secs)[5] == ':',
        clock_text(secs)[6] as int == '0' as int + t.2 / 10,
        clock_text(secs)[7] as int == '0' as int + t.2 % 10,
{
    let h = secs / 3600 % 24;
    let m = secs / 60 % 60;
    let s = secs % 60;
    lemma_two_digits(h);
    lemma_two_digits(m);
    lemma_two_digits(s);
    reveal_strlit(":");
    assert(":"@.len() == 1 && ":"@[0] == ':');
    assert(3600 * h + 60 * m + s == secs % 86400);
    (h, m, s)
}

/// Sanitizing puts a question mark for each control code, which is what is
/// below the space and what is from the delete code to the end of the second
/// control block, and leaves every other character where it is.
pub proof fn control_codes_become_question_marks(s: Seq<char>, i: int)
    requires
        0 <= i < s.len(),
    ensures
        sanitized(s).len() == s.len(),
        sanitized(s)[i] == (if (s[i] as int) < 32 || 127 <= (s[i] as int) <= 159 {
            '?'
        } else {
            s[i]
        }),
{
    lemma_control(s[i]);
}

proof fn lemma_control(c: char)
    ensures
        text::control(c) <==> (c as int) < 32 || 127 <= (c as int) <= 159,
{
}

} // verus!
