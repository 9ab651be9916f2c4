//! The time of day at which the daily fact is sent.
use vstd::prelude::*;
use crate::text::{chars_of, split_chars, split_char};
use crate::number::{parse_unsigned, parse_unsigned_range, decimal_text, law_decimal_text_parses};

verus! {

/// The hour and minute that a `hour:minute` text gives: each part read as a
/// decimal `u32`; parts after the second are ignored. `None` where the text
/// has no second part or a part is no such number.
pub open spec fn send_time_parts(s: Seq<char>) -> Option<(u32, u32)> {
    let p = split_char(s, ':');
    match parse_unsigned(p[0], 10, u32::MAX as nat) {
        None => None,
        Some(h) => if p.len() < 2 {
            None
        } else {
            match parse_unsigned(p[1], 10, u32::MAX as nat) {
                None => None,
                Some(m) => Some((h as u32, m as u32)),
            }
        },
    }
}

/// The decimal numeral of a number holds no `:`.
proof fn lemma_decimal_free_of_colon(n: nat)
    ensures
        crate::text::free_of(decimal_text(n), ':'),
    decreases n,
{
    if n >= 10 {
        lemma_decimal_free_of_colon(n / 10);
        let t = decimal_text(n);
        assert forall|i: int| 0 <= i < t.len() implies t[i] != ':' by {
            if i < t.len() - 1 {
                assert(t[i] == decimal_text(n / 10)[i]);
            }
        }
    }
}

/// A send time written `h:m` in decimal, with optional further `:` parts,
/// is read as hour `h` and minute `m`, whatever their size: the hour is the
/// number before the first `:` and the minute the number after it.
pub proof fn law_send_time_is_decimal(h: nat, m: nat, more: Seq<char>)
    requires
        h <= u32::MAX,
        m <= u32::MAX,
    ensures
        send_time_parts(decimal_text(h) + ":"@ + decimal_text(m)) == Some((h as u32, m as u32)),
        send_time_parts(decimal_text(h) + ":"@ + decimal_text(m) + ":"@ + more) == Some(
            (h as u32, m as u32),
        ),
{
    reveal_strlit(":");
    law_decimal_text_parses(h, u32::MAX as nat);
    law_decimal_text_parses(m, u32::MAX as nat);
    lemma_decimal_free_of_colon(h);
    lemma_decimal_free_of_colon(m);
    let a = decimal_text(h);
    let b = decimal_text(m);
    let s1 = a + ":"@ + b;
    assert(s1.take(a.len() as int) =~= a);
    assert(s1.skip(a.len() + 1 as int) =~= b);
    crate::text::lemma_split_step(s1, ':', a.len() as int);
    crate::text::lemma_split_free(b, ':');
    let s2 = a + ":"@ + b + ":"@ + more;
    assert(s2.take(a.len() as int) =~= a);
    let r = s2.skip(a.len() + 1 as int);
    assert(r =~= b + ":"@ + more);
    crate::text::lemma_split_step(s2, ':', a.len() as int);
    assert(r.take(b.len() as int) =~= b);
    crate::text::lemma_split_step(r, ':', b.len() as int);
}

/// `chrono::Local::now()` with its `hour()` and `minute()`: the local time
/// of day now. Only the documented ranges are stated: an hour below 24 and a
/// minute below 60; which time comes back depends on the clock.
#[verifier::external_body]
fn local_hour_minute() -> (r: (u32, u32))
    ensures
        r.0 < 24,
        r.1 < 60,
{
    let now = chrono::Local::now();
    (chrono::Timelike::hour(&now), chrono::Timelike::minute(&now))
}

/// Whether an hour and a minute form a time of day.
pub open spec fn time_of_day(hour: u32, minute: u32) -> bool {
    hour < 24 && minute < 60
}

/// A time of day, hour and minute.
pub struct SendTime {
    hour: u32,
    minute: u32,
}

impl View for SendTime {
    type V = (u32, u32);

    closed spec fn view(&self) -> (u32, u32) {
        (self.hour, self.minute)
    }
}

impl SendTime {
    /// Reads a `hour:minute` text (see `send_time_parts`), or gives `None`
    /// where it is not one.
    pub fn try_from_str(time: &str) -> (r: Option<SendTime>)
        ensures
            r is Some <==> send_time_parts(time@) is Some,
            r matches Some(t) ==> t@ == send_time_parts(time@)->0,
    {
        let v = chars_of(time);
        let parts = split_chars(&v, ':');
        proof {
            crate::text::lemma_char_pos(time@, ':');
        }
        let h = match parse_unsigned_range(&parts[0], 0, parts[0].len(), 10, 0xffff_ffff) {
            Some(h) => h,
            None => {
                assert(parts[0]@.subrange(0, parts[0]@.len() as int) =~= split_char(time@, ':')[0]);
                return None;
            },
        };
        assert(parts[0]@.subrange(0, parts[0]@.len() as int) =~= split_char(time@, ':')[0]);
        if parts.len() < 2 {
            return None;
        }
        let m = match parse_unsigned_range(&parts[1], 0, parts[1].len(), 10, 0xffff_ffff) {
            Some(m) => m,
            None => {
                assert(parts[1]@.subrange(0, parts[1]@.len() as int) =~= split_char(time@, ':')[1]);
                return None;
            },
        };
        assert(parts[1]@.subrange(0, parts[1]@.len() as int) =~= split_char(time@, ':')[1]);
        Some(SendTime { hour: h as u32, minute: m as u32 })
    }

    /// Reads a `hour:minute` text, which must be well-formed (see
    /// `send_time_parts`).
    pub fn from_str(time: &str) -> (r: SendTime)
        requires
            send_time_parts(time@) is Some,
        ensures
            r@ == send_time_parts(time@)->0,
    {
        match SendTime::try_from_str(time) {
            Some(t) => t,
            None => SendTime { hour: 0, minute: 0 },
        }
    }

    /// The hour.
    pub fn hour(&self) -> (h: u32)
        ensures
            h == self@.0,
    {
        self.hour
    }

    /// The minute.
    pub fn minute(&self) -> (m: u32)
        ensures
            m == self@.1,
    {
        self.minute
    }

    /// Whether the given time of day is this one.
    pub fn is_time_at(&self, hour: u32, minute: u32) -> (r: bool)
        ensures
            r == (hour == self@.0 && minute == self@.1),
    {
        hour == self.hour && minute == self.minute
    }

    /// Whether the local time of day now is this one, to the minute: the
    /// result is the comparison with the time of day that the clock gave,
    /// which is a real time of day, so it can only hold when this time is one.
    pub fn is_time(&self) -> (r: bool)
        ensures
            exists|h: u32, m: u32|
                #![trigger time_of_day(h, m)]
                time_of_day(h, m) && r == (h == self@.0 && m == self@.1),
            r ==> self@.0 < 24 && self@.1 < 60,
    {
        let (h, m) = local_hour_minute();
        let r = self.is_time_at(h, m);
        assert(time_of_day(h, m) && r == (h == self@.0 && m == self@.1));
        r
    }
}

} // verus!
