//! The daily send: when to send, the day numbers that facts are filed
//! under, and the texts that go out.
use vstd::prelude::*;
use crate::text::{replace_str, replace_all};

verus! {

/// One pass of the send loop from the lock `locked`, given whether the send
/// time is reached when the pass starts (`due`) and when it ends
/// (`still_due`): whether the pass sends, and the lock afterwards.
pub open spec fn gate_step(locked: bool, due: bool, still_due: bool) -> (bool, bool) {
    (due && !locked, still_due && (locked || due))
}

/// Keeps the daily send to one per stretch of time in which the send time
/// is reached: once it has sent, it stays locked until a pass sees that the
/// send time has passed.
pub struct SendGate {
    locked: bool,
}

impl View for SendGate {
    type V = bool;

    closed spec fn view(&self) -> bool {
        self.locked
    }
}

impl SendGate {
    /// An unlocked gate.
    pub fn new() -> (g: SendGate)
        ensures
            !g@,
    {
        SendGate { locked: false }
    }

    /// True while further sends are held back.
    pub fn is_locked(&self) -> (r: bool)
        ensures
            r == self@,
    {
        self.locked
    }

    /// The start of a pass of the send loop: whether to send, given whether
    /// the send time is reached; a send holds back further sends.
    pub fn begin_pass(&mut self, due: bool) -> (send: bool)
        ensures
            send == gate_step(old(self)@, due, true).0,
            final(self)@ == (old(self)@ || due),
    {
        let send = due && !self.locked;
        if send {
            self.locked = true;
        }
        send
    }

    /// The end of a pass of the send loop: sends are allowed again when the
    /// send time is no longer reached.
    pub fn end_pass(&mut self, still_due: bool)
        ensures
            final(self)@ == (still_due && old(self)@),
    {
        if !still_due {
            self.locked = false;
        }
    }

    /// A whole pass of the send loop (see `gate_step`); returns whether to
    /// send.
    pub fn tick(&mut self, due: bool, still_due: bool) -> (send: bool)
        ensures
            (send, final(self)@) == gate_step(old(self)@, due, still_due),
    {
        let send = self.begin_pass(due);
        self.end_pass(still_due);
        send
    }
}

/// After a pass that sends while the send time is still reached, the next
/// pass does not send; a pass never sends unless the send time is reached;
/// and after a pass that sees the send time passed, the next pass that
/// finds it reached sends.
pub proof fn law_one_send_per_stretch(locked: bool, due: bool, due2: bool, still_due2: bool)
    ensures
        gate_step(locked, due, true).0 ==> !gate_step(gate_step(locked, due, true).1, due2, still_due2).0,
        gate_step(locked, false, still_due2).0 == false,
        gate_step(gate_step(locked, due, false).1, true, still_due2).0,
{
}

/// The lock of a gate that started unlocked, after the first `k` passes of
/// a run; each pass is a pair (`due`, `still_due`) as in `gate_step`.
pub open spec fn lock_after(passes: Seq<(bool, bool)>, k: int) -> bool
    decreases k,
{
    if k <= 0 {
        false
    } else {
        gate_step(lock_after(passes, k - 1), passes[k - 1].0, passes[k - 1].1).1
    }
}

/// Whether pass `k` of a run sends.
pub open spec fn sends_at(passes: Seq<(bool, bool)>, k: int) -> bool {
    gate_step(lock_after(passes, k), passes[k].0, passes[k].1).0
}

/// Between passes `i` (included) and `j` (excluded) some pass saw at its
/// end that the send time had passed.
pub open spec fn broken_between(passes: Seq<(bool, bool)>, i: int, j: int) -> bool {
    exists|m: int| i <= m < j && !(#[trigger] passes[m]).1
}

/// The lock after `k` passes is on exactly when some earlier pass sent and
/// no pass since has seen the send time passed.
proof fn lemma_lock_after(passes: Seq<(bool, bool)>, k: int)
    requires
        0 <= k <= passes.len(),
    ensures
        lock_after(passes, k) <==> exists|j: int|
            0 <= j < k && #[trigger] sends_at(passes, j) && !broken_between(passes, j, k),
    decreases k,
{
    if k > 0 {
        lemma_lock_after(passes, k - 1);
        let p = k - 1;
        if lock_after(passes, k) {
            if lock_after(passes, p) {
                let j = choose|j: int|
                    0 <= j < p && #[trigger] sends_at(passes, j) && !broken_between(passes, j, p);
                assert(!broken_between(passes, j, k)) by {
                    if broken_between(passes, j, k) {
                        let m = choose|m: int| j <= m < k && !(#[trigger] passes[m]).1;
                        assert(m != p);
                        assert(broken_between(passes, j, p));
                    }
                }
                assert(sends_at(passes, j));
            } else {
                assert(sends_at(passes, p));
                assert(!broken_between(passes, p, k));
            }
        } else {
            assert forall|j: int| 0 <= j < k && #[trigger] sends_at(passes, j) implies broken_between(
                passes,
                j,
                k,
            ) by {
                if !passes[p].1 {
                    assert(j <= p && !passes[p].1);
                } else if j < p {
                    if !broken_between(passes, j, p) {
                        assert(lock_after(passes, p));
                    } else {
                        let m = choose|m: int| j <= m < p && !(#[trigger] passes[m]).1;
                        assert(j <= m < k && !passes[m].1);
                    }
                }
            }
        }
    }
}

/// Over any run of passes of the send loop, from an unlocked gate: a pass
/// sends only when the send time is reached at its start; two passes that
/// send have between them a pass that saw the send time passed (so at most
/// one send per unbroken stretch of send time); and a pass that finds the
/// send time reached sends unless an earlier send has not yet been followed
/// by such a pass.
pub proof fn law_one_send_per_run(passes: Seq<(bool, bool)>, i: int, k: int)
    requires
        0 <= k < passes.len(),
    ensures
        sends_at(passes, k) ==> passes[k].0,
        0 <= i < k && sends_at(passes, i) && sends_at(passes, k) ==> broken_between(passes, i, k),
        passes[k].0 && (forall|j: int| 0 <= j < k && #[trigger] sends_at(passes, j) ==> broken_between(
            passes,
            j,
            k,
        )) ==> sends_at(passes, k),
{
    lemma_lock_after(passes, k);
}

/// Seconds in a day.
pub open spec fn day_seconds() -> int {
    86400
}

/// The number of the day (since the Unix epoch) that the Unix time `secs`
/// falls in.
pub fn epoch_day(secs: u64) -> (d: u64)
    ensures
        d == secs / 86400,
        d * day_seconds() <= secs < (d + 1) * day_seconds(),
{
    secs / 86400
}

/// The number of the day before the one that the Unix time `secs` falls in;
/// `secs` must not lie in the first day.
pub fn previous_epoch_day(secs: u64) -> (d: u64)
    requires
        secs >= 86400,
    ensures
        d == secs / 86400 - 1,
{
    secs / 86400 - 1
}

/// The daily mail from its template: `{{DATE}}`, then `{{FOTD}}`, then
/// `{{BASE_URL}}` replaced by the date, the fact and the site's address.
pub open spec fn email_text(template: Seq<char>, date: Seq<char>, fact: Seq<char>, base_url: Seq<char>) -> Seq<char> {
    replace_all(replace_all(replace_all(template, "{{DATE}}"@, date), "{{FOTD}}"@, fact), "{{BASE_URL}}"@, base_url)
}

/// Fills in the daily mail template (see `email_text`).
pub fn render_email(template: &str, date: &str, fact: &str, base_url: &str) -> (r: String)
    ensures
        r@ == email_text(template@, date@, fact@, base_url@),
{
    proof {
        reveal_strlit("{{DATE}}");
        reveal_strlit("{{FOTD}}");
        reveal_strlit("{{BASE_URL}}");
    }
    let a = replace_str(template, "{{DATE}}", date);
    let b = replace_str(a.as_str(), "{{FOTD}}", fact);
    replace_str(b.as_str(), "{{BASE_URL}}", base_url)
}

/// The daily mail's subject: the configured subject with `&1` replaced by
/// the date.
pub fn render_subject(subject: &str, date: &str) -> (r: String)
    ensures
        r@ == replace_all(subject@, "&1"@, date@),
{
    proof {
        reveal_strlit("&1");
    }
    replace_str(subject, "&1", date)
}

} // verus!
