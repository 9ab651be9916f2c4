//! The decisions of the web routes: which request fields are accepted, how
//! the subscriber list changes, and what the fact API answers.
use vstd::prelude::*;
use crate::text::{ends_with_seq, chars_of, replace_str, replace_all, str_contains, contains_seq, free_of,
    all_of, occurs_at, lemma_replace_keeps_tail,
    to_lowercase, lowercase};
use crate::url::{try_decode_url_chars, url_decode, percent_encode, escape_bytes, law_decode_percent_encoded};
use crate::number::{parse_decimal, parse_unsigned};

verus! {

/// An answer that turns a request away.
pub struct Refusal {
    pub status: u16,
    pub text: &'static str,
}

/// What a route makes of a request field.
pub enum FieldOutcome {
    /// The field is accepted with this value.
    Accepted(String),
    /// The request is turned away.
    Refused(Refusal),
    /// The field is not well-formed URL-encoded text (see `url_decode`); the
    /// route cannot answer the request.
    Malformed,
}

/// What a route makes of a request field, as character sequences.
pub enum FieldView {
    Accepted(Seq<char>),
    Refused(u16, Seq<char>),
    Malformed,
}

impl View for FieldOutcome {
    type V = FieldView;

    open spec fn view(&self) -> FieldView {
        match self {
            FieldOutcome::Accepted(s) => FieldView::Accepted(s@),
            FieldOutcome::Refused(f) => FieldView::Refused(f.status, f.text@),
            FieldOutcome::Malformed => FieldView::Malformed,
        }
    }
}

/// The text of an optional string.
pub open spec fn opt_text(o: Option<String>) -> Option<Seq<char>> {
    match o {
        Some(s) => Some(s@),
        None => None,
    }
}

/// The check of a request field: refused with status 400 and the text
/// `missing` when it is absent, or `empty` when it is empty; otherwise
/// URL-decoded (and lower-cased where `lower`), or malformed where it does
/// not decode (see `url_decode`).
pub open spec fn field_check(v: Option<Seq<char>>, missing: Seq<char>, empty: Seq<char>, lower: bool) -> FieldView {
    match v {
        None => FieldView::Refused(400, missing),
        Some(x) => if x.len() == 0 {
            FieldView::Refused(400, empty)
        } else {
            match url_decode(x) {
                None => FieldView::Malformed,
                Some(d) => FieldView::Accepted(
                    if lower {
                        lowercase(d)
                    } else {
                        d
                    },
                ),
            }
        },
    }
}

/// A non-empty address sent percent-encoded in the subscribe form is taken
/// as its lower-case form.
pub proof fn law_subscribe_encoded_address(email: Seq<char>)
    requires
        email.len() > 0,
    ensures
        field_check(Some(percent_encode(email)), "Invalid Email"@, "Email is empty"@, true)
            == FieldView::Accepted(lowercase(email)),
{
    law_decode_percent_encoded(email);
    let b = vstd::utf8::encode_utf8(email);
    assert(b.len() > 0) by {
        let first = vstd::utf8::encode_scalar(email[0] as u32);
        assert(first.len() > 0);
        assert(b == first + vstd::utf8::encode_utf8(email.drop_first()));
    }
    assert(escape_bytes(b).len() > 0);
}

fn check_field(v: Option<String>, missing: &'static str, empty: &'static str, lower: bool) -> (r: FieldOutcome)
    ensures
        r@ == field_check(opt_text(v), missing@, empty@, lower),
{
    match v {
        None => FieldOutcome::Refused(Refusal { status: 400, text: missing }),
        Some(x) => if x.as_str().is_empty() {
            FieldOutcome::Refused(Refusal { status: 400, text: empty })
        } else {
            match try_decode_url_chars(x.as_str()) {
                None => FieldOutcome::Malformed,
                Some(d) => if lower {
                    FieldOutcome::Accepted(to_lowercase(d.as_str()))
                } else {
                    FieldOutcome::Accepted(d)
                },
            }
        },
    }
}

/// The address given to the subscribe form: refused with 400 when the
/// field is missing (`Invalid Email`) or empty (`Email is empty`);
/// otherwise URL-decoded and lower-cased.
pub fn subscribe_email(email: Option<String>) -> (r: FieldOutcome)
    ensures
        r@ == field_check(opt_text(email), "Invalid Email"@, "Email is empty"@, true),
{
    check_field(email, "Invalid Email", "Email is empty", true)
}

/// A confirmation code given in a link: refused with 400 when missing
/// (`No Code supplied???`) or empty (`Invalid Code`); otherwise URL-decoded.
pub fn confirm_code(code: Option<String>) -> (r: FieldOutcome)
    ensures
        r@ == field_check(opt_text(code), "No Code supplied???"@, "Invalid Code"@, false),
{
    check_field(code, "No Code supplied???", "Invalid Code", false)
}

/// The address kept under a confirmation code: refused with 400 when the
/// code is unknown (`Invalid Code - Sorwy`) or the address is empty
/// (`Invalid Code`); otherwise URL-decoded and lower-cased.
pub fn confirmed_email(stored: Option<String>) -> (r: FieldOutcome)
    ensures
        r@ == field_check(opt_text(stored), "Invalid Code - Sorwy"@, "Invalid Code"@, true),
{
    check_field(stored, "Invalid Code - Sorwy", "Invalid Code", true)
}

/// The fields of the unsubscribe form: the address is checked first
/// (refused with 400 `Invalid Email` when missing or empty; URL-decoded and
/// lower-cased), then the reason (refused with 400 `Invalid Reason` when
/// missing or empty; URL-decoded).
pub open spec fn unsubscribe_check(email: Option<Seq<char>>, why: Option<Seq<char>>) -> Result<(Seq<char>, Seq<char>), FieldView> {
    match field_check(email, "Invalid Email"@, "Invalid Email"@, true) {
        FieldView::Accepted(a) => match field_check(why, "Invalid Reason"@, "Invalid Reason"@, false) {
            FieldView::Accepted(b) => Ok((a, b)),
            other => Err(other),
        },
        other => Err(other),
    }
}

/// Checks the fields of the unsubscribe form (see `unsubscribe_check`).
pub fn unsubscribe_fields(email: Option<String>, why: Option<String>) -> (r: Result<(String, String), FieldOutcome>)
    ensures
        match r {
            Ok((a, b)) => unsubscribe_check(opt_text(email), opt_text(why)) == Ok::<(Seq<char>, Seq<char>), FieldView>((a@, b@)),
            Err(f) => unsubscribe_check(opt_text(email), opt_text(why)) == Err::<(Seq<char>, Seq<char>), FieldView>(f@),
        },
{
    let ghost ev = opt_text(email);
    let ghost wv = opt_text(why);
    let a = match check_field(email, "Invalid Email", "Invalid Email", true) {
        FieldOutcome::Accepted(a) => a,
        other => {
            return Err(other);
        },
    };
    let b = match check_field(why, "Invalid Reason", "Invalid Reason", false) {
        FieldOutcome::Accepted(b) => b,
        other => {
            return Err(other);
        },
    };
    Ok((a, b))
}

/// Whether the subscriber list already holds an address: it contains it
/// anywhere.
pub fn is_subscribed(list: &str, email: &str) -> (r: bool)
    ensures
        r == contains_seq(list@, email@),
{
    str_contains(list, email)
}

/// The subscriber list with an address added: carriage returns are taken
/// out, and the list is left alone (`None`) when it already contains the
/// address anywhere; otherwise the address goes on a line of its own at the
/// end, blank lines are taken out once, and a leading line break is dropped.
pub open spec fn with_subscriber(file: Seq<char>, email: Seq<char>) -> Option<Seq<char>> {
    let content = replace_all(file, "\r"@, Seq::<char>::empty());
    if contains_seq(content, email) {
        None
    } else {
        let joined = replace_all(content + "\n"@ + email, "\n\n"@, "\n"@);
        if joined.len() > 0 && joined[0] == '\n' {
            Some(joined.drop_first())
        } else {
            Some(joined)
        }
    }
}

/// A new subscriber list ends with the added address when the address holds
/// no line break: it is the list's last line.
pub proof fn law_added_address_ends_list(file: Seq<char>, email: Seq<char>)
    requires
        free_of(email, '\n'),
        with_subscriber(file, email) is Some,
    ensures
        ({
            let r = with_subscriber(file, email)->0;
            r.len() >= email.len() && r.subrange(r.len() - email.len(), r.len() as int) == email
        }),
{
    reveal_strlit("\n\n");
    reveal_strlit("\n");
    let content = replace_all(file, "\r"@, Seq::<char>::empty());
    let x = content + "\n"@;
    assert(all_of("\n\n"@, '\n'));
    lemma_replace_keeps_tail(x, email, "\n\n"@, "\n"@, '\n');
    assert(content + "\n"@ + email =~= x + email);
    let head = replace_all(x, "\n\n"@, "\n"@);
    let joined = head + email;
    if email.len() == 0 {
        assert(content.subrange(0, 0) =~= email);
        assert(occurs_at(content, email, 0));
        assert(false);
    }
    if joined[0] == '\n' && head.len() == 0 {
        assert(joined[0] == email[0]);
        assert(false);
    }
    let r = with_subscriber(file, email)->0;
    if joined.len() > 0 && joined[0] == '\n' {
        assert(r =~= head.drop_first() + email);
    } else {
        assert(r == joined);
    }
    assert(r.subrange(r.len() - email.len(), r.len() as int) =~= email);
}

/// Adds an address to the subscriber list (see `with_subscriber`); `None`
/// when the list already contains it.
pub fn add_subscriber(file: &str, email: &str) -> (r: Option<String>)
    ensures
        r is Some <==> with_subscriber(file@, email@) is Some,
        r matches Some(s) ==> s@ == with_subscriber(file@, email@)->0,
{
    proof {
        reveal_strlit("\r");
        reveal_strlit("");
        reveal_strlit("\n");
        reveal_strlit("\n\n");
    }
    assert(""@ =~= Seq::<char>::empty());
    let content = replace_str(file, "\r", "");
    if str_contains(content.as_str(), email) {
        return None;
    }
    let mut joined = content;
    joined.append("\n");
    joined.append(email);
    let squeezed = replace_str(joined.as_str(), "\n\n", "\n");
    let v = chars_of(squeezed.as_str());
    if v.len() > 0 && v[0] == '\n' {
        let r = crate::text::string_of_range(&v, 1, v.len());
        assert(v@.subrange(1, v@.len() as int) =~= v@.drop_first());
        Some(r)
    } else {
        Some(squeezed)
    }
}

/// The subscriber list with an address taken out: carriage returns are
/// taken out, then every occurrence of the address followed by a line break.
pub open spec fn without_subscriber(file: Seq<char>, email: Seq<char>) -> Seq<char> {
    replace_all(replace_all(file, "\r"@, Seq::<char>::empty()), email + "\n"@, Seq::<char>::empty())
}

/// Taking out carriage returns keeps a head that holds none.
proof fn lemma_cr_free_head(p: Seq<char>, rest: Seq<char>)
    requires
        free_of(p, '\r'),
    ensures
        replace_all(p + rest, "\r"@, Seq::<char>::empty()) == p + replace_all(
            rest,
            "\r"@,
            Seq::<char>::empty(),
        ),
{
    reveal_strlit("\r");
    assert forall|i: int| 0 <= i < p.len() implies !#[trigger] occurs_at(p + rest, "\r"@, i) by {
        if occurs_at(p + rest, "\r"@, i) {
            assert((p + rest).subrange(i, i + 1)[0] == (p + rest)[i]);
            assert((p + rest)[i] == p[i]);
        }
    }
    crate::text::lemma_replace_head_untouched(p, rest, "\r"@, Seq::<char>::empty());
}

/// Unsubscribing takes out the subscriber's own line where the list begins
/// with it: the rest of the list is then treated as if the line had never
/// been there, and a list of that one line becomes empty.
pub proof fn law_remove_leading_line(email: Seq<char>, rest: Seq<char>)
    requires
        free_of(email, '\r'),
    ensures
        without_subscriber(email + "\n"@ + rest, email) == without_subscriber(rest, email),
        without_subscriber(email + "\n"@, email) == Seq::<char>::empty(),
{
    reveal_strlit("\n");
    reveal_strlit("\r");
    let pre = email + "\n"@;
    assert(free_of(pre, '\r')) by {
        assert forall|i: int| 0 <= i < pre.len() implies pre[i] != '\r' by {
            if i < email.len() {
                assert(pre[i] == email[i]);
            }
        }
    }
    lemma_cr_free_head(pre, rest);
    let r = replace_all(rest, "\r"@, Seq::<char>::empty());
    let s = pre + r;
    assert(s.take(pre.len() as int) =~= pre);
    assert(s.skip(pre.len() as int) =~= r);
    assert(Seq::<char>::empty() + replace_all(r, pre, Seq::<char>::empty()) =~= replace_all(
        r,
        pre,
        Seq::<char>::empty(),
    ));
    let e = Seq::<char>::empty();
    lemma_cr_free_head(pre, e);
    assert(pre + e =~= pre);
    assert(replace_all(e, "\r"@, e) == e);
    assert(replace_all(pre, "\r"@, e) == pre);
    assert(pre.take(pre.len() as int) =~= pre);
    assert(pre.skip(pre.len() as int) =~= e);
    assert(replace_all(e, pre, e) == e);
    assert(replace_all(pre, pre, e) == e + replace_all(e, pre, e));
    assert(e + e =~= e);
}

/// Unsubscribing an address leaves every other subscriber's line in place:
/// a first line that is not the address (nor ends with it) is kept, and
/// the address is taken out of the rest of the list.
pub proof fn law_remove_keeps_other_line(line: Seq<char>, email: Seq<char>, rest: Seq<char>)
    requires
        free_of(line, '\n'),
        free_of(line, '\r'),
        free_of(email, '\n'),
        email.len() > 0,
        !ends_with_seq(line, email),
    ensures
        without_subscriber(line + "\n"@ + rest, email) == line + "\n"@ + without_subscriber(
            rest,
            email,
        ),
{
    reveal_strlit("\n");
    reveal_strlit("\r");
    let pre = line + "\n"@;
    assert(free_of(pre, '\r')) by {
        assert forall|i: int| 0 <= i < pre.len() implies pre[i] != '\r' by {
            if i < line.len() {
                assert(pre[i] == line[i]);
            }
        }
    }
    lemma_cr_free_head(pre, rest);
    let r = replace_all(rest, "\r"@, Seq::<char>::empty());
    let s = pre + r;
    let pat = email + "\n"@;
    let l = line.len() as int;
    let n = email.len() as int;
    assert(s[l] == '\n');
    assert forall|i: int| 0 <= i < pre.len() implies !#[trigger] occurs_at(s, pat, i) by {
        if occurs_at(s, pat, i) {
            assert forall|k: int| 0 <= k < pat.len() implies s[i + k] == pat[k] by {
                assert(s.subrange(i, i + pat.len())[k] == s[i + k]);
            }
            if i == l {
                assert(s[i + 0] == pat[0]);
                assert(pat[0] == email[0]);
            } else if l - i < n {
                assert(s[i + (l - i)] == pat[l - i]);
                assert(pat[l - i] == email[l - i]);
            } else if l - i == n {
                assert(line.skip(l - n) =~= email) by {
                    assert forall|k: int| 0 <= k < n implies line.skip(l - n)[k] == email[k] by {
                        assert(s[i + k] == pat[k]);
                        assert(s[i + k] == line[i + k]);
                    }
                }
            } else {
                assert(s[i + n] == pat[n]);
                assert(s[i + n] == line[i + n]);
            }
        }
    }
    crate::text::lemma_replace_head_untouched(pre, r, pat, Seq::<char>::empty());
}

/// Takes an address out of the subscriber list (see `without_subscriber`).
pub fn remove_subscriber(file: &str, email: &str) -> (r: String)
    ensures
        r@ == without_subscriber(file@, email@),
{
    proof {
        reveal_strlit("\r");
        reveal_strlit("");
        reveal_strlit("\n");
    }
    assert(""@ =~= Seq::<char>::empty());
    let content = replace_str(file, "\r", "");
    let mut line = email.to_owned();
    line.append("\n");
    replace_str(content.as_str(), line.as_str(), "")
}

/// What an answer of the fact API is, as plain values: a value, or a
/// refusal's status and text.
pub open spec fn answer<T>(r: Result<T, Refusal>) -> Result<T, (u16, Seq<char>)> {
    match r {
        Ok(v) => Ok(v),
        Err(f) => Err((f.status, f.text@)),
    }
}

/// The value of a decimal `usize` text, if it is one.
pub open spec fn usize_text(s: Seq<char>) -> Option<nat> {
    parse_unsigned(s, 10, usize::MAX as nat)
}

/// The day of a Unix time given as text, or the refusal
/// `400 Epoch must be a USIZE` where the text is no `usize`.
pub open spec fn epoch_day_answer(epoch: Seq<char>) -> Result<usize, (u16, Seq<char>)> {
    match usize_text(epoch) {
        Some(e) => Ok((e / 86400) as usize),
        None => Err((400, "Epoch must be a USIZE"@)),
    }
}

/// The day (since the Unix epoch) of a Unix time given as text (see
/// `epoch_day_answer`).
pub fn fact_at_day(epoch: &str) -> (r: Result<usize, Refusal>)
    ensures
        answer(r) == epoch_day_answer(epoch@),
{
    match parse_decimal(epoch, usize::MAX as u64) {
        Some(e) => Ok((e / 86400) as usize),
        None => Err(Refusal { status: 400, text: "Epoch must be a USIZE" }),
    }
}

/// The days of a range of Unix times given as text: refused with 400 when
/// the start is no `usize` (`Start epoch must be a USIZE`), when the end is
/// none (`End epoch must be a USIZE`), or when the start day comes after the
/// end day (`End epoch must be after the start epoch.`).
pub open spec fn range_answer(start: Seq<char>, end: Seq<char>) -> Result<(usize, usize), (u16, Seq<char>)> {
    match usize_text(start) {
        None => Err((400, "Start epoch must be a USIZE"@)),
        Some(s) => match usize_text(end) {
            None => Err((400, "End epoch must be a USIZE"@)),
            Some(e) => if s / 86400 > e / 86400 {
                Err((400, "End epoch must be after the start epoch."@))
            } else {
                Ok(((s / 86400) as usize, (e / 86400) as usize))
            },
        },
    }
}

/// The days of a range of Unix times given as text (see `range_answer`);
/// the start day never comes after the end day.
pub fn fact_range_days(start: &str, end: &str) -> (r: Result<(usize, usize), Refusal>)
    ensures
        answer(r) == range_answer(start@, end@),
        r matches Ok((a, b)) ==> a <= b,
{
    let s = match parse_decimal(start, usize::MAX as u64) {
        Some(s) => (s / 86400) as usize,
        None => {
            return Err(Refusal { status: 400, text: "Start epoch must be a USIZE" });
        },
    };
    let e = match parse_decimal(end, usize::MAX as u64) {
        Some(e) => (e / 86400) as usize,
        None => {
            return Err(Refusal { status: 400, text: "End epoch must be a USIZE" });
        },
    };
    if s > e {
        return Err(Refusal { status: 400, text: "End epoch must be after the start epoch." });
    }
    Ok((s, e))
}

/// The page and page size of a fact-history request, and the offset of the
/// page's first fact: a missing page is 0, a missing size 20; `None` where a
/// given value is no `usize` or the offset `size * page` does not fit.
pub open spec fn history_answer(page: Option<Seq<char>>, size: Option<Seq<char>>) -> Option<(usize, usize, usize)> {
    let p = match page {
        Some(t) => usize_text(t),
        None => Some(0nat),
    };
    let s = match size {
        Some(t) => usize_text(t),
        None => Some(20nat),
    };
    match (p, s) {
        (Some(p), Some(s)) => if s * p <= usize::MAX {
            Some((p as usize, s as usize, (s * p) as usize))
        } else {
            None
        },
        _ => None,
    }
}

/// Reads the page and page size of a fact-history request (see
/// `history_answer`).
pub fn history_params(page: Option<String>, size: Option<String>) -> (r: Option<(usize, usize, usize)>)
    ensures
        r == history_answer(opt_text(page), opt_text(size)),
{
    let ghost pv = opt_text(page);
    let ghost sv = opt_text(size);
    let p: usize = match page {
        Some(t) => match parse_decimal(t.as_str(), usize::MAX as u64) {
            Some(v) => v as usize,
            None => {
                return None;
            },
        },
        None => 0,
    };
    let s: usize = match size {
        Some(t) => match parse_decimal(t.as_str(), usize::MAX as u64) {
            Some(v) => v as usize,
            None => {
                return None;
            },
        },
        None => 20,
    };
    match s.checked_mul(p) {
        Some(o) => Some((p, s, o)),
        None => None,
    }
}

/// Whether a user agent is the home-screen widget that gets the fact as
/// plain text: it contains `ScriptableWidget`.
pub fn is_widget_agent(agent: &str) -> (r: bool)
    ensures
        r == contains_seq(agent@, "ScriptableWidget"@),
{
    str_contains(agent, "ScriptableWidget")
}

/// The fact page: its template with `{{FACT}}` replaced by the fact.
pub fn render_fact_page(template: &str, fact: &str) -> (r: String)
    ensures
        r@ == replace_all(template@, "{{FACT}}"@, fact@),
{
    proof {
        reveal_strlit("{{FACT}}");
    }
    replace_str(template, "{{FACT}}", fact)
}

/// A page or mail template with `{{NAME}}`-style place holders: `pattern`
/// replaced by `value`.
pub fn fill(template: &str, pattern: &str, value: &str) -> (r: String)
    requires
        pattern@.len() > 0,
    ensures
        r@ == replace_all(template@, pattern@, value@),
{
    replace_str(template, pattern, value)
}


/// An ASCII letter or digit.
pub open spec fn is_alphanumeric(c: char) -> bool {
    ('a' <= c && c <= 'z') || ('A' <= c && c <= 'Z') || ('0' <= c && c <= '9')
}

/// `n` characters drawn by `rand::thread_rng()` from
/// `rand::distributions::Alphanumeric` (ASCII letters and digits, as its
/// documentation says), gathered into a string. Which characters come is
/// chance; only their number and kind are stated.
#[verifier::external_body]
fn random_alphanumeric(n: usize) -> (r: String)
    ensures
        r@.len() == n,
        forall|i: int| 0 <= i < n ==> is_alphanumeric(#[trigger] r@[i]),
{
    rand::Rng::sample_iter(rand::thread_rng(), &rand::distributions::Alphanumeric).take(n).map(char::from).collect()
}

/// `rand::Rng::gen_range(&mut rand::thread_rng(), 0..n)` for `n > 0`: a number below `n`;
/// which one is chance.
#[verifier::external_body]
fn random_below(n: usize) -> (r: usize)
    requires
        n > 0,
    ensures
        r < n,
{
    rand::Rng::gen_range(&mut rand::thread_rng(), 0..n)
}

/// The path of the page that confirms a subscription or an unsubscription.
pub open spec fn confirm_path(unsubscribe: bool) -> Seq<char> {
    if unsubscribe {
        "/unsubscribe/confirm?code="@
    } else {
        "/subscribe/confirm?code="@
    }
}

/// A new confirmation code (ten random ASCII letters and digits) and the
/// link under the site's address `web_url` that confirms with it.
pub fn new_confirmation(web_url: &str, unsubscribe: bool) -> (r: (String, String))
    ensures
        r.0@.len() == 10,
        forall|i: int| 0 <= i < 10 ==> is_alphanumeric(#[trigger] r.0@[i]),
        r.1@ == web_url@ + confirm_path(unsubscribe) + r.0@,
{
    let code = random_alphanumeric(10);
    let mut url = web_url.to_owned();
    if unsubscribe {
        url.append("/unsubscribe/confirm?code=");
    } else {
        url.append("/subscribe/confirm?code=");
    }
    url.append(code.as_str());
    (code, url)
}

/// A line shown to someone who unsubscribed, with its author.
pub struct Quote {
    pub quote: &'static str,
    pub author: &'static str,
}

/// The quotes that the unsubscribe page picks from.
pub open spec fn quotes() -> Seq<(Seq<char>, Seq<char>)> {
    seq![
        ("Go, throw yourself into the sea!"@, "Jesus"@),
        ("Im not mad im just dissapointed"@, "Every Parent Ever"@),
        ("a threat to justice everywhere"@, "Martin Luther King JR"@),
        ("worse than savage mobs"@, "Abraham Lincon"@),
        ("Simba, I'm very disappointed in you."@, "Mufasa"@),
    ]
}

/// The quote at index `i` of `quotes`.
pub fn quote_at(i: usize) -> (q: Quote)
    requires
        i < 5,
    ensures
        (q.quote@, q.author@) == quotes()[i as int],
{
    if i == 0 {
        Quote { quote: "Go, throw yourself into the sea!", author: "Jesus" }
    } else if i == 1 {
        Quote { quote: "Im not mad im just dissapointed", author: "Every Parent Ever" }
    } else if i == 2 {
        Quote { quote: "a threat to justice everywhere", author: "Martin Luther King JR" }
    } else if i == 3 {
        Quote { quote: "worse than savage mobs", author: "Abraham Lincon" }
    } else {
        Quote { quote: "Simba, I'm very disappointed in you.", author: "Mufasa" }
    }
}

/// A quote picked at random from `quotes`.
pub fn random_quote() -> (q: Quote)
    ensures
        exists|i: int| 0 <= i < 5 && (q.quote@, q.author@) == #[trigger] quotes()[i],
{
    let i = random_below(5);
    let q = quote_at(i);
    assert((q.quote@, q.author@) == quotes()[i as int]);
    q
}

} // verus!
