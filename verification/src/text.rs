//! Character-level string toolkit shared by the rest of the library.
//!
//! Every operation works on the character sequence `s@` of a string and is
//! specified by a spec function over `Seq<char>`.
use vstd::prelude::*;

verus! {

/// `String::push`: appends one character to the end of the string.
#[verifier::external_body]
pub(crate) fn push_char(s: &mut String, c: char)
    ensures
        final(s)@ == old(s)@.push(c),
{
    s.push(c);
}

/// The characters of `s`, in order.
pub fn chars_of(s: &str) -> (v: Vec<char>)
    ensures
        v@ == s@,
{
    let n = s.unicode_len();
    let mut v: Vec<char> = Vec::new();
    for i in 0..n
        invariant
            n == s@.len(),
            v@ == s@.take(i as int),
    {
        v.push(s.get_char(i));
        assert(s@.take(i + 1) =~= s@.take(i as int).push(s@[i as int]));
    }
    assert(s@.take(n as int) =~= s@);
    v
}

/// The string made of the characters `v[start..end]`.
pub fn string_of_range(v: &Vec<char>, start: usize, end: usize) -> (s: String)
    requires
        start <= end <= v.len(),
    ensures
        s@ == v@.subrange(start as int, end as int),
{
    let mut s = String::new();
    let mut i = start;
    while i < end
        invariant
            start <= i <= end <= v.len(),
            s@ == v@.subrange(start as int, i as int),
        decreases end - i,
    {
        push_char(&mut s, v[i]);
        assert(v@.subrange(start as int, i + 1) =~= v@.subrange(start as int, i as int).push(v@[i as int]));
        i += 1;
    }
    s
}

/// The string made of all the characters of `v`.
pub fn string_of(v: &Vec<char>) -> (s: String)
    ensures
        s@ == v@,
{
    let s = string_of_range(v, 0, v.len());
    assert(v@.subrange(0, v.len() as int) =~= v@);
    s
}


/// Index of the first occurrence of `c` in `s`, or `s.len()` when `c` does not occur.
pub open spec fn char_pos(s: Seq<char>, c: char) -> nat
    decreases s.len(),
{
    if s.len() == 0 {
        0
    } else if s[0] == c {
        0
    } else {
        1 + char_pos(s.drop_first(), c)
    }
}

/// The pieces of `s` between occurrences of `c`, as `str::split` with a
/// character pattern yields them: always at least one piece.
pub open spec fn split_char(s: Seq<char>, c: char) -> Seq<Seq<char>>
    decreases s.len(),
{
    let k = char_pos(s, c);
    if k < s.len() {
        seq![s.take(k as int)] + split_char(s.skip(k + 1 as int), c)
    } else {
        seq![s]
    }
}

/// `c` does not occur in `s`.
pub open spec fn free_of(s: Seq<char>, c: char) -> bool {
    forall|i: int| 0 <= i < s.len() ==> s[i] != c
}

/// `char_pos` is the first index holding `c`.
pub proof fn lemma_char_pos(s: Seq<char>, c: char)
    ensures
        char_pos(s, c) <= s.len(),
        forall|j: int| 0 <= j < char_pos(s, c) ==> s[j] != c,
        char_pos(s, c) < s.len() ==> s[char_pos(s, c) as int] == c,
    decreases s.len(),
{
    if s.len() > 0 && s[0] != c {
        lemma_char_pos(s.drop_first(), c);
        assert forall|j: int| 0 <= j < char_pos(s, c) implies s[j] != c by {
            if j > 0 {
                assert(s[j] == s.drop_first()[j - 1]);
            }
        }
    }
}

/// A position `k` before which `c` does not occur, and at which `c` occurs
/// (or which is the end), is `char_pos`.
pub proof fn lemma_char_pos_at(s: Seq<char>, c: char, k: int)
    requires
        0 <= k <= s.len(),
        free_of(s.take(k), c),
        k < s.len() ==> s[k] == c,
    ensures
        char_pos(s, c) == k,
    decreases s.len(),
{
    if s.len() > 0 && k > 0 {
        assert(s.take(k)[0] == s[0]);
        assert(s.drop_first().take(k - 1) =~= s.take(k).drop_first());
        assert forall|i: int| 0 <= i < k - 1 implies
            #[trigger] s.drop_first().take(k - 1)[i] != c by {
            assert(s.take(k)[i + 1] == s.drop_first().take(k - 1)[i]);
        }
        lemma_char_pos_at(s.drop_first(), c, k - 1);
    }
}

/// Splitting a string whose prefix before position `k` is free of `c` and
/// which holds `c` at `k`.
pub proof fn lemma_split_step(s: Seq<char>, c: char, k: int)
    requires
        0 <= k < s.len(),
        free_of(s.take(k), c),
        s[k] == c,
    ensures
        split_char(s, c) == seq![s.take(k)] + split_char(s.skip(k + 1), c),
{
    lemma_char_pos_at(s, c, k);
}

/// Splitting a string that is free of `c` yields the string itself.
pub proof fn lemma_split_free(s: Seq<char>, c: char)
    requires
        free_of(s, c),
    ensures
        split_char(s, c) == seq![s],
{
    assert(s.take(s.len() as int) =~= s);
    lemma_char_pos_at(s, c, s.len() as int);
}

/// The pieces joined with `c` between each two of them.
pub open spec fn join_with(pieces: Seq<Seq<char>>, c: char) -> Seq<char>
    decreases pieces.len(),
{
    if pieces.len() == 0 {
        seq![]
    } else if pieces.len() == 1 {
        pieces[0]
    } else {
        pieces[0] + seq![c] + join_with(pieces.drop_first(), c)
    }
}

/// Splitting pieces that were joined with a character none of them holds
/// gives the pieces back.
pub proof fn lemma_split_join(pieces: Seq<Seq<char>>, c: char)
    requires
        pieces.len() > 0,
        forall|i: int| 0 <= i < pieces.len() ==> free_of(#[trigger] pieces[i], c),
    ensures
        split_char(join_with(pieces, c), c) == pieces,
    decreases pieces.len(),
{
    if pieces.len() == 1 {
        lemma_split_free(pieces[0], c);
        assert(seq![pieces[0]] =~= pieces);
    } else {
        let p = pieces[0];
        let rest = join_with(pieces.drop_first(), c);
        let s = p + seq![c] + rest;
        assert(free_of(p, c));
        assert(s.take(p.len() as int) =~= p);
        assert(s.skip(p.len() + 1 as int) =~= rest);
        lemma_split_step(s, c, p.len() as int);
        assert forall|i: int| 0 <= i < pieces.drop_first().len() implies free_of(#[trigger] pieces.drop_first()[i], c) by {
            assert(pieces.drop_first()[i] == pieces[i + 1]);
        }
        lemma_split_join(pieces.drop_first(), c);
        assert(seq![p] + pieces.drop_first() =~= pieces);
    }
}

/// The pieces of `v@` between occurrences of `c` (`str::split` with a character).
pub fn split_chars(v: &Vec<char>, c: char) -> (pieces: Vec<Vec<char>>)
    ensures
        pieces.len() == split_char(v@, c).len(),
        forall|i: int| 0 <= i < pieces.len() ==> #[trigger] pieces[i]@ == split_char(v@, c)[i],
{
    let n = v.len();
    let mut pieces: Vec<Vec<char>> = Vec::new();
    let mut cur: Vec<char> = Vec::new();
    let mut start: usize = 0;
    let ghost mut acc: Seq<Seq<char>> = seq![];
    assert(v@.skip(0) =~= v@);
    for i in 0..n
        invariant
            n == v.len(),
            start <= i,
            cur@ == v@.subrange(start as int, i as int),
            free_of(cur@, c),
            acc.len() == pieces.len(),
            forall|j: int| 0 <= j < pieces.len() ==> #[trigger] pieces[j]@ == acc[j],
            acc + split_char(v@.skip(start as int), c) == split_char(v@, c),
    {
        let ch = v[i];
        if ch == c {
            proof {
                let r = v@.skip(start as int);
                assert(r.take(i - start) =~= cur@);
                assert(r[i - start] == c);
                lemma_split_step(r, c, i - start);
                assert(r.skip(i - start + 1) =~= v@.skip(i + 1));
                assert(acc.push(cur@) + split_char(v@.skip(i + 1), c) =~= acc + split_char(r, c));
                acc = acc.push(cur@);
            }
            pieces.push(cur);
            cur = Vec::new();
            start = i + 1;
            assert(cur@ =~= v@.subrange(start as int, (i + 1) as int));
        } else {
            cur.push(ch);
            assert(cur@ =~= v@.subrange(start as int, (i + 1) as int));
        }
    }
    proof {
        let r = v@.skip(start as int);
        assert(r =~= cur@);
        lemma_split_free(r, c);
        assert(acc.push(cur@) =~= acc + split_char(r, c));
    }
    pieces.push(cur);
    pieces
}


/// `pat` occurs in `s` at index `i`.
pub open spec fn occurs_at(s: Seq<char>, pat: Seq<char>, i: int) -> bool {
    0 <= i && i + pat.len() <= s.len() && s.subrange(i, i + pat.len()) == pat
}

/// `pat` occurs somewhere in `s` (`str::contains`).
pub open spec fn contains_seq(s: Seq<char>, pat: Seq<char>) -> bool {
    exists|i: int| occurs_at(s, pat, i)
}

/// `s` begins with `pat` (`str::starts_with`).
pub open spec fn starts_with_seq(s: Seq<char>, pat: Seq<char>) -> bool {
    pat.len() <= s.len() && s.take(pat.len() as int) == pat
}

/// `s` ends with `pat` (`str::ends_with`).
pub open spec fn ends_with_seq(s: Seq<char>, pat: Seq<char>) -> bool {
    pat.len() <= s.len() && s.skip(s.len() - pat.len()) == pat
}

/// `s` with every occurrence of `pat`, found from the left without overlap,
/// replaced by `rep` (`str::replace` with a non-empty pattern).
pub open spec fn replace_all(s: Seq<char>, pat: Seq<char>, rep: Seq<char>) -> Seq<char>
    decreases s.len(),
{
    if pat.len() == 0 || s.len() < pat.len() {
        s
    } else if s.take(pat.len() as int) == pat {
        rep + replace_all(s.skip(pat.len() as int), pat, rep)
    } else {
        seq![s[0]] + replace_all(s.drop_first(), pat, rep)
    }
}

/// Whether `pat@` occurs in `v@` at index `i`.
pub fn occurs_at_exec(v: &Vec<char>, pat: &Vec<char>, i: usize) -> (r: bool)
    ensures
        r == occurs_at(v@, pat@, i as int),
{
    if i > v.len() || pat.len() > v.len() - i {
        return false;
    }
    let m = pat.len();
    for j in 0..m
        invariant
            m == pat.len(),
            i + m <= v.len(),
            forall|k: int| 0 <= k < j ==> v@[i + k] == pat@[k],
    {
        if v[i + j] != pat[j] {
            assert(v@.subrange(i as int, i + m)[j as int] != pat@[j as int]);
            return false;
        }
    }
    assert(v@.subrange(i as int, i + m) =~= pat@);
    true
}

/// Whether `a@ == b@`.
pub fn chars_eq(a: &Vec<char>, b: &Vec<char>) -> (r: bool)
    ensures
        r == (a@ == b@),
{
    if a.len() != b.len() {
        return false;
    }
    let n = a.len();
    for j in 0..n
        invariant
            n == a.len(),
            n == b.len(),
            forall|k: int| 0 <= k < j ==> a@[k] == b@[k],
    {
        if a[j] != b[j] {
            return false;
        }
    }
    assert(a@ =~= b@);
    true
}

/// Whether two strings hold the same characters.
pub fn str_eq(a: &str, b: &str) -> (r: bool)
    ensures
        r == (a@ == b@),
{
    let va = chars_of(a);
    let vb = chars_of(b);
    chars_eq(&va, &vb)
}

/// Whether `s` contains `pat` (`str::contains`).
pub fn str_contains(s: &str, pat: &str) -> (r: bool)
    ensures
        r == contains_seq(s@, pat@),
{
    let v = chars_of(s);
    let p = chars_of(pat);
    let n = v.len();
    let m = p.len();
    if m == 0 {
        assert(s@.subrange(0, 0) =~= pat@);
        assert(occurs_at(s@, pat@, 0));
        return true;
    }
    if m > n {
        return false;
    }
    let last = n - m;
    let mut i: usize = 0;
    while i <= last
        invariant
            n == v.len(),
            m == p.len(),
            m >= 1,
            last + m == n,
            v@ == s@,
            p@ == pat@,
            forall|k: int| 0 <= k < i ==> !occurs_at(s@, pat@, k),
        decreases last + 1 - i,
    {
        if occurs_at_exec(&v, &p, i) {
            return true;
        }
        i += 1;
    }
    false
}

/// Whether `s` begins with `pat` (`str::starts_with`).
pub fn str_starts_with(s: &str, pat: &str) -> (r: bool)
    ensures
        r == starts_with_seq(s@, pat@),
{
    let v = chars_of(s);
    let p = chars_of(pat);
    let r = occurs_at_exec(&v, &p, 0);
    proof {
        if p@.len() <= v@.len() {
            assert(v@.subrange(0, p@.len() as int) =~= v@.take(p@.len() as int));
        }
    }
    r
}

/// One step of `replace_all` at a position where `pat` occurs.
pub proof fn lemma_replace_hit(s: Seq<char>, pat: Seq<char>, rep: Seq<char>, i: int)
    requires
        pat.len() > 0,
        occurs_at(s, pat, i),
    ensures
        replace_all(s.skip(i), pat, rep) == rep + replace_all(s.skip(i + pat.len()), pat, rep),
{
    let t = s.skip(i);
    assert(t.take(pat.len() as int) =~= s.subrange(i, i + pat.len()));
    assert(t.skip(pat.len() as int) =~= s.skip(i + pat.len()));
}

/// One step of `replace_all` at a position where `pat` does not occur.
pub proof fn lemma_replace_miss(s: Seq<char>, pat: Seq<char>, rep: Seq<char>, i: int)
    requires
        pat.len() > 0,
        0 <= i < s.len(),
        !occurs_at(s, pat, i),
    ensures
        replace_all(s.skip(i), pat, rep) == seq![s[i]] + replace_all(s.skip(i + 1), pat, rep),
{
    let t = s.skip(i);
    assert(t.drop_first() =~= s.skip(i + 1));
    if t.len() >= pat.len() {
        assert(t.take(pat.len() as int) =~= s.subrange(i, i + pat.len()));
    } else {
        lemma_replace_short(s.skip(i + 1), pat, rep);
        assert(t =~= seq![s[i]] + s.skip(i + 1));
    }
}

/// A string shorter than the pattern is left as it is.
pub proof fn lemma_replace_short(s: Seq<char>, pat: Seq<char>, rep: Seq<char>)
    requires
        s.len() < pat.len(),
    ensures
        replace_all(s, pat, rep) == s,
{
}

/// `s` with every occurrence of `pat` replaced by `rep` (`str::replace`).
pub fn replace_str(s: &str, pat: &str, rep: &str) -> (r: String)
    requires
        pat@.len() > 0,
    ensures
        r@ == replace_all(s@, pat@, rep@),
{
    let v = chars_of(s);
    let p = chars_of(pat);
    let n = v.len();
    let mut out = String::new();
    let mut i: usize = 0;
    assert(v@.skip(0) =~= v@);
    while i < n
        invariant
            n == v.len(),
            v@ == s@,
            p@ == pat@,
            pat@.len() > 0,
            i <= n,
            out@ + replace_all(s@.skip(i as int), pat@, rep@) == replace_all(s@, pat@, rep@),
        decreases n - i,
    {
        if occurs_at_exec(&v, &p, i) {
            proof {
                lemma_replace_hit(s@, pat@, rep@, i as int);
                assert(out@ + rep@ + replace_all(s@.skip(i + pat@.len()), pat@, rep@)
                    =~= out@ + (rep@ + replace_all(s@.skip(i + pat@.len()), pat@, rep@)));
            }
            out.append(rep);
            i = i + p.len();
        } else {
            proof {
                lemma_replace_miss(s@, pat@, rep@, i as int);
                assert(out@.push(s@[i as int]) + replace_all(s@.skip(i + 1), pat@, rep@)
                    =~= out@ + (seq![s@[i as int]] + replace_all(s@.skip(i + 1), pat@, rep@)));
            }
            push_char(&mut out, v[i]);
            i = i + 1;
        }
    }
    proof {
        assert(s@.skip(i as int).len() == 0);
        assert(out@ + s@.skip(i as int) =~= out@);
    }
    out
}

/// A head in which no occurrence of the pattern starts is kept as it is:
/// `replace_all(p + y) == p + replace_all(y)`.
pub proof fn lemma_replace_head_untouched(p: Seq<char>, y: Seq<char>, pat: Seq<char>, rep: Seq<char>)
    requires
        pat.len() > 0,
        forall|i: int| 0 <= i < p.len() ==> !#[trigger] occurs_at(p + y, pat, i),
    ensures
        replace_all(p + y, pat, rep) == p + replace_all(y, pat, rep),
    decreases p.len(),
{
    let s = p + y;
    if p.len() == 0 {
        assert(s =~= y);
        assert(p + replace_all(y, pat, rep) =~= replace_all(y, pat, rep));
    } else if s.len() < pat.len() {
        lemma_replace_short(y, pat, rep);
    } else {
        assert(!occurs_at(s, pat, 0));
        assert(s.subrange(0, pat.len() as int) =~= s.take(pat.len() as int));
        assert(s.drop_first() =~= p.drop_first() + y);
        assert forall|i: int| 0 <= i < p.drop_first().len() implies !#[trigger] occurs_at(
            p.drop_first() + y,
            pat,
            i,
        ) by {
            assert(!occurs_at(s, pat, i + 1));
            if occurs_at(p.drop_first() + y, pat, i) {
                assert((p.drop_first() + y).subrange(i, i + pat.len()) =~= s.subrange(
                    i + 1,
                    i + 1 + pat.len(),
                ));
            }
        }
        lemma_replace_head_untouched(p.drop_first(), y, pat, rep);
        assert(s[0] == p[0]);
        assert(seq![p[0]] + (p.drop_first() + replace_all(y, pat, rep)) =~= p + replace_all(
            y,
            pat,
            rep,
        ));
    }
}

/// A string that does not contain the pattern is left as it is.
pub proof fn lemma_replace_absent(s: Seq<char>, pat: Seq<char>, rep: Seq<char>)
    requires
        pat.len() > 0,
        !contains_seq(s, pat),
    ensures
        replace_all(s, pat, rep) == s,
    decreases s.len(),
{
    if s.len() >= pat.len() {
        assert(!occurs_at(s, pat, 0));
        assert(s.subrange(0, pat.len() as int) =~= s.take(pat.len() as int));
        assert forall|i: int| !occurs_at(s.drop_first(), pat, i) by {
            if occurs_at(s.drop_first(), pat, i) {
                assert(s.drop_first().subrange(i, i + pat.len()) =~= s.subrange(i + 1, i + 1 + pat.len()));
                assert(occurs_at(s, pat, i + 1));
            }
        }
        lemma_replace_absent(s.drop_first(), pat, rep);
        assert(seq![s[0]] + s.drop_first() =~= s);
    }
}


/// Whether a character has the Unicode `White_Space` property (PropList.txt,
/// unchanged since Unicode 6.3): U+0009 to U+000D, U+0020, U+0085, U+00A0,
/// U+1680, U+2000 to U+200A, U+2028, U+2029, U+202F, U+205F and U+3000.
pub open spec fn is_white_space(c: char) -> bool {
    let u = c as u32;
    ||| 0x9 <= u <= 0xd
    ||| u == 0x20
    ||| u == 0x85
    ||| u == 0xa0
    ||| u == 0x1680
    ||| 0x2000 <= u <= 0x200a
    ||| u == 0x2028
    ||| u == 0x2029
    ||| u == 0x202f
    ||| u == 0x205f
    ||| u == 0x3000
}

/// `char::is_whitespace`: whether the character has the Unicode
/// `White_Space` property (see `is_white_space`).
#[verifier::external_body]
pub(crate) fn char_is_whitespace(c: char) -> (r: bool)
    ensures
        r == is_white_space(c),
{
    c.is_whitespace()
}

/// `s` without its leading white space.
pub open spec fn trim_start_seq(s: Seq<char>) -> Seq<char>
    decreases s.len(),
{
    if s.len() > 0 && is_white_space(s[0]) {
        trim_start_seq(s.drop_first())
    } else {
        s
    }
}

/// `s` without its trailing white space.
pub open spec fn trim_end_seq(s: Seq<char>) -> Seq<char>
    decreases s.len(),
{
    if s.len() > 0 && is_white_space(s.last()) {
        trim_end_seq(s.drop_last())
    } else {
        s
    }
}

/// `s` without leading and trailing white space (`str::trim`).
pub open spec fn trim_seq(s: Seq<char>) -> Seq<char> {
    trim_end_seq(trim_start_seq(s))
}

proof fn lemma_trim_start_at(s: Seq<char>, a: int)
    requires
        0 <= a <= s.len(),
        forall|i: int| 0 <= i < a ==> is_white_space(#[trigger] s[i]),
        a < s.len() ==> !is_white_space(s[a]),
    ensures
        trim_start_seq(s) == s.skip(a),
    decreases s.len(),
{
    if a == 0 {
        assert(s.skip(0) =~= s);
    } else {
        assert(is_white_space(s[0]));
        assert forall|i: int| 0 <= i < a - 1 implies is_white_space(#[trigger] s.drop_first()[i]) by {
            assert(s.drop_first()[i] == s[i + 1]);
        }
        lemma_trim_start_at(s.drop_first(), a - 1);
        assert(s.drop_first().skip(a - 1) =~= s.skip(a));
    }
}

proof fn lemma_trim_end_at(s: Seq<char>, b: int)
    requires
        0 <= b <= s.len(),
        forall|i: int| b <= i < s.len() ==> is_white_space(#[trigger] s[i]),
        b > 0 ==> !is_white_space(s[b - 1]),
    ensures
        trim_end_seq(s) == s.take(b),
    decreases s.len(),
{
    if b == s.len() {
        assert(s.take(b) =~= s);
    } else {
        assert(is_white_space(s[s.len() - 1]));
        assert forall|i: int| b <= i < s.len() - 1 implies is_white_space(#[trigger] s.drop_last()[i]) by {
            assert(s.drop_last()[i] == s[i]);
        }
        lemma_trim_end_at(s.drop_last(), b);
        assert(s.drop_last().take(b) =~= s.take(b));
    }
}

/// The characters of `v[start..end]` without leading and trailing white space.
pub fn trim_range(v: &Vec<char>, start: usize, end: usize) -> (r: String)
    requires
        start <= end <= v.len(),
    ensures
        r@ == trim_seq(v@.subrange(start as int, end as int)),
{
    let ghost s = v@.subrange(start as int, end as int);
    let mut a = start;
    while a < end && char_is_whitespace(v[a])
        invariant
            start <= a <= end <= v.len(),
            s == v@.subrange(start as int, end as int),
            forall|i: int| start <= i < a ==> is_white_space(#[trigger] v@[i]),
        decreases end - a,
    {
        a += 1;
    }
    proof {
        assert forall|i: int| 0 <= i < a - start implies is_white_space(#[trigger] s[i]) by {
            assert(s[i] == v@[start + i]);
        }
        lemma_trim_start_at(s, a - start);
    }
    let mut b = end;
    while b > a && char_is_whitespace(v[b - 1])
        invariant
            start <= a <= b <= end <= v.len(),
            forall|i: int| b <= i < end ==> is_white_space(#[trigger] v@[i]),
        decreases b - a,
    {
        b -= 1;
    }
    proof {
        let t = s.skip(a - start);
        assert(t =~= v@.subrange(a as int, end as int));
        assert forall|i: int| b - a <= i < t.len() implies is_white_space(#[trigger] t[i]) by {
            assert(t[i] == v@[a + i]);
        }
        lemma_trim_end_at(t, b - a);
        assert(t.take(b - a) =~= v@.subrange(a as int, b as int));
    }
    string_of_range(v, a, b)
}

/// `s` without leading and trailing white space (`str::trim`).
pub fn trim_str(s: &str) -> (r: String)
    ensures
        r@ == trim_seq(s@),
{
    let v = chars_of(s);
    let r = trim_range(&v, 0, v.len());
    assert(v@.subrange(0, v@.len() as int) =~= s@);
    r
}

/// The lower-case form of `s`, as `str::to_lowercase` computes it by the
/// Unicode case tables.
pub uninterp spec fn lowercase(s: Seq<char>) -> Seq<char>;

/// `str::to_lowercase`: the result is the named lower-case form of the
/// argument's characters; the case tables themselves are not stated.
#[verifier::external_body]
pub(crate) fn to_lowercase(s: &str) -> (r: String)
    ensures
        r@ == lowercase(s@),
{
    s.to_lowercase()
}


/// All characters of `s` are `c`.
pub open spec fn all_of(s: Seq<char>, c: char) -> bool {
    forall|i: int| 0 <= i < s.len() ==> s[i] == c
}

/// Replacing a pattern made only of `c` leaves alone a tail that holds no
/// `c`: `replace_all(x + e) == replace_all(x) + e`.
pub proof fn lemma_replace_keeps_tail(x: Seq<char>, e: Seq<char>, pat: Seq<char>, rep: Seq<char>, c: char)
    requires
        pat.len() > 0,
        all_of(pat, c),
        free_of(e, c),
    ensures
        replace_all(x + e, pat, rep) == replace_all(x, pat, rep) + e,
    decreases x.len(),
{
    let s = x + e;
    if x.len() == 0 {
        assert(s =~= e);
        assert forall|i: int| !occurs_at(e, pat, i) by {
            if occurs_at(e, pat, i) {
                assert(e.subrange(i, i + pat.len())[0] == pat[0]);
            }
        }
        lemma_replace_absent(e, pat, rep);
        assert(replace_all(x, pat, rep) =~= x);
        assert(x + e =~= e);
    } else if s.len() < pat.len() {
        lemma_replace_short(x, pat, rep);
    } else if s.take(pat.len() as int) == pat {
        if x.len() < pat.len() {
            assert(s.take(pat.len() as int)[x.len() as int] == e[0]);
            assert(false);
        }
        assert(x.take(pat.len() as int) =~= s.take(pat.len() as int));
        assert(s.skip(pat.len() as int) =~= x.skip(pat.len() as int) + e);
        lemma_replace_keeps_tail(x.skip(pat.len() as int), e, pat, rep, c);
        assert(rep + (replace_all(x.skip(pat.len() as int), pat, rep) + e) =~= rep + replace_all(
            x.skip(pat.len() as int),
            pat,
            rep,
        ) + e);
    } else {
        assert(s.drop_first() =~= x.drop_first() + e);
        assert(s[0] == x[0]);
        lemma_replace_keeps_tail(x.drop_first(), e, pat, rep, c);
        if x.len() >= pat.len() {
            assert(x.take(pat.len() as int) =~= s.take(pat.len() as int));
        } else {
            lemma_replace_short(x, pat, rep);
            lemma_replace_short(x.drop_first(), pat, rep);
            assert(seq![x[0]] + x.drop_first() =~= x);
        }
        assert(seq![x[0]] + (replace_all(x.drop_first(), pat, rep) + e) =~= seq![x[0]] + replace_all(
            x.drop_first(),
            pat,
            rep,
        ) + e);
    }
}

} // verus!
