//! Decoding of percent-encoded (URL-encoded) text.
//!
//! A `%` takes the two characters after it as an escape. Escapes that follow
//! each other are gathered; at the next ordinary character (or at the end)
//! each two-character chunk is read as a hexadecimal byte and the bytes are
//! read as UTF-8 text.
use vstd::prelude::*;
use vstd::utf8::{valid_utf8, decode_utf8, encode_utf8};
use crate::number::{parse_unsigned, parse_unsigned_range, digits_value, digit_value, unsigned_digits, all_digits};
use crate::text::{chars_of, push_char, free_of};

verus! {

/// The bytes that the gathered escape characters `frag` stand for: each chunk
/// of two characters (the last chunk may hold one) read as a hexadecimal `u8`
/// (`u8::from_str_radix(chunk, 16)`), or `None` where a chunk is no such byte.
pub open spec fn frag_bytes(frag: Seq<char>) -> Option<Seq<u8>>
    decreases frag.len(),
{
    if frag.len() == 0 {
        Some(seq![])
    } else {
        let n: int = if frag.len() >= 2 { 2 } else { 1 };
        match parse_unsigned(frag.take(n), 16, 255) {
            None => None,
            Some(b) => match frag_bytes(frag.skip(n)) {
                None => None,
                Some(rest) => Some(seq![b as u8] + rest),
            },
        }
    }
}

/// The text that the gathered escapes `frag` decode to, or `None` where they
/// are no hexadecimal bytes or the bytes are no UTF-8.
pub open spec fn flush_frag(frag: Seq<char>) -> Option<Seq<char>> {
    match frag_bytes(frag) {
        Some(b) => if valid_utf8(b) {
            Some(decode_utf8(b))
        } else {
            None
        },
        None => None,
    }
}

/// The decoding of `t` when the escapes `frag` are already gathered.
pub open spec fn decode_from(t: Seq<char>, frag: Seq<char>) -> Option<Seq<char>>
    decreases t.len(),
{
    if t.len() == 0 {
        flush_frag(frag)
    } else if t[0] == '%' {
        if t.len() < 3 {
            None
        } else {
            decode_from(t.skip(3), frag + t.subrange(1, 3))
        }
    } else {
        match flush_frag(frag) {
            None => None,
            Some(d) => match decode_from(t.drop_first(), seq![]) {
                None => None,
                Some(r) => Some(d + seq![t[0]] + r),
            },
        }
    }
}

/// The decoding of the URL-encoded text `t`, or `None` where `t` is not
/// well-formed: a `%` without two characters after it, an escape that is no
/// hexadecimal byte, or escaped bytes that are no UTF-8.
pub open spec fn url_decode(t: Seq<char>) -> Option<Seq<char>> {
    decode_from(t, seq![])
}

/// `out` put in front of the text in `o`, if there is one.
pub open spec fn after(out: Seq<char>, o: Option<Seq<char>>) -> Option<Seq<char>> {
    match o {
        Some(x) => Some(out + x),
        None => None,
    }
}

/// `std::str::from_utf8`: succeeds exactly on valid UTF-8 and then yields
/// the characters that the bytes encode.
#[verifier::external_body]
fn str_from_utf8(b: &[u8]) -> (r: Result<&str, std::str::Utf8Error>)
    ensures
        r is Ok <==> valid_utf8(b@),
        r matches Ok(s) ==> s@ == decode_utf8(b@),
{
    std::str::from_utf8(b)
}

#[verifier::external_type_specification]
#[verifier::external_body]
pub struct ExUtf8Error(std::str::Utf8Error);

/// Appends to `text` what the gathered escapes in `frag` decode to and empties
/// `frag`; returns `false`, changing nothing, where they decode to nothing.
fn append_frag(text: &mut String, frag: &mut Vec<char>) -> (ok: bool)
    ensures
        ok == (flush_frag(old(frag)@) is Some),
        ok ==> final(text)@ == old(text)@ + flush_frag(old(frag)@)->0,
        ok ==> final(frag)@.len() == 0,
        !ok ==> final(text)@ == old(text)@,
{
    let n = frag.len();
    let mut bytes: Vec<u8> = Vec::new();
    let mut j: usize = 0;
    assert(frag@.skip(0) =~= frag@);
    while j < n
        invariant
            n == frag.len(),
            j <= n,
            frag@ == old(frag)@,
            frag_bytes(frag@) == (match frag_bytes(frag@.skip(j as int)) {
                Some(r) => Some(bytes@ + r),
                None => None,
            }),
        decreases n - j,
    {
        let step: usize = if n - j >= 2 { 2 } else { 1 };
        proof {
            let t = frag@.skip(j as int);
            assert(t.take(step as int) =~= frag@.subrange(j as int, j + step));
            assert(t.skip(step as int) =~= frag@.skip(j + step));
        }
        match parse_unsigned_range(frag, j, j + step, 16, 255) {
            None => {
                return false;
            },
            Some(b) => {
                proof {
                    match frag_bytes(frag@.skip(j + step)) {
                        Some(r) => {
                            assert(bytes@.push(b as u8) + r =~= bytes@ + (seq![b as u8] + r));
                        },
                        None => {},
                    }
                }
                bytes.push(b as u8);
                j = j + step;
            },
        }
    }
    proof {
        assert(frag@.skip(j as int).len() == 0);
        assert(bytes@ + seq![] =~= bytes@);
    }
    match str_from_utf8(bytes.as_slice()) {
        Err(_) => false,
        Ok(s) => {
            text.append(s);
            frag.clear();
            true
        },
    }
}

/// Decodes the URL-encoded text `text`, or gives `None` where it is not
/// well-formed (see `url_decode`).
pub fn try_decode_url_chars(text: &str) -> (r: Option<String>)
    ensures
        r is Some <==> url_decode(text@) is Some,
        r matches Some(s) ==> s@ == url_decode(text@)->0,
{
    let t = chars_of(text);
    let n = t.len();
    let mut output = String::new();
    let mut frag: Vec<char> = Vec::new();
    let mut i: usize = 0;
    assert(t@.skip(0) =~= t@);
    assert(output@ + url_decode(text@)->0 =~= url_decode(text@)->0);
    while i < n
        invariant
            n == t.len(),
            t@ == text@,
            i <= n,
            after(output@, decode_from(t@.skip(i as int), frag@)) == url_decode(text@),
        decreases n - i,
    {
        let ch = t[i];
        let ghost rest = t@.skip(i as int);
        assert(rest[0] == ch);
        if ch == '%' {
            if n - i < 3 {
                return None;
            }
            proof {
                assert(rest.skip(3) =~= t@.skip(i + 3));
                assert(rest.subrange(1, 3) =~= seq![t@[i + 1], t@[i + 2]]);
                assert(frag@ + rest.subrange(1, 3) =~= frag@.push(t@[i + 1]).push(t@[i + 2]));
            }
            frag.push(t[i + 1]);
            frag.push(t[i + 2]);
            i = i + 3;
        } else {
            let ghost old_out = output@;
            let ghost old_frag = frag@;
            if !append_frag(&mut output, &mut frag) {
                return None;
            }
            proof {
                assert(rest.drop_first() =~= t@.skip(i + 1));
                assert(frag@ =~= seq![]);
                let d = flush_frag(old_frag)->0;
                match decode_from(t@.skip(i + 1), seq![]) {
                    Some(r) => {
                        assert(output@.push(ch) + r =~= old_out + (d + seq![ch] + r));
                    },
                    None => {},
                }
            }
            push_char(&mut output, ch);
            i = i + 1;
        }
    }
    proof {
        assert(t@.skip(i as int).len() == 0);
    }
    let ghost old_out = output@;
    let ghost old_frag = frag@;
    if !append_frag(&mut output, &mut frag) {
        return None;
    }
    Some(output)
}

/// Decodes the URL-encoded text `text` (for instance `"a%20b"` gives `"a b"`);
/// `text` must be well-formed (see `url_decode`).
pub fn decode_url_chars(text: &str) -> (r: String)
    requires
        url_decode(text@) is Some,
    ensures
        r@ == url_decode(text@)->0,
{
    match try_decode_url_chars(text) {
        Some(s) => s,
        None => String::new(),
    }
}


/// The upper-case hexadecimal digit of `x`, for `0 <= x < 16`.
pub open spec fn hex_digit_char(x: int) -> char {
    seq!['0', '1', '2', '3', '4', '5', '6', '7', '8', '9', 'A', 'B', 'C', 'D', 'E', 'F'][x]
}

/// The two hexadecimal digits of each byte of `b`, in order.
pub open spec fn hex_pairs(b: Seq<u8>) -> Seq<char>
    decreases b.len(),
{
    if b.len() == 0 {
        seq![]
    } else {
        seq![hex_digit_char(b[0] as int / 16), hex_digit_char(b[0] as int % 16)] + hex_pairs(b.drop_first())
    }
}

/// Each byte of `b` written as an escape `%XY`.
pub open spec fn escape_bytes(b: Seq<u8>) -> Seq<char>
    decreases b.len(),
{
    if b.len() == 0 {
        seq![]
    } else {
        seq!['%', hex_digit_char(b[0] as int / 16), hex_digit_char(b[0] as int % 16)] + escape_bytes(b.drop_first())
    }
}

/// The percent-encoding of `s`: every byte of its UTF-8 form as an escape.
pub open spec fn percent_encode(s: Seq<char>) -> Seq<char> {
    escape_bytes(encode_utf8(s))
}

proof fn lemma_hex_digit(x: int)
    requires
        0 <= x < 16,
    ensures
        digit_value(hex_digit_char(x), 16) == Some(x as nat),
        hex_digit_char(x) != '+',
{
    let t = seq!['0', '1', '2', '3', '4', '5', '6', '7', '8', '9', 'A', 'B', 'C', 'D', 'E', 'F'];
    assert(hex_digit_char(x) == t[x]);
    if x < 10 {
        assert(t[x] as int == '0' as int + x) by {
            assert(t[0] == '0' && t[1] == '1' && t[2] == '2' && t[3] == '3' && t[4] == '4');
            assert(t[5] == '5' && t[6] == '6' && t[7] == '7' && t[8] == '8' && t[9] == '9');
        }
    } else {
        assert(t[x] as int == 'A' as int + x - 10) by {
            assert(t[10] == 'A' && t[11] == 'B' && t[12] == 'C');
            assert(t[13] == 'D' && t[14] == 'E' && t[15] == 'F');
        }
    }
}

proof fn lemma_frag_bytes_hex_pairs(b: Seq<u8>)
    ensures
        frag_bytes(hex_pairs(b)) == Some(b),
    decreases b.len(),
{
    if b.len() > 0 {
        let h = b[0] as int / 16;
        let l = b[0] as int % 16;
        lemma_hex_digit(h);
        lemma_hex_digit(l);
        let p = hex_pairs(b);
        let pair = seq![hex_digit_char(h), hex_digit_char(l)];
        assert(p.take(2) =~= pair);
        assert(p.skip(2) =~= hex_pairs(b.drop_first()));
        assert(unsigned_digits(pair) == pair);
        assert(all_digits(pair, 16));
        assert(pair.drop_last() =~= seq![hex_digit_char(h)]);
        assert(seq![hex_digit_char(h)].drop_last() =~= Seq::<char>::empty());
        assert(digits_value(Seq::<char>::empty(), 16) == 0);
        assert(seq![hex_digit_char(h)].last() == hex_digit_char(h));
        assert(digits_value(seq![hex_digit_char(h)], 16) == h);
        assert(pair.last() == hex_digit_char(l));
        assert(digits_value(pair, 16) == h * 16 + l);
        assert(h * 16 + l == b[0] as int);
        lemma_frag_bytes_hex_pairs(b.drop_first());
        assert(seq![b[0]] + b.drop_first() =~= b);
    }
}

proof fn lemma_decode_escapes(b: Seq<u8>, frag: Seq<char>)
    ensures
        decode_from(escape_bytes(b), frag) == flush_frag(frag + hex_pairs(b)),
    decreases b.len(),
{
    let t = escape_bytes(b);
    if b.len() == 0 {
        assert(frag + hex_pairs(b) =~= frag);
    } else {
        let h = hex_digit_char(b[0] as int / 16);
        let l = hex_digit_char(b[0] as int % 16);
        assert(t[0] == '%');
        assert(t.skip(3) =~= escape_bytes(b.drop_first()));
        assert(t.subrange(1, 3) =~= seq![h, l]);
        lemma_decode_escapes(b.drop_first(), frag + seq![h, l]);
        assert(frag + seq![h, l] + hex_pairs(b.drop_first()) =~= frag + hex_pairs(b));
    }
}

/// Decoding the percent-encoding of any text gives the text back.
pub proof fn law_decode_percent_encoded(s: Seq<char>)
    ensures
        url_decode(percent_encode(s)) == Some(s),
{
    broadcast use vstd::utf8::encode_utf8_valid_utf8, vstd::utf8::encode_utf8_decode_utf8;
    let b = encode_utf8(s);
    lemma_decode_escapes(b, seq![]);
    assert(Seq::<char>::empty() + hex_pairs(b) =~= hex_pairs(b));
    lemma_frag_bytes_hex_pairs(b);
}

/// Text without `%` decodes to itself.
pub proof fn law_decode_plain(t: Seq<char>)
    requires
        free_of(t, '%'),
    ensures
        url_decode(t) == Some(t),
    decreases t.len(),
{
    if t.len() > 0 {
        assert(free_of(t.drop_first(), '%')) by {
            assert forall|i: int| 0 <= i < t.drop_first().len() implies t.drop_first()[i] != '%' by {
                assert(t.drop_first()[i] == t[i + 1]);
            }
        }
        law_decode_plain(t.drop_first());
        assert(decode_utf8(Seq::<u8>::empty()) =~= Seq::<char>::empty());
        assert(Seq::<char>::empty() + seq![t[0]] + t.drop_first() =~= t);
    }
}


/// Decoding valid UTF-8 bytes one after the other gives the two decodings
/// one after the other.
proof fn lemma_decode_utf8_concat(b1: Seq<u8>, b2: Seq<u8>)
    requires
        valid_utf8(b1),
        valid_utf8(b2),
    ensures
        valid_utf8(b1 + b2),
        decode_utf8(b1 + b2) == decode_utf8(b1) + decode_utf8(b2),
    decreases b1.len(),
{
    vstd::utf8::valid_utf8_concat(b1, b2);
    if b1.len() == 0 {
        assert(b1 + b2 =~= b2);
        assert(decode_utf8(b1) + decode_utf8(b2) =~= decode_utf8(b2));
    } else {
        let rest = vstd::utf8::pop_first_scalar(b1);
        assert(rest.len() < b1.len());
        lemma_decode_utf8_concat(rest, b2);
        assert(vstd::utf8::pop_first_scalar(b1 + b2) =~= rest + b2);
        assert(vstd::utf8::decode_first_scalar(b1 + b2) == vstd::utf8::decode_first_scalar(b1));
        assert(decode_utf8(b1 + b2) =~= decode_utf8(b1) + decode_utf8(b2));
    }
}

/// The bytes of escapes gathered one after the other, the first of even
/// length, are the bytes of each one after the other.
proof fn lemma_frag_bytes_concat(f: Seq<char>, g: Seq<char>)
    requires
        f.len() % 2 == 0,
        frag_bytes(f) is Some,
        frag_bytes(g) is Some,
    ensures
        frag_bytes(f + g) == Some(frag_bytes(f)->0 + frag_bytes(g)->0),
    decreases f.len(),
{
    if f.len() == 0 {
        assert(f + g =~= g);
        assert(frag_bytes(f)->0 + frag_bytes(g)->0 =~= frag_bytes(g)->0);
    } else {
        assert((f + g).take(2) =~= f.take(2));
        assert((f + g).skip(2) =~= f.skip(2) + g);
        lemma_frag_bytes_concat(f.skip(2), g);
        let b = parse_unsigned(f.take(2), 16, 255)->0;
        assert(seq![b as u8] + (frag_bytes(f.skip(2))->0 + frag_bytes(g)->0) =~= (seq![b as u8]
            + frag_bytes(f.skip(2))->0) + frag_bytes(g)->0);
    }
}

/// Escapes gathered one after the other decode to the two decodings one
/// after the other.
proof fn lemma_flush_concat(f: Seq<char>, g: Seq<char>)
    requires
        f.len() % 2 == 0,
        flush_frag(f) is Some,
        flush_frag(g) is Some,
    ensures
        flush_frag(f + g) == Some(flush_frag(f)->0 + flush_frag(g)->0),
{
    lemma_frag_bytes_concat(f, g);
    lemma_decode_utf8_concat(frag_bytes(f)->0, frag_bytes(g)->0);
}

/// Decoding `b` after the escapes `f` and `g`, where `f` alone decodes to
/// `x` and `b` after `g` decodes to `y`, gives `x` then `y`.
proof fn lemma_decode_after_frag(b: Seq<char>, f: Seq<char>, g: Seq<char>)
    requires
        f.len() % 2 == 0,
        g.len() % 2 == 0,
        flush_frag(f) is Some,
        decode_from(b, g) is Some,
    ensures
        decode_from(b, f + g) == Some(flush_frag(f)->0 + decode_from(b, g)->0),
    decreases b.len(),
{
    if b.len() == 0 {
        lemma_flush_concat(f, g);
    } else if b[0] == '%' {
        let sub = b.subrange(1, 3);
        assert(f + g + sub =~= f + (g + sub));
        lemma_decode_after_frag(b.skip(3), f, g + sub);
    } else {
        lemma_flush_concat(f, g);
        let x = flush_frag(f)->0;
        let d = flush_frag(g)->0;
        let r = decode_from(b.drop_first(), seq![])->0;
        assert(x + d + seq![b[0]] + r =~= x + (d + seq![b[0]] + r));
    }
}

/// Decoding `a` then `b` after the escapes `f`, where `a` after `f` decodes
/// to `x` and `b` alone to `y`, gives `x` then `y`.
proof fn lemma_decode_concat_from(a: Seq<char>, f: Seq<char>, b: Seq<char>)
    requires
        f.len() % 2 == 0,
        decode_from(a, f) is Some,
        url_decode(b) is Some,
    ensures
        decode_from(a + b, f) == Some(decode_from(a, f)->0 + url_decode(b)->0),
    decreases a.len(),
{
    if a.len() == 0 {
        assert(a + b =~= b);
        lemma_decode_after_frag(b, f, seq![]);
        assert(f + Seq::<char>::empty() =~= f);
    } else if a[0] == '%' {
        assert((a + b)[0] == '%');
        assert((a + b).skip(3) =~= a.skip(3) + b);
        assert((a + b).subrange(1, 3) =~= a.subrange(1, 3));
        lemma_decode_concat_from(a.skip(3), f + a.subrange(1, 3), b);
    } else {
        assert((a + b)[0] == a[0]);
        assert((a + b).drop_first() =~= a.drop_first() + b);
        lemma_decode_concat_from(a.drop_first(), seq![], b);
        let d = flush_frag(f)->0;
        let r = decode_from(a.drop_first(), seq![])->0;
        let y = url_decode(b)->0;
        assert(d + seq![a[0]] + (r + y) =~= (d + seq![a[0]] + r) + y);
    }
}

/// Decoding a concatenation gives the concatenation of the decodings, where
/// both parts decode.
pub proof fn law_decode_concat(a: Seq<char>, b: Seq<char>)
    requires
        url_decode(a) is Some,
        url_decode(b) is Some,
    ensures
        url_decode(a + b) == Some(url_decode(a)->0 + url_decode(b)->0),
{
    lemma_decode_concat_from(a, seq![], b);
}

} // verus!
