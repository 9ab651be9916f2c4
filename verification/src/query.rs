//! Key-value pairs of a form body (`application/x-www-form-urlencoded`).
use vstd::prelude::*;
use crate::text::{chars_of, split_chars, split_char, string_of, string_of_range, chars_eq, join_with,
    free_of, char_pos, lemma_char_pos_at, lemma_split_join, lemma_split_step, lemma_split_free};

verus! {

/// The pairs that the `&`-separated parts of a body give: a part is split at
/// `=`; a part with fewer than two pieces gives nothing, any other gives its
/// first piece as the key and its second piece as the value.
pub open spec fn form_pairs(parts: Seq<Seq<char>>) -> Seq<(Seq<char>, Seq<char>)>
    decreases parts.len(),
{
    if parts.len() == 0 {
        seq![]
    } else {
        let sub = split_char(parts[0], '=');
        let rest = form_pairs(parts.drop_first());
        if sub.len() < 2 {
            rest
        } else {
            seq![(sub[0], sub[1])] + rest
        }
    }
}

/// The pairs of a form body.
pub open spec fn parse_form(body: Seq<char>) -> Seq<(Seq<char>, Seq<char>)> {
    form_pairs(split_char(body, '&'))
}

/// The value of the first pair whose key is `key`.
pub open spec fn lookup(pairs: Seq<(Seq<char>, Seq<char>)>, key: Seq<char>) -> Option<Seq<char>>
    decreases pairs.len(),
{
    if pairs.len() == 0 {
        None
    } else if pairs[0].0 == key {
        Some(pairs[0].1)
    } else {
        lookup(pairs.drop_first(), key)
    }
}

/// A part of a form body as the web server reads it: the key is what comes
/// before the first `=`, the value all that follows it (`=` included); a
/// part without `=` is no field.
pub open spec fn form_field(part: Seq<char>) -> Option<(Seq<char>, Seq<char>)> {
    let k = char_pos(part, '=');
    if k < part.len() {
        Some((part.take(k as int), part.skip(k + 1 as int)))
    } else {
        None
    }
}

/// The fields of the parts, in their order, parts that are no field left out.
pub open spec fn form_fields_of_parts(parts: Seq<Seq<char>>) -> Seq<(Seq<char>, Seq<char>)>
    decreases parts.len(),
{
    if parts.len() == 0 {
        seq![]
    } else {
        let init = form_fields_of_parts(parts.drop_last());
        match form_field(parts.last()) {
            Some(f) => init.push(f),
            None => init,
        }
    }
}

/// The fields of a form body as the web server reads it: the body split at
/// each `&`, each part read by `form_field`.
pub open spec fn form_fields(body: Seq<char>) -> Seq<(Seq<char>, Seq<char>)> {
    form_fields_of_parts(split_char(body, '&'))
}

/// The field of one part (see `form_field`).
fn form_field_of(part: &Vec<char>) -> (r: Option<(String, String)>)
    ensures
        r matches Some(p) ==> form_field(part@) == Some((p.0@, p.1@)),
        r is None ==> form_field(part@) is None,
{
    let n = part.len();
    let mut k: usize = 0;
    while k < n
        invariant
            k <= n == part.len(),
            free_of(part@.take(k as int), '='),
        decreases n - k,
    {
        if part[k] == '=' {
            proof {
                lemma_char_pos_at(part@, '=', k as int);
            }
            let key = string_of_range(part, 0, k);
            let value = string_of_range(part, k + 1, n);
            assert(part@.subrange(0, k as int) =~= part@.take(k as int));
            assert(part@.subrange(k + 1, n as int) =~= part@.skip(k + 1));
            return Some((key, value));
        }
        assert(free_of(part@.take(k + 1), '=')) by {
            assert forall|i: int| 0 <= i < k + 1 implies #[trigger] part@.take(k + 1)[i] != '=' by {
                if i < k {
                    assert(part@.take(k + 1)[i] == part@.take(k as int)[i]);
                }
            }
        }
        k += 1;
    }
    proof {
        assert(part@.take(n as int) =~= part@);
        lemma_char_pos_at(part@, '=', n as int);
    }
    None
}

/// Key-value pairs read from a form body, in the order of the body.
pub struct Query {
    data: Vec<(String, String)>,
}

impl View for Query {
    type V = Seq<(Seq<char>, Seq<char>)>;

    closed spec fn view(&self) -> Seq<(Seq<char>, Seq<char>)> {
        self.data@.map_values(|p: (String, String)| (p.0@, p.1@))
    }
}

impl Query {
    /// Reads the pairs of a form body such as `"email=a%40b.c&why=x"`.
    pub fn from_body(body: String) -> (q: Query)
        ensures
            q@ == parse_form(body@),
    {
        let b = chars_of(body.as_str());
        let parts = split_chars(&b, '&');
        let ghost ps = split_char(body@, '&');
        let n = parts.len();
        let mut data: Vec<(String, String)> = Vec::new();
        assert(ps.skip(0) =~= ps);
        for i in 0..n
            invariant
                n == parts.len(),
                n == ps.len(),
                forall|k: int| 0 <= k < n ==> #[trigger] parts[k]@ == ps[k],
                data@.map_values(|p: (String, String)| (p.0@, p.1@)) + form_pairs(ps.skip(i as int))
                    == form_pairs(ps),
        {
            let sub = split_chars(&parts[i], '=');
            let ghost before = data@.map_values(|p: (String, String)| (p.0@, p.1@));
            proof {
                assert(ps.skip(i as int).drop_first() =~= ps.skip(i + 1));
                assert(ps.skip(i as int)[0] == ps[i as int]);
            }
            if sub.len() >= 2 {
                let k = string_of(&sub[0]);
                let v = string_of(&sub[1]);
                data.push((k, v));
                proof {
                    let after = data@.map_values(|p: (String, String)| (p.0@, p.1@));
                    assert(after =~= before.push((sub[0]@, sub[1]@)));
                    assert(after + form_pairs(ps.skip(i + 1)) =~= before + (seq![(sub[0]@, sub[1]@)]
                        + form_pairs(ps.skip(i + 1))));
                }
            }
        }
        proof {
            assert(ps.skip(n as int) =~= Seq::<Seq<char>>::empty());
            let dv = data@.map_values(|p: (String, String)| (p.0@, p.1@));
            assert(dv + Seq::<(Seq<char>, Seq<char>)>::empty() =~= dv);
        }
        Query { data }
    }

    /// Reads the fields of a form body as the web server does (see
    /// `form_fields`): unlike `from_body`, a value keeps all that follows
    /// the first `=` of its part.
    pub fn from_form_body(body: &str) -> (q: Query)
        ensures
            q@ == form_fields(body@),
    {
        let b = chars_of(body);
        let parts = split_chars(&b, '&');
        let ghost ps = split_char(body@, '&');
        let n = parts.len();
        let mut data: Vec<(String, String)> = Vec::new();
        assert(ps.take(0) =~= Seq::<Seq<char>>::empty());
        for i in 0..n
            invariant
                n == parts.len(),
                n == ps.len(),
                forall|k: int| 0 <= k < n ==> #[trigger] parts[k]@ == ps[k],
                data@.map_values(|p: (String, String)| (p.0@, p.1@)) == form_fields_of_parts(
                    ps.take(i as int),
                ),
        {
            let ghost before = data@.map_values(|p: (String, String)| (p.0@, p.1@));
            proof {
                assert(ps.take(i + 1).drop_last() =~= ps.take(i as int));
                assert(ps.take(i + 1).last() == ps[i as int]);
            }
            match form_field_of(&parts[i]) {
                Some(f) => {
                    data.push(f);
                    proof {
                        let after = data@.map_values(|p: (String, String)| (p.0@, p.1@));
                        assert(after =~= before.push((f.0@, f.1@)));
                    }
                },
                None => {},
            }
        }
        assert(ps.take(n as int) =~= ps);
        Query { data }
    }

    /// The value of the first pair whose key is `key`, if any.
    pub fn get(&self, key: &str) -> (r: Option<String>)
        ensures
            r matches Some(v) ==> lookup(self@, key@) == Some(v@),
            r is None ==> lookup(self@, key@) is None,
    {
        let k = chars_of(key);
        let n = self.data.len();
        assert(self@.skip(0) =~= self@);
        for i in 0..n
            invariant
                n == self.data.len(),
                k@ == key@,
                lookup(self@, key@) == lookup(self@.skip(i as int), key@),
        {
            proof {
                assert(self@.skip(i as int).drop_first() =~= self@.skip(i + 1));
                assert(self@.skip(i as int)[0] == self@[i as int]);
            }
            let entry_key = chars_of(self.data[i].0.as_str());
            if chars_eq(&entry_key, &k) {
                let v = string_of(&chars_of(self.data[i].1.as_str()));
                return Some(v);
            }
        }
        None
    }
}


/// Each pair written as `key=value`.
pub open spec fn encoded_parts(pairs: Seq<(Seq<char>, Seq<char>)>) -> Seq<Seq<char>> {
    pairs.map_values(|p: (Seq<char>, Seq<char>)| p.0 + seq!['='] + p.1)
}

/// The form body `k1=v1&k2=v2&...` of the pairs.
pub open spec fn encode_form(pairs: Seq<(Seq<char>, Seq<char>)>) -> Seq<char> {
    join_with(encoded_parts(pairs), '&')
}

/// Keys and values hold neither `&` nor `=`.
pub open spec fn plain_pairs(pairs: Seq<(Seq<char>, Seq<char>)>) -> bool {
    forall|i: int|
        0 <= i < pairs.len() ==> {
            &&& free_of(#[trigger] pairs[i].0, '&')
            &&& free_of(pairs[i].0, '=')
            &&& free_of(pairs[i].1, '&')
            &&& free_of(pairs[i].1, '=')
        }
}

proof fn lemma_split_pair(k: Seq<char>, v: Seq<char>)
    requires
        free_of(k, '='),
        free_of(v, '='),
    ensures
        split_char(k + seq!['='] + v, '=') == seq![k, v],
{
    let s = k + seq!['='] + v;
    assert(s.take(k.len() as int) =~= k);
    assert(s.skip(k.len() + 1 as int) =~= v);
    lemma_split_step(s, '=', k.len() as int);
    lemma_split_free(v, '=');
    assert(seq![k] + seq![v] =~= seq![k, v]);
}

proof fn lemma_form_pairs_of_encoded(pairs: Seq<(Seq<char>, Seq<char>)>)
    requires
        plain_pairs(pairs),
    ensures
        form_pairs(encoded_parts(pairs)) == pairs,
    decreases pairs.len(),
{
    let parts = encoded_parts(pairs);
    if pairs.len() > 0 {
        let rest = pairs.drop_first();
        assert(plain_pairs(rest)) by {
            assert forall|i: int| 0 <= i < rest.len() implies {
                &&& free_of(#[trigger] rest[i].0, '&')
                &&& free_of(rest[i].0, '=')
                &&& free_of(rest[i].1, '&')
                &&& free_of(rest[i].1, '=')
            } by {
                assert(rest[i] == pairs[i + 1]);
            }
        }
        lemma_form_pairs_of_encoded(rest);
        assert(parts.drop_first() =~= encoded_parts(rest));
        assert(free_of(pairs[0].0, '='));
        lemma_split_pair(pairs[0].0, pairs[0].1);
        assert(seq![(pairs[0].0, pairs[0].1)] + rest =~= pairs);
    }
}

/// Reading the form body written from pairs whose keys and values hold
/// neither `&` nor `=` gives back exactly those pairs, in order; so the value
/// read for a key is the value of its first pair.
pub proof fn law_form_round_trip(pairs: Seq<(Seq<char>, Seq<char>)>, key: Seq<char>)
    requires
        plain_pairs(pairs),
    ensures
        parse_form(encode_form(pairs)) == pairs,
        lookup(parse_form(encode_form(pairs)), key) == lookup(pairs, key),
{
    let parts = encoded_parts(pairs);
    if pairs.len() == 0 {
        assert(encode_form(pairs) =~= Seq::<char>::empty());
        lemma_split_free(Seq::<char>::empty(), '&');
        lemma_split_free(Seq::<char>::empty(), '=');
        let e = Seq::<char>::empty();
        assert(split_char(e, '&') == seq![e]);
        assert(seq![e].drop_first() =~= Seq::<Seq<char>>::empty());
        assert(form_pairs(Seq::<Seq<char>>::empty()) == Seq::<(Seq<char>, Seq<char>)>::empty());
        assert(form_pairs(seq![e]) =~= pairs);
    } else {
        assert forall|i: int| 0 <= i < parts.len() implies free_of(#[trigger] parts[i], '&') by {
            let (k, v) = pairs[i];
            assert(free_of(pairs[i].0, '&'));
            assert forall|j: int| 0 <= j < parts[i].len() implies parts[i][j] != '&' by {
                if j < k.len() {
                    assert(parts[i][j] == k[j]);
                } else if j > k.len() {
                    assert(parts[i][j] == v[j - k.len() - 1]);
                }
            }
        }
        lemma_split_join(parts, '&');
        lemma_form_pairs_of_encoded(pairs);
    }
}

} // verus!
