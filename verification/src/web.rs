//! Request logging and the mapping of request paths to static files.
use vstd::prelude::*;
use crate::text::{chars_of, split_chars, split_char, string_of, replace_str, replace_all, free_of,
    push_char};

verus! {

/// The host part of an address `host:port` (what comes before the first `:`).
pub fn remove_address_port(address: &str) -> (r: String)
    ensures
        r@ == split_char(address@, ':')[0],
{
    let v = chars_of(address);
    let pieces = split_chars(&v, ':');
    proof {
        crate::text::lemma_char_pos(address@, ':');
    }
    string_of(&pieces[0])
}

/// The path with a leading `/`.
pub open spec fn slashed(path: Seq<char>) -> Seq<char> {
    if path.len() > 0 && path[0] == '/' {
        path
    } else {
        seq!['/'] + path
    }
}

/// The request path with a leading `/`, added where it has none.
pub fn slash_path(path: &str) -> (r: String)
    ensures
        r@ == slashed(path@),
{
    let v = chars_of(path);
    if v.len() > 0 && v[0] == '/' {
        string_of(&v)
    } else {
        let mut r = String::new();
        push_char(&mut r, '/');
        r.append(path);
        assert(seq!['/'] + path@ =~= seq!['/'].add(path@));
        r
    }
}

/// A slashed path starts with `/` and stays as it is when slashed again.
pub proof fn law_slash_path_idempotent(path: Seq<char>)
    ensures
        slashed(path).len() > 0,
        slashed(path)[0] == '/',
        slashed(slashed(path)) == slashed(path),
{
}

/// The log line of a served request: `[host] METHOD /path`.
pub open spec fn log_text(address: Seq<char>, method: Seq<char>, path: Seq<char>) -> Seq<char> {
    "["@ + split_char(address, ':')[0] + "] "@ + method + " "@ + slashed(path)
}

/// The log line of a served request (see `log_text`).
pub fn log_line(address: &str, method: &str, path: &str) -> (r: String)
    ensures
        r@ == log_text(address@, method@, path@),
{
    let mut r = "[".to_owned();
    r.append(remove_address_port(address).as_str());
    r.append("] ");
    r.append(method);
    r.append(" ");
    r.append(slash_path(path).as_str());
    r
}

/// The file that a request path names under the directory `static`: `/..`
/// is taken out of the path, `index.html` is added to a path ending in `/`,
/// and `/index.html` to one whose last segment has no `.`.
pub open spec fn static_path(req: Seq<char>) -> Seq<char> {
    let p1 = "static/"@ + replace_all(req, "/.."@, Seq::<char>::empty());
    let p2 = if p1.last() == '/' { p1 + "index.html"@ } else { p1 };
    if free_of(split_char(p2, '/').last(), '.') {
        p2 + "/index.html"@
    } else {
        p2
    }
}

/// The static file that a request path names (see `static_path`).
pub fn static_file_path(req_path: &str) -> (r: String)
    ensures
        r@ == static_path(req_path@),
{
    proof {
        reveal_strlit("static/");
        reveal_strlit("/..");
        reveal_strlit("");
    }
    let mut p = "static/".to_owned();
    let cleaned = replace_str(req_path, "/..", "");
    p.append(cleaned.as_str());
    let ghost p1 = "static/"@ + replace_all(req_path@, "/.."@, Seq::<char>::empty());
    assert(""@ =~= Seq::<char>::empty());
    assert(p@ == p1);
    let v = chars_of(p.as_str());
    assert(v.len() > 0);
    if v[v.len() - 1] == '/' {
        p.append("index.html");
    }
    let ghost p2 = if p1.last() == '/' { p1 + "index.html"@ } else { p1 };
    assert(p@ == p2);
    let v2 = chars_of(p.as_str());
    let pieces = split_chars(&v2, '/');
    proof {
        crate::text::lemma_char_pos(p@, '/');
    }
    let last = &pieces[pieces.len() - 1];
    let mut has_dot = false;
    let n = last.len();
    for i in 0..n
        invariant
            n == last.len(),
            has_dot <==> exists|j: int| 0 <= j < i && last@[j] == '.',
    {
        if last[i] == '.' {
            has_dot = true;
        }
    }
    assert(last@ == split_char(p2, '/').last());
    assert(has_dot <==> !free_of(last@, '.'));
    if !has_dot {
        p.append("/index.html");
    }
    p
}

} // verus!
