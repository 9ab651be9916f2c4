//! Content types of static files, chosen by file extension.
use vstd::prelude::*;
use crate::text::{chars_of, chars_eq, split_chars, split_char, free_of, char_pos, lemma_char_pos, lemma_split_free};

verus! {

/// The extension of a path: what follows its last `.`; a path without
/// any `.` has none.
pub open spec fn extension_of(path: Seq<char>) -> Option<Seq<char>> {
    if free_of(path, '.') {
        None
    } else {
        Some(split_char(path, '.').last())
    }
}

/// The content type of a path: that of its extension, and
/// `application/octet-stream` for a path without one.
pub open spec fn path_type_of(path: Seq<char>) -> Seq<char> {
    match extension_of(path) {
        Some(ext) => mime_type_of(ext),
        None => "application/octet-stream"@,
    }
}

/// The content type for a file extension.
pub open spec fn mime_type_of(ext: Seq<char>) -> Seq<char> {
    if ext == "html"@ {
        "text/html"@
    } else if ext == "css"@ {
        "text/css"@
    } else if ext == "js"@ {
        "application/javascript"@
    } else if ext == "png"@ {
        "image/png"@
    } else if ext == "jpg"@ || ext == "jpeg"@ {
        "image/jpeg"@
    } else if ext == "gif"@ {
        "image/gif"@
    } else if ext == "ico"@ {
        "image/x-icon"@
    } else if ext == "svg"@ {
        "image/svg+xml"@
    } else {
        "application/octet-stream"@
    }
}

fn ext_is(ext: &Vec<char>, lit: &str) -> (r: bool)
    ensures
        r == (ext@ == lit@),
{
    let l = chars_of(lit);
    chars_eq(ext, &l)
}

/// The content (MIME) type of a file, chosen by the extension of its path;
/// `application/octet-stream` for a path without an extension and for an
/// extension it does not know.
pub fn get_type(path: &str) -> (r: &'static str)
    ensures
        r@ == path_type_of(path@),
{
    let v = chars_of(path);
    let pieces = split_chars(&v, '.');
    let n = pieces.len();
    assert(n == split_char(path@, '.').len());
    if n == 0 {
        proof {
            assert(false) by {
                crate::mime::lemma_split_nonempty(path@, '.');
            }
        }
        return "application/octet-stream";
    }
    if n == 1 {
        proof {
            lemma_split_single(path@, '.');
        }
        return "application/octet-stream";
    }
    proof {
        lemma_split_single(path@, '.');
    }
    let ext = &pieces[n - 1];
    assert(extension_of(path@) == Some(ext@));
    if ext_is(ext, "html") {
        "text/html"
    } else if ext_is(ext, "css") {
        "text/css"
    } else if ext_is(ext, "js") {
        "application/javascript"
    } else if ext_is(ext, "png") {
        "image/png"
    } else if ext_is(ext, "jpg") || ext_is(ext, "jpeg") {
        "image/jpeg"
    } else if ext_is(ext, "gif") {
        "image/gif"
    } else if ext_is(ext, "ico") {
        "image/x-icon"
    } else if ext_is(ext, "svg") {
        "image/svg+xml"
    } else {
        "application/octet-stream"
    }
}

proof fn lemma_split_nonempty(s: Seq<char>, c: char)
    ensures
        split_char(s, c).len() >= 1,
    decreases s.len(),
{
    crate::text::lemma_char_pos(s, c);
}

/// A string splits into one piece exactly when it is free of the separator.
proof fn lemma_split_single(s: Seq<char>, c: char)
    ensures
        split_char(s, c).len() == 1 <==> free_of(s, c),
{
    lemma_char_pos(s, c);
    if free_of(s, c) {
        lemma_split_free(s, c);
    } else {
        let i = choose|i: int| 0 <= i < s.len() && s[i] == c;
        assert(char_pos(s, c) < s.len());
        lemma_split_nonempty(s.skip(char_pos(s, c) + 1 as int), c);
    }
}

proof fn lemma_split_last(a: Seq<char>, t: Seq<char>, c: char)
    requires
        free_of(t, c),
    ensures
        split_char(a + seq![c] + t, c).last() == t,
    decreases a.len(),
{
    let s = a + seq![c] + t;
    lemma_char_pos(s, c);
    let k: int = crate::text::char_pos(s, c) as int;
    assert(s[a.len() as int] == c);
    if k < a.len() {
        assert(s.skip(k + 1) =~= a.skip(k + 1) + seq![c] + t);
        lemma_split_last(a.skip(k + 1), t, c);
        lemma_split_nonempty(s.skip(k + 1), c);
    } else {
        assert(k == a.len());
        assert(s.skip(k + 1) =~= t);
        lemma_split_free(t, c);
    }
}

/// A file is typed by what follows the last `.` of its path: a path ending
/// in `.` and an extension without `.` has that extension.
pub proof fn law_type_by_extension(stem: Seq<char>, ext: Seq<char>)
    requires
        free_of(ext, '.'),
    ensures
        extension_of(stem + "."@ + ext) == Some(ext),
        path_type_of(stem + "."@ + ext) == mime_type_of(ext),
{
    reveal_strlit(".");
    assert("."@ =~= seq!['.']);
    let p = stem + "."@ + ext;
    assert(p[stem.len() as int] == '.');
    lemma_split_last(stem, ext, '.');
}

/// A path without a `.` has no extension, and its content type is
/// `application/octet-stream`.
pub proof fn law_no_extension(path: Seq<char>)
    requires
        free_of(path, '.'),
    ensures
        extension_of(path) is None,
        path_type_of(path) == "application/octet-stream"@,
{
}

} // verus!
