//! The few operations on path strings that planning needs, taken from
//! `std::path` and `str`. Paths are Unix paths: `/` is the only separator,
//! and a path is absolute when it starts with `/`.
use std::path::Path;
use vstd::prelude::*;
use vstd::string::{StrSliceExecFns, StringExecFns};

verus! {

/// The last component of `path` as `Path::file_name` returns it, or `None`
/// where that function returns `None` (a root, an empty path, or a path that
/// ends in `..`).
pub uninterp spec fn path_file_name(path: Seq<char>) -> Option<Seq<char>>;

/// The path without its last component, as `Path::parent` returns it.
pub uninterp spec fn path_parent(path: Seq<char>) -> Option<Seq<char>>;

/// The path `base` extended by `tail`, as `Path::join` builds it.
pub uninterp spec fn path_join(base: Seq<char>, tail: Seq<char>) -> Seq<char>;

/// Whether `path` ends in the component `..`.
pub open spec fn ends_in_parent_dir(path: Seq<char>) -> bool {
    path == ".."@ || (path.len() >= 3 && path.subrange(path.len() - 3, path.len() as int)
        == "/.."@)
}

/// Calls `Path::file_name` on `path`; the result is the named value
/// `path_file_name(path@)`, which is `None` for a path that ends in `..`, as
/// the documentation says. The name of a UTF-8 path is itself UTF-8, so the
/// conversion back to a `String` loses nothing.
#[verifier::external_body]
pub(crate) fn file_name(path: &str) -> (r: Option<String>)
    ensures
        match r {
            Some(name) => path_file_name(path@) == Some(name@),
            None => path_file_name(path@) is None,
        },
        ends_in_parent_dir(path@) ==> r is None,
{
    match Path::new(path).file_name() {
        Some(name) => name.to_str().map(String::from),
        None => None,
    }
}

/// Calls `Path::parent` on `path`; the result is the named value
/// `path_parent(path@)`, which is `None` for the empty path and for the root
/// `/`, as the documentation says.
#[verifier::external_body]
pub(crate) fn parent(path: &str) -> (r: Option<String>)
    ensures
        match r {
            Some(dir) => path_parent(path@) == Some(dir@),
            None => path_parent(path@) is None,
        },
        path@.len() == 0 || path@ == "/"@ ==> r is None,
{
    match Path::new(path).parent() {
        Some(dir) => dir.to_str().map(String::from),
        None => None,
    }
}

/// Calls `Path::join` on two UTF-8 paths and turns the result back into a
/// `String`; the result is the named value `path_join(base@, tail@)`. An
/// absolute `tail` (on Unix, one that starts with `/`) replaces `base`, as
/// the documentation says; how a relative one is appended (where a
/// separator goes) the documentation shows only by example, and is left to
/// the name.
#[verifier::external_body]
pub(crate) fn join(base: &str, tail: &str) -> (r: String)
    ensures
        r@ == path_join(base@, tail@),
        tail@.len() > 0 && tail@[0] == '/' ==> r@ == tail@,
{
    Path::new(base).join(tail).to_string_lossy().into_owned()
}

/// A character with the Unicode property `White_Space`, which is what
/// `char::is_whitespace` and `str::trim` test for.
pub open spec fn is_white_space(c: char) -> bool {
    let u = c as u32;
    ||| 0x09 <= u <= 0x0d
    ||| u == 0x20
    ||| u == 0x85
    ||| u == 0xa0
    ||| u == 0x1680
    ||| 0x2000 <= u <= 0x200a
    ||| u == 0x2028
    ||| u == 0x2029
    ||| u == 0x202f
    ||| u == 0x205f
    ||| u == 0x3000
}

/// `s` without the white space at its start.
pub open spec fn trim_start(s: Seq<char>) -> Seq<char>
    decreases s.len(),
{
    if s.len() > 0 && is_white_space(s[0]) {
        trim_start(s.drop_first())
    } else {
        s
    }
}

/// `s` without the white space at its end.
pub open spec fn trim_end(s: Seq<char>) -> Seq<char>
    decreases s.len(),
{
    if s.len() > 0 && is_white_space(s.last()) {
        trim_end(s.drop_last())
    } else {
        s
    }
}

/// `s` without leading and trailing white space.
pub open spec fn trim(s: Seq<char>) -> Seq<char> {
    trim_end(trim_start(s))
}

/// Whether `c` has the Unicode property `White_Space`.
fn is_white_space_char(c: char) -> (r: bool)
    ensures
        r == is_white_space(c),
{
    let u = c as u32;
    (0x09 <= u && u <= 0x0d) || u == 0x20 || u == 0x85 || u == 0xa0 || u == 0x1680 || (0x2000
        <= u && u <= 0x200a) || u == 0x2028 || u == 0x2029 || u == 0x202f || u == 0x205f || u
        == 0x3000
}

/// White space at the start does not change what `trim_start` gives.
proof fn lemma_trim_start_skip(s: Seq<char>, i: int)
    requires
        0 <= i <= s.len(),
        forall|j: int| 0 <= j < i ==> is_white_space(s[j]),
    ensures
        trim_start(s) == trim_start(s.skip(i)),
    decreases i,
{
    if i > 0 {
        assert(s.drop_first().skip(i - 1) =~= s.skip(i));
        lemma_trim_start_skip(s.drop_first(), i - 1);
    } else {
        assert(s.skip(0) =~= s);
    }
}

/// White space at the end does not change what `trim_end` gives.
proof fn lemma_trim_end_take(s: Seq<char>, e: int)
    requires
        0 <= e <= s.len(),
        forall|j: int| e <= j < s.len() ==> is_white_space(s[j]),
    ensures
        trim_end(s) == trim_end(s.take(e)),
    decreases s.len() - e,
{
    if e < s.len() {
        assert(s.drop_last().take(e) =~= s.take(e));
        lemma_trim_end_take(s.drop_last(), e);
    } else {
        assert(s.take(e) =~= s);
    }
}

/// `s` without leading and trailing white space, as `str::trim` gives it.
pub fn trimmed(s: &str) -> (r: String)
    ensures
        r@ == trim(s@),
{
    let n = s.unicode_len();
    let mut start: usize = 0;
    while start < n && is_white_space_char(s.get_char(start))
        invariant
            0 <= start <= n,
            n == s@.len(),
            forall|j: int| 0 <= j < start ==> is_white_space(s@[j]),
        decreases n - start,
    {
        start = start + 1;
    }
    let mut end: usize = n;
    while end > start && is_white_space_char(s.get_char(end - 1))
        invariant
            start <= end <= n,
            n == s@.len(),
            forall|j: int| end <= j < n ==> is_white_space(s@[j]),
        decreases end,
    {
        end = end - 1;
    }
    proof {
        lemma_trim_start_skip(s@, start as int);
        let u = s@.skip(start as int);
        assert(trim_start(u) == u);
        lemma_trim_end_take(u, end - start);
        assert(u.take(end - start) =~= s@.subrange(start as int, end as int));
        assert(trim_end(u.take(end - start)) == u.take(end - start));
    }
    String::from_str(s.substring_char(start, end))
}

} // verus!
