//! Case-insensitive substring matching, the heart of search: lowercasing is
//! delegated to the standard library under the name [`lower_of`], and the
//! substring scan itself is verified.

use vstd::prelude::*;
use vstd::string::StrSliceExecFns;
use crate::types::{Document, DocView};

verus! {

/// What `str::to_lowercase` returns for a given character sequence: the
/// result depends on the characters alone.
pub uninterp spec fn lower_of(s: Seq<char>) -> Seq<char>;

/// Relies on `str::to_lowercase`: the returned string is the Unicode
/// lowercase form of the input, a function of the input characters alone.
#[verifier::external_body]
fn lowercase(s: &String) -> (r: String)
    ensures
        r@ == lower_of(s@),
{
    s.to_lowercase()
}

/// `needle` occurs in `hay` starting at position `i`.
pub open spec fn is_match_at(hay: Seq<char>, needle: Seq<char>, i: int) -> bool {
    &&& 0 <= i
    &&& i + needle.len() <= hay.len()
    &&& hay.subrange(i, i + needle.len() as int) == needle
}

/// `needle` occurs somewhere in `hay`; the empty needle occurs everywhere.
pub open spec fn contains_seq(hay: Seq<char>, needle: Seq<char>) -> bool {
    exists|i: int| is_match_at(hay, needle, i)
}

/// How a document is matched against a query: the lowercased query occurs
/// in the lowercased title or in the lowercased description.
pub open spec fn doc_matches(d: DocView, q: Seq<char>) -> bool {
    ||| contains_seq(lower_of(d.title), lower_of(q))
    ||| contains_seq(lower_of(d.description), lower_of(q))
}

/// The characters of `s`, in order.
fn to_chars(s: &String) -> (r: Vec<char>)
    ensures
        r@ == s@,
{
    let st: &str = s.as_str();
    let n = st.unicode_len();
    let mut out: Vec<char> = Vec::new();
    let mut i: usize = 0;
    while i < n
        invariant
            0 <= i <= n,
            n == s@.len(),
            st@ == s@,
            out@ == s@.take(i as int),
        decreases n - i,
    {
        out.push(st.get_char(i));
        proof {
            assert(s@.take(i as int).push(s@[i as int]) =~= s@.take(i as int + 1));
        }
        i += 1;
    }
    proof {
        assert(s@.take(n as int) =~= s@);
    }
    out
}

fn match_at(hay: &Vec<char>, needle: &Vec<char>, i: usize) -> (r: bool)
    requires
        i + needle@.len() <= hay@.len(),
    ensures
        r == is_match_at(hay@, needle@, i as int),
{
    let n = needle.len();
    let hl = hay.len();
    let mut j: usize = 0;
    while j < n
        invariant
            0 <= j <= n,
            n == needle@.len(),
            hl == hay@.len(),
            i + n <= hl,
            forall|k: int| 0 <= k < j ==> hay@[i + k] == needle@[k],
        decreases n - j,
    {
        if hay[i + j] != needle[j] {
            assert(hay@.subrange(i as int, i as int + needle@.len() as int)[j as int]
                != needle@[j as int]);
            return false;
        }
        j += 1;
    }
    proof {
        assert(hay@.subrange(i as int, i as int + needle@.len() as int) =~= needle@);
    }
    true
}

/// Whether `needle` occurs in `hay` as a contiguous run of characters.
pub fn contains_chars(hay: &Vec<char>, needle: &Vec<char>) -> (r: bool)
    ensures
        r == contains_seq(hay@, needle@),
{
    if needle.len() == 0 {
        proof {
            assert(hay@.subrange(0, 0) =~= needle@);
            assert(is_match_at(hay@, needle@, 0));
        }
        return true;
    }
    if needle.len() > hay.len() {
        assert(forall|i: int| !is_match_at(hay@, needle@, i));
        return false;
    }
    let hl = hay.len();
    let last = hl - needle.len();
    let mut i: usize = 0;
    while i <= last
        invariant
            0 <= i <= last + 1,
            hl == hay@.len(),
            last == hay@.len() - needle@.len(),
            1 <= needle@.len() <= hay@.len(),
            forall|k: int| 0 <= k < i ==> !is_match_at(hay@, needle@, k),
        decreases last + 1 - i,
    {
        if match_at(hay, needle, i) {
            return true;
        }
        i += 1;
    }
    assert(forall|k: int| is_match_at(hay@, needle@, k) ==> 0 <= k <= last);
    false
}

/// Whether `doc` is matched by `query`: the lowercased query occurs in the
/// lowercased title or description.
pub fn document_matches(doc: &Document, query: &String) -> (r: bool)
    ensures
        r == doc_matches(doc@, query@),
{
    let lq = lowercase(query);
    let needle = to_chars(&lq);
    let lt = lowercase(&doc.title);
    let title_chars = to_chars(&lt);
    if contains_chars(&title_chars, &needle) {
        return true;
    }
    let ld = lowercase(&doc.description);
    let description_chars = to_chars(&ld);
    contains_chars(&description_chars, &needle)
}

} // verus!
