//! Character-level helpers for the names the repository works with:
//! hidden-name detection, stem/extension splitting, and substring search.

use vstd::prelude::*;

verus! {

/// A name is hidden when it starts with `.`.
pub open spec fn is_hidden_name(s: Seq<char>) -> bool {
    s.len() > 0 && s[0] == '.'
}

/// The index of the dot that separates a stem from an extension: the largest
/// index `>= 1` holding `.`, or `-1` when there is none.  A dot at index `0`
/// does not count: a name such as `.profile` has no extension, only a hidden
/// marker.
pub open spec fn last_sep_dot(s: Seq<char>) -> int
    decreases s.len(),
{
    if s.len() <= 1 {
        -1
    } else if s[s.len() - 1] == '.' {
        s.len() - 1
    } else {
        last_sep_dot(s.drop_last())
    }
}

/// The stem of a name: everything before the extension separator, or the
/// whole name when there is no extension.
pub open spec fn stem_of(s: Seq<char>) -> Seq<char> {
    if last_sep_dot(s) >= 0 {
        s.take(last_sep_dot(s))
    } else {
        s
    }
}

/// The extension of a name: everything after the separator, empty when there
/// is none.
pub open spec fn extension_of(s: Seq<char>) -> Seq<char> {
    if last_sep_dot(s) >= 0 {
        s.subrange(last_sep_dot(s) + 1, s.len() as int)
    } else {
        Seq::empty()
    }
}

/// The separator index is `-1` or a proper index at least `1`.
pub proof fn lemma_last_sep_dot_bounds(s: Seq<char>)
    ensures
        last_sep_dot(s) == -1 || (1 <= last_sep_dot(s) < s.len()),
    decreases s.len(),
{
    if s.len() > 1 && s[s.len() - 1] != '.' {
        lemma_last_sep_dot_bounds(s.drop_last());
    }
}

/// A dot at `i >= 1` with no later dot is the separator.
proof fn lemma_last_sep_dot_found(s: Seq<char>, i: int)
    requires
        1 <= i < s.len(),
        s[i] == '.',
        forall|j: int| i < j < s.len() ==> s[j] != '.',
    ensures
        last_sep_dot(s) == i,
    decreases s.len(),
{
    if i < s.len() - 1 {
        lemma_last_sep_dot_found(s.drop_last(), i);
    }
}

/// With no dot at any index `>= 1` there is no separator.
proof fn lemma_last_sep_dot_none(s: Seq<char>)
    requires
        forall|j: int| 1 <= j < s.len() ==> s[j] != '.',
    ensures
        last_sep_dot(s) == -1,
    decreases s.len(),
{
    if s.len() > 1 {
        lemma_last_sep_dot_none(s.drop_last());
    }
}

/// Does the string start with `.`?
pub fn starts_with_dot(s: &str) -> (r: bool)
    ensures
        r == is_hidden_name(s@),
{
    if s.unicode_len() == 0 {
        false
    } else {
        s.get_char(0) == '.'
    }
}

/// Are the two strings equal, character for character?
pub fn str_eq(a: &str, b: &str) -> (r: bool)
    ensures
        r == (a@ == b@),
{
    let a_len = a.unicode_len();
    let b_len = b.unicode_len();
    if a_len != b_len {
        return false;
    }
    let mut i: usize = 0;
    while i < a_len
        invariant
            i <= a_len,
            a_len == a@.len(),
            a_len == b@.len(),
            forall|j: int| 0 <= j < i ==> a@[j] == b@[j],
        decreases a_len - i,
    {
        if a.get_char(i) != b.get_char(i) {
            return false;
        }
        i = i + 1;
    }
    proof {
        assert(a@ =~= b@);
    }
    true
}

/// The index of the extension separator of this name, if it has one.
pub fn find_sep_dot(s: &str) -> (r: Option<usize>)
    ensures
        match r {
            Some(i) => last_sep_dot(s@) == i as int,
            None => last_sep_dot(s@) == -1,
        },
{
    let len = s.unicode_len();
    let mut i: usize = len;
    while i > 1
        invariant
            i <= len,
            len == s@.len(),
            forall|j: int| i <= j < len ==> s@[j] != '.',
        decreases i,
    {
        i = i - 1;
        if s.get_char(i) == '.' {
            proof {
                lemma_last_sep_dot_found(s@, i as int);
            }
            return Some(i);
        }
    }
    proof {
        lemma_last_sep_dot_none(s@);
    }
    None
}

/// The stem of a file name, as an owned string.
pub fn stem_of_name(name: &str) -> (r: String)
    ensures
        r@ == stem_of(name@),
{
    proof {
        lemma_last_sep_dot_bounds(name@);
    }
    match find_sep_dot(name) {
        Some(i) => name.substring_char(0, i).to_owned(),
        None => name.to_owned(),
    }
}

/// The extension of a file name, empty when it has none.
pub fn extension_of_name(name: &str) -> (r: String)
    ensures
        r@ == extension_of(name@),
{
    proof {
        lemma_last_sep_dot_bounds(name@);
    }
    let len = name.unicode_len();
    match find_sep_dot(name) {
        Some(i) => name.substring_char(i + 1, len).to_owned(),
        None => String::new(),
    }
}

/// Does `hay` contain `needle` as a contiguous subsequence?
pub open spec fn contains_subseq(hay: Seq<char>, needle: Seq<char>) -> bool {
    exists|k: int|
        0 <= k && k + needle.len() <= hay.len() && #[trigger] hay.subrange(k, k + needle.len())
            == needle
}

/// Does `hay` contain `needle` as a contiguous substring?
pub fn contains_substring(hay: &str, needle: &str) -> (r: bool)
    ensures
        r == contains_subseq(hay@, needle@),
{
    let hay_len = hay.unicode_len();
    let needle_len = needle.unicode_len();
    if needle_len > hay_len {
        return false;
    }
    let mut k: usize = 0;
    while k <= hay_len - needle_len
        invariant
            needle_len <= hay_len,
            hay_len == hay@.len(),
            needle_len == needle@.len(),
            k <= hay_len - needle_len + 1,
            forall|k2: int|
                0 <= k2 < k ==> #[trigger] hay@.subrange(k2, k2 + needle@.len() as int)
                    != needle@,
        decreases hay_len - needle_len + 1 - k,
    {
        let mut j: usize = 0;
        let mut mismatch = false;
        while j < needle_len && !mismatch
            invariant
                j <= needle_len,
                k + needle_len <= hay_len,
                hay_len == hay@.len(),
                needle_len == needle@.len(),
                !mismatch ==> forall|j2: int| 0 <= j2 < j ==> hay@[k + j2] == needle@[j2],
                mismatch ==> exists|j2: int| 0 <= j2 < needle@.len() && hay@[k + j2] != needle@[j2],
            decreases needle_len - j + (if mismatch { 0int } else { 1int }),
        {
            if hay.get_char(k + j) != needle.get_char(j) {
                mismatch = true;
            } else {
                j = j + 1;
            }
        }
        if !mismatch {
            proof {
                assert(hay@.subrange(k as int, k + needle@.len() as int) =~= needle@);
            }
            return true;
        }
        proof {
            assert(hay@.subrange(k as int, k + needle@.len() as int) != needle@) by {
                let j2 = choose|j2: int|
                    0 <= j2 < needle@.len() && hay@[k + j2] != needle@[j2];
                assert(hay@.subrange(k as int, k + needle@.len() as int)[j2] == hay@[k + j2]);
            }
        }
        k = k + 1;
    }
    false
}

} // verus!
