//! Verified character-level string helpers: equality, splitting a file name
//! into stem and extension, and locating a literal marker.

use vstd::prelude::*;
use vstd::string::*;

verus! {

/// True iff the two string slices hold the same characters.
pub fn str_eq(a: &str, b: &str) -> (r: bool)
    ensures
        r == (a@ == b@),
{
    let alen = a.unicode_len();
    let blen = b.unicode_len();
    if alen != blen {
        return false;
    }
    let mut i: usize = 0;
    while i < alen
        invariant
            alen == a@.len(),
            alen == b@.len(),
            i <= alen,
            forall|j: int| 0 <= j < i ==> a@[j] == b@[j],
        decreases alen - i,
    {
        if a.get_char(i) != b.get_char(i) {
            return false;
        }
        i += 1;
    }
    proof {
        assert(a@ =~= b@);
    }
    true
}

/// Position of the last `.` in `name` at an index of 1 or more, scanning
/// downward from `i`; `None` when no such dot exists at or below `i`.
pub open spec fn last_dot_from(name: Seq<char>, i: int) -> Option<int>
    decreases i,
{
    if i < 1 || i >= name.len() {
        None
    } else if name[i] == '.' {
        Some(i)
    } else {
        last_dot_from(name, i - 1)
    }
}

/// Stem and extension of a file name: the name splits at its last `.` unless
/// the only dot leads the name, in which case the extension is empty.
pub open spec fn split_ext_spec(name: Seq<char>) -> (Seq<char>, Seq<char>) {
    match last_dot_from(name, name.len() - 1) {
        Some(i) => (name.take(i), name.skip(i + 1)),
        None => (name, Seq::<char>::empty()),
    }
}

/// Splits a file name into its stem and extension.
pub fn split_ext(name: &str) -> (r: (String, String))
    ensures
        (r.0@, r.1@) == split_ext_spec(name@),
{
    let len = name.unicode_len();
    if len == 0 {
        return (String::from_str(name), String::new());
    }
    let mut i: usize = len - 1;
    while i >= 1
        invariant
            len == name@.len(),
            0 <= i < len,
            last_dot_from(name@, len - 1) == last_dot_from(name@, i as int),
        decreases i,
    {
        if name.get_char(i) == '.' {
            let stem = name.substring_char(0, i);
            let ext = name.substring_char(i + 1, len);
            proof {
                assert(stem@ =~= name@.take(i as int));
                assert(ext@ =~= name@.skip(i as int + 1));
            }
            return (String::from_str(stem), String::from_str(ext));
        }
        i -= 1;
    }
    proof {
        assert(last_dot_from(name@, name@.len() - 1) is None);
    }
    (String::from_str(name), String::new())
}

} // verus!
