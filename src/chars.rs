//! Character-level helpers shared by the text transformations.

use vstd::prelude::*;

verus! {

/// The characters of `s`, one by one.
pub fn chars_of(s: &str) -> (r: Vec<char>)
    ensures
        r@ == s@,
{
    let n = s.unicode_len();
    let mut r: Vec<char> = Vec::new();
    let mut i: usize = 0;
    while i < n
        invariant
            n == s@.len(),
            i <= n,
            r@ == s@.subrange(0, i as int),
        decreases n - i,
    {
        r.push(s.get_char(i));
        i = i + 1;
    }
    r
}

/// Relies on `String::from_iter` over `char`s: the string holds the given
/// characters in order.
#[verifier::external_body]
pub(crate) fn string_of(v: &Vec<char>) -> (r: String)
    ensures
        r@ == v@,
{
    v.iter().collect()
}

/// Whether `t` occurs in `s` as a contiguous run.
pub open spec fn occurs_in(t: Seq<char>, s: Seq<char>) -> bool {
    exists|k: int| 0 <= k && k + t.len() <= s.len() && #[trigger] s.subrange(k, k + t.len()) == t
}

/// Whether `t` occurs in `s`.
pub fn contains_chars(s: &Vec<char>, t: &Vec<char>) -> (r: bool)
    ensures
        r == occurs_in(t@, s@),
{
    if t.len() > s.len() {
        return false;
    }
    let n = s.len();
    let last = n - t.len();
    let mut k: usize = 0;
    while k <= last
        invariant
            last + t@.len() == s@.len(),
            n == s@.len(),
            k <= last,
            forall|j: int| 0 <= j < k ==> #[trigger] s@.subrange(j, j + t@.len()) != t@,
        decreases last - k,
    {
        let mut i: usize = 0;
        let mut same = true;
        while i < t.len()
            invariant
                k <= last,
                n == s@.len(),
                last + t@.len() == s@.len(),
                i <= t@.len(),
                same == (forall|m: int| 0 <= m < i ==> s@[k + m] == t@[m]),
            decreases t@.len() - i,
        {
            if s[k + i] != t[i] {
                same = false;
            }
            i = i + 1;
        }
        if same {
            assert(s@.subrange(k as int, k + t@.len()) =~= t@);
            return true;
        }
        assert(s@.subrange(k as int, k + t@.len()) != t@) by {
            if s@.subrange(k as int, k + t@.len()) == t@ {
                assert forall|m: int| 0 <= m < t@.len() implies s@[k + m] == t@[m] by {
                    assert(s@.subrange(k as int, k + t@.len())[m] == s@[k + m]);
                }
            }
        };
        if k == last {
            assert forall|j: int| 0 <= j && j + t@.len() <= s@.len() implies #[trigger] s@.subrange(
                j,
                j + t@.len(),
            ) != t@ by {
                assert(j <= k);
            }
            return false;
        }
        k = k + 1;
    }
    false
}

} // verus!
