pub mod address;
pub mod args;
pub mod config;
pub mod errors;
pub mod pattern;
pub mod pipeline;
pub mod request;
pub mod router;
pub mod selector;
pub mod store;
pub mod transform;

use vstd::prelude::*;

verus! {

/// Lower-case image of one ASCII byte: letters `A`..`Z` map to `a`..`z`,
/// every other byte is unchanged.
pub open spec fn ascii_lower(b: u8) -> u8 {
    if 65 <= b && b <= 90 {
        (b + 32) as u8
    } else {
        b
    }
}

/// Case-insensitive equality of two byte strings, ASCII letters only.
pub open spec fn eq_ignore_ascii_case(a: Seq<u8>, b: Seq<u8>) -> bool {
    a.map_values(|x: u8| ascii_lower(x)) == b.map_values(|x: u8| ascii_lower(x))
}

/// Compares two byte strings ignoring ASCII case.
pub fn bytes_eq_ignore_case(a: &[u8], b: &[u8]) -> (r: bool)
    ensures
        r == eq_ignore_ascii_case(a@, b@),
{
    if a.len() != b.len() {
        proof {
            assert(a@.map_values(|x: u8| ascii_lower(x)).len() == a@.len());
            assert(b@.map_values(|x: u8| ascii_lower(x)).len() == b@.len());
        }
        return false;
    }
    let mut i: usize = 0;
    while i < a.len()
        invariant
            0 <= i <= a.len(),
            a.len() == b.len(),
            forall|j: int| 0 <= j < i ==> ascii_lower(a@[j]) == ascii_lower(b@[j]),
        decreases a.len() - i,
    {
        let x = a[i];
        let y = b[i];
        let lx = if 65 <= x && x <= 90 { x + 32 } else { x };
        let ly = if 65 <= y && y <= 90 { y + 32 } else { y };
        if lx != ly {
            proof {
                assert(a@.map_values(|x: u8| ascii_lower(x))[i as int] == ascii_lower(a@[i as int]));
                assert(b@.map_values(|x: u8| ascii_lower(x))[i as int] == ascii_lower(b@[i as int]));
            }
            return false;
        }
        i = i + 1;
    }
    proof {
        assert(a@.map_values(|x: u8| ascii_lower(x)) =~= b@.map_values(|x: u8| ascii_lower(x)));
    }
    true
}

/// Compares two byte strings for exact equality.
pub fn bytes_eq(a: &[u8], b: &[u8]) -> (r: bool)
    ensures
        r == (a@ == b@),
{
    if a.len() != b.len() {
        return false;
    }
    let mut i: usize = 0;
    while i < a.len()
        invariant
            0 <= i <= a.len(),
            a.len() == b.len(),
            forall|j: int| 0 <= j < i ==> a@[j] == b@[j],
        decreases a.len() - i,
    {
        if a[i] != b[i] {
            return false;
        }
        i = i + 1;
    }
    proof {
        assert(a@ =~= b@);
    }
    true
}

/// Whether `p` is a byte prefix of `s`.
pub fn bytes_is_prefix(p: &[u8], s: &[u8]) -> (r: bool)
    ensures
        r == p@.is_prefix_of(s@),
{
    if p.len() > s.len() {
        return false;
    }
    let mut i: usize = 0;
    while i < p.len()
        invariant
            0 <= i <= p.len(),
            p.len() <= s.len(),
            forall|j: int| 0 <= j < i ==> p@[j] == s@[j],
        decreases p.len() - i,
    {
        if p[i] != s[i] {
            return false;
        }
        i = i + 1;
    }
    proof {
        assert(p@ =~= s@.subrange(0, p@.len() as int));
    }
    true
}

} // verus!
