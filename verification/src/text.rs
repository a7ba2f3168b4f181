//! Comparing text.
use vstd::prelude::*;

verus! {

/// The bytes of a text.
pub open spec fn utf8(s: Seq<char>) -> Seq<u8> {
    vstd::utf8::encode_utf8(s)
}

/// Whether `len` bytes of `a` from `at` on are those of `b`.
fn same_bytes(a: &[u8], at: usize, b: &[u8]) -> (r: bool)
    requires
        at + b@.len() <= a@.len(),
    ensures
        r == (a@.subrange(at as int, at + b@.len()) == b@),
{
    let end: usize = a.len();
    let mut i: usize = 0;
    while i < b.len()
        invariant
            i <= b@.len(),
            end == a@.len(),
            at + b@.len() <= end,
            forall|j: int| 0 <= j < i ==> a@[at + j] == #[trigger] b@[j],
        decreases b@.len() - i,
    {
        if a[at + i] != b[i] {
            assert(a@.subrange(at as int, at + b@.len())[i as int] != b@[i as int]);
            return false;
        }
        i = i + 1;
    }
    assert(a@.subrange(at as int, at + b@.len()) =~= b@);
    true
}

/// Whether two texts are the same.
pub fn same(a: &str, b: &str) -> (r: bool)
    ensures
        r == (a@ == b@),
{
    let x: &[u8] = a.as_bytes();
    let y: &[u8] = b.as_bytes();
    proof {
        vstd::utf8::encode_utf8_decode_utf8(a@);
        vstd::utf8::encode_utf8_decode_utf8(b@);
    }
    if x.len() != y.len() {
        return false;
    }
    assert(x@.subrange(0, y@.len() as int) =~= x@);
    same_bytes(x, 0, y)
}

/// Whether a text begins with another.
pub fn starts_with(a: &str, p: &str) -> (r: bool)
    ensures
        r == utf8(p@).is_prefix_of(utf8(a@)),
{
    let x: &[u8] = a.as_bytes();
    let y: &[u8] = p.as_bytes();
    if y.len() > x.len() {
        return false;
    }
    same_bytes(x, 0, y)
}

/// Whether a text ends with another.
pub fn ends_with(a: &str, p: &str) -> (r: bool)
    ensures
        r == utf8(p@).is_suffix_of(utf8(a@)),
{
    let x: &[u8] = a.as_bytes();
    let y: &[u8] = p.as_bytes();
    if y.len() > x.len() {
        return false;
    }
    same_bytes(x, x.len() - y.len(), y)
}

/// How many bytes a text has.
pub fn byte_len(a: &str) -> (n: usize)
    ensures
        n == utf8(a@).len(),
{
    a.as_bytes().len()
}

/// Whether bytes begin with others.
pub fn bytes_start_with(a: &Vec<u8>, p: &Vec<u8>) -> (r: bool)
    ensures
        r == p@.is_prefix_of(a@),
{
    if p.len() > a.len() {
        return false;
    }
    same_bytes(a.as_slice(), 0, p.as_slice())
}

} // verus!
