//! Numbers as bytes, in either order.
use vstd::prelude::*;

verus! {

/// 256 to the power of `n`.
pub open spec fn pow256(n: nat) -> int
    decreases n,
{
    if n == 0 {
        1
    } else {
        256 * pow256((n - 1) as nat)
    }
}

/// The `n` lowest bytes of `x`, lowest first.
pub open spec fn le_bytes(x: int, n: nat) -> Seq<u8>
    decreases n,
{
    if n == 0 {
        Seq::empty()
    } else {
        seq![(x % 256) as u8] + le_bytes(x / 256, (n - 1) as nat)
    }
}

/// The number whose bytes, lowest first, are `s`.
pub open spec fn from_le(s: Seq<u8>) -> int
    decreases s.len(),
{
    if s.len() == 0 {
        0
    } else {
        s[0] + 256 * from_le(s.drop_first())
    }
}

/// The `n` lowest bytes of `x`, highest first.
pub open spec fn be_bytes(x: int, n: nat) -> Seq<u8>
    decreases n,
{
    if n == 0 {
        Seq::empty()
    } else {
        be_bytes(x / 256, (n - 1) as nat).push((x % 256) as u8)
    }
}

/// The number whose bytes, highest first, are `s`.
pub open spec fn from_be(s: Seq<u8>) -> int
    decreases s.len(),
{
    if s.len() == 0 {
        0
    } else {
        256 * from_be(s.drop_last()) + s.last()
    }
}

/// Bytes written lowest first read back as the number they were written from.
pub proof fn law_le_round_trip(x: int, n: nat)
    requires
        0 <= x < pow256(n),
    ensures
        le_bytes(x, n).len() == n,
        from_le(le_bytes(x, n)) == x,
    decreases n,
{
    if n > 0 {
        law_le_round_trip(x / 256, (n - 1) as nat);
        assert(le_bytes(x, n).drop_first() =~= le_bytes(x / 256, (n - 1) as nat));
    }
}

/// Bytes written highest first read back as the number they were written from.
pub proof fn law_be_round_trip(x: int, n: nat)
    requires
        0 <= x < pow256(n),
    ensures
        be_bytes(x, n).len() == n,
        from_be(be_bytes(x, n)) == x,
    decreases n,
{
    if n > 0 {
        law_be_round_trip(x / 256, (n - 1) as nat);
        assert(be_bytes(x, n).drop_last() =~= be_bytes(x / 256, (n - 1) as nat));
    }
}

/// Appends the `n` lowest bytes of `x`, lowest first.
pub fn push_le(out: &mut Vec<u8>, x: u64, n: usize)
    ensures
        final(out)@ == old(out)@ + le_bytes(x as int, n as nat),
{
    let ghost all = old(out)@ + le_bytes(x as int, n as nat);
    let mut rest: u64 = x;
    let mut left: usize = n;
    while left > 0
        invariant
            out@ + le_bytes(rest as int, left as nat) == all,
        decreases left,
    {
        let ghost prev = out@;
        out.push((rest % 256) as u8);
        proof {
            assert(out@ + le_bytes((rest / 256) as int, (left - 1) as nat) =~= prev + le_bytes(
                rest as int,
                left as nat,
            ));
        }
        rest = rest / 256;
        left = left - 1;
    }
    assert(out@ =~= all);
}

/// The number in the `n` bytes of `buf` from `at` on, lowest first.
pub fn read_le(buf: &[u8], at: usize, n: usize) -> (x: u64)
    requires
        n <= 8,
        at + n <= buf@.len(),
    ensures
        x == from_le(buf@.subrange(at as int, at + n)),
        x < pow256(n as nat),
{
    let mut x: u64 = 0;
    let mut i: usize = n;
    proof {
        reveal_with_fuel(pow256, 9);
        assert(buf@.subrange(at + i, at + n) =~= Seq::empty());
    }
    while i > 0
        invariant
            i <= n <= 8,
            at + n <= buf.len(),
            x == from_le(buf@.subrange(at + i, at + n)),
            x < pow256((n - i) as nat),
        decreases i,
    {
        i = i - 1;
        proof {
            reveal_with_fuel(pow256, 9);
            assert(buf@.subrange(at + i, at + n).drop_first() =~= buf@.subrange(
                at + i + 1,
                at + n,
            ));
        }
        x = buf[at + i] as u64 + 256 * x;
    }
    x
}

/// The number in the `n` bytes of `buf` from `at` on, highest first.
pub fn read_be(buf: &[u8], at: usize, n: usize) -> (x: u64)
    requires
        n <= 8,
        at + n <= buf@.len(),
    ensures
        x == from_be(buf@.subrange(at as int, at + n)),
        x < pow256(n as nat),
{
    let mut x: u64 = 0;
    let mut i: usize = 0;
    proof {
        reveal_with_fuel(pow256, 9);
        assert(buf@.subrange(at as int, at + i) =~= Seq::empty());
    }
    while i < n
        invariant
            i <= n <= 8,
            at + n <= buf.len(),
            x == from_be(buf@.subrange(at as int, at + i)),
            x < pow256(i as nat),
        decreases n - i,
    {
        proof {
            reveal_with_fuel(pow256, 9);
            assert(buf@.subrange(at as int, at + i + 1).drop_last() =~= buf@.subrange(
                at as int,
                at + i,
            ));
        }
        x = 256 * x + buf[at + i] as u64;
        i = i + 1;
    }
    x
}

/// Copies `n` bytes of `src`, from `from` on, over those of `dst` from `to` on.
pub fn copy_bytes(src: &[u8], from: usize, dst: &mut [u8], to: usize, n: usize)
    requires
        from + n <= src@.len(),
        to + n <= old(dst)@.len(),
    ensures
        final(dst)@ == Seq::new(
            old(dst)@.len(),
            |p: int|
                if to <= p < to + n {
                    src@[from + (p - to)]
                } else {
                    old(dst)@[p]
                },
        ),
{
    let (slen, dlen): (usize, usize) = (src.len(), dst.len());
    let mut i: usize = 0;
    while i < n
        invariant
            i <= n,
            from + n <= slen == src@.len(),
            to + n <= dlen == dst@.len(),
            dst@.len() == old(dst)@.len(),
            forall|p: int|
                0 <= p < dlen ==> #[trigger] dst@[p] == if to <= p < to + i {
                    src@[from + (p - to)]
                } else {
                    old(dst)@[p]
                },
        decreases n - i,
    {
        dst[to + i] = src[from + i];
        i = i + 1;
    }
    assert(dst@ =~= Seq::new(
        old(dst)@.len(),
        |p: int|
            if to <= p < to + n {
                src@[from + (p - to)]
            } else {
                old(dst)@[p]
            },
    ));
}

/// Lowest first, byte `i` counts in the `i`th power of 256.
pub proof fn law_lowest_byte_first(x: int, n: nat, i: int)
    requires
        0 <= x,
        0 <= i < n,
    ensures
        le_bytes(x, n).len() == n,
        le_bytes(x, n)[i] == (x / pow256(i as nat)) % 256,
        pow256(i as nat) > 0,
    decreases n,
{
    lemma_length(x / 256, (n - 1) as nat);
    if i == 0 {
        assert(x / 1 == x);
    } else {
        law_lowest_byte_first(x / 256, (n - 1) as nat, i - 1);
        let p = pow256((i - 1) as nat);
        vstd::arithmetic::div_mod::lemma_div_denominator(x, 256, p);
        assert(x / 256 / p == x / (256 * p));
    }
}

proof fn lemma_length(x: int, n: nat)
    ensures
        le_bytes(x, n).len() == n,
        be_bytes(x, n).len() == n,
    decreases n,
{
    if n > 0 {
        lemma_length(x / 256, (n - 1) as nat);
    }
}

/// Highest first is lowest first the other way round.
pub proof fn law_the_orders_are_each_others_reverse(x: int, n: nat, s: Seq<u8>)
    ensures
        be_bytes(x, n) == le_bytes(x, n).reverse(),
        from_be(s) == from_le(s.reverse()),
    decreases n, s.len(),
{
    lemma_length(x, n);
    if n > 0 {
        law_the_orders_are_each_others_reverse(x / 256, (n - 1) as nat, s);
        lemma_length(x / 256, (n - 1) as nat);
        assert(be_bytes(x, n) =~= le_bytes(x, n).reverse());
    } else {
        assert(be_bytes(x, n) =~= le_bytes(x, n).reverse());
        if s.len() > 0 {
            law_the_orders_are_each_others_reverse(x, 0, s.drop_last());
            assert(s.reverse().drop_first() =~= s.drop_last().reverse());
        }
    }
}

/// A number of which one byte, the lowest, is `b`, and the rest are `rest`.
pub proof fn law_a_number_is_its_bytes(b: u8, rest: Seq<u8>)
    ensures
        from_le(seq![b] + rest) == b + 256 * from_le(rest),
        from_be(rest.push(b)) == 256 * from_be(rest) + b,
        from_le(seq![b]) == b,
        from_be(seq![b]) == b,
{
    reveal_with_fuel(from_le, 2);
    reveal_with_fuel(from_be, 2);
    assert((seq![b] + rest).drop_first() =~= rest);
    assert(rest.push(b).drop_last() =~= rest);
    assert(seq![b].drop_first() =~= Seq::<u8>::empty());
    assert(seq![b].drop_last() =~= Seq::<u8>::empty());
}

} // verus!
