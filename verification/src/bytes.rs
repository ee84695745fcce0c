//! Big-endian byte-sequence arithmetic: the numeric value of a byte word,
//! extraction of sub-words, and two's-complement magnitude of signed words.

use vstd::prelude::*;

verus! {

/// The unsigned big-endian value of a byte sequence.
pub open spec fn be_val(s: Seq<u8>) -> nat
    decreases s.len(),
{
    if s.len() == 0 {
        0
    } else {
        (be_val(s.drop_last()) * 256 + s.last()) as nat
    }
}

/// 256 raised to the power `n`: the number of values a byte word of length `n` can hold.
pub open spec fn pow256(n: nat) -> nat
    decreases n,
{
    if n == 0 {
        1
    } else {
        256 * pow256((n - 1) as nat)
    }
}

pub proof fn lemma_pow256_pos(n: nat)
    ensures
        pow256(n) >= 1,
    decreases n,
{
    if n > 0 {
        lemma_pow256_pos((n - 1) as nat);
    }
}

pub proof fn lemma_pow256_16()
    ensures
        pow256(16) == 0x100000000000000000000000000000000,
{
    assert(pow256(16) == 0x100000000000000000000000000000000) by {
        reveal_with_fuel(pow256, 17);
    }
}

/// A big-endian word is zero exactly when every byte is zero.
pub proof fn lemma_be_val_zero(s: Seq<u8>)
    ensures
        (be_val(s) == 0) <==> (forall|i: int| 0 <= i < s.len() ==> s[i] == 0),
    decreases s.len(),
{
    if s.len() > 0 {
        lemma_be_val_zero(s.drop_last());
        assert(forall|i: int| 0 <= i < s.len() - 1 ==> s[i] == s.drop_last()[i]);
        if forall|i: int| 0 <= i < s.len() ==> s[i] == 0 {
            assert(s.last() == 0);
        }
    }
}

/// Copies `data[from..to]` into a fresh vector.
pub fn copy_range(data: &Vec<u8>, from: usize, to: usize) -> (r: Vec<u8>)
    requires
        from <= to <= data@.len(),
    ensures
        r@ == data@.subrange(from as int, to as int),
{
    let mut r: Vec<u8> = Vec::new();
    let mut i: usize = from;
    while i < to
        invariant
            from <= i <= to <= data@.len(),
            r@ =~= data@.subrange(from as int, i as int),
        decreases to - i,
    {
        r.push(data[i]);
        i = i + 1;
    }
    proof {
        assert(r@ =~= data@.subrange(from as int, to as int));
    }
    r
}

/// Reads a big-endian 24-bit unsigned integer from `data[start..start + 3]`.
pub fn be_u32_3(data: &Vec<u8>, start: usize) -> (r: u32)
    requires
        start + 3 <= data@.len(),
    ensures
        r as nat == be_val(data@.subrange(start as int, start + 3)),
{
    let n = data.len();
    proof {
        assert(start + 3 <= n);
    }
    let b0 = data[start];
    let b1 = data[start + 1];
    let b2 = data[start + 2];
    let r: u32 = (b0 as u32) * 65536 + (b1 as u32) * 256 + (b2 as u32);
    proof {
        let s = data@.subrange(start as int, start + 3);
        let s2 = s.drop_last();
        let s1 = s2.drop_last();
        let s0 = s1.drop_last();
        assert(s.last() == b2 && s2.last() == b1 && s1.last() == b0);
        assert(s0.len() == 0);
        assert(be_val(s0) == 0);
        assert(be_val(s1) == b0 as nat);
        assert(be_val(s2) == (b0 as nat) * 256 + b1);
        assert(be_val(s) == be_val(s2) * 256 + b2);
    }
    r
}

/// Reads a big-endian 128-bit unsigned integer from `data[start..start + 16]`.
pub fn be_u128_16(data: &Vec<u8>, start: usize) -> (r: u128)
    requires
        start + 16 <= data@.len(),
    ensures
        r as nat == be_val(data@.subrange(start as int, start + 16)),
{
    let n = data.len();
    let mut acc: u128 = 0;
    let mut i: usize = 0;
    while i < 16
        invariant
            i <= 16,
            n == data@.len(),
            start + 16 <= data@.len(),
            acc as nat == be_val(data@.subrange(start as int, start + i)),
            (acc as nat) < pow256(i as nat),
        decreases 16 - i,
    {
        proof {
            lemma_pow256_16();
            lemma_pow256_le(i as nat, 15);
            assert(data@.subrange(start as int, start + i + 1).drop_last() =~= data@.subrange(
                start as int,
                start + i,
            ));
        }
        let b = data[start + i];
        acc = acc * 256 + (b as u128);
        i = i + 1;
    }
    acc
}

/// `pow256` grows with its argument.
pub proof fn lemma_pow256_le(a: nat, b: nat)
    ensures
        a <= b ==> pow256(a) <= pow256(b),
    decreases b,
{
    if a <= b && b > 0 {
        if a == b {
        } else {
            lemma_pow256_le(a, (b - 1) as nat);
            lemma_pow256_pos((b - 1) as nat);
        }
    }
}

/// The largest index holding a nonzero byte, or -1 when every byte is zero.
pub open spec fn last_nonzero(s: Seq<u8>) -> int
    decreases s.len(),
{
    if s.len() == 0 {
        -1
    } else if s.last() != 0 {
        s.len() - 1
    } else {
        last_nonzero(s.drop_last())
    }
}

pub proof fn lemma_last_nonzero_range(s: Seq<u8>)
    ensures
        -1 <= last_nonzero(s) < s.len(),
        last_nonzero(s) >= 0 ==> s[last_nonzero(s)] != 0,
        forall|j: int| last_nonzero(s) < j < s.len() ==> s[j] == 0,
        (last_nonzero(s) == -1) <==> (forall|j: int| 0 <= j < s.len() ==> s[j] == 0),
    decreases s.len(),
{
    if s.len() > 0 {
        lemma_last_nonzero_range(s.drop_last());
        assert(forall|j: int| 0 <= j < s.len() - 1 ==> s[j] == s.drop_last()[j]);
    }
}

/// The byte at position `i` of the two's-complement negation of `s`: bytes
/// past the last nonzero byte stay zero, the last nonzero byte is subtracted
/// from 256, and every byte before it is complemented.
pub open spec fn neg_be_at(s: Seq<u8>, i: int) -> u8 {
    let k = last_nonzero(s);
    if i < k {
        (255 - s[i]) as u8
    } else if i == k {
        (256 - s[i]) as u8
    } else {
        0
    }
}

/// The two's-complement negation of a big-endian byte word, at its own width.
pub open spec fn neg_be(s: Seq<u8>) -> Seq<u8> {
    Seq::new(s.len(), |i: int| neg_be_at(s, i))
}

/// `pow256` agrees with the mathematical power function.
pub proof fn lemma_pow256_is_pow(n: nat)
    ensures
        pow256(n) == vstd::arithmetic::power::pow(256, n),
    decreases n,
{
    reveal(vstd::arithmetic::power::pow);
    if n > 0 {
        lemma_pow256_is_pow((n - 1) as nat);
    }
}

/// `pow256` turns addition of lengths into multiplication.
pub proof fn lemma_pow256_add(a: nat, b: nat)
    ensures
        pow256(a + b) == pow256(a) * pow256(b),
{
    lemma_pow256_is_pow(a);
    lemma_pow256_is_pow(b);
    lemma_pow256_is_pow(a + b);
    vstd::arithmetic::power::lemma_pow_adds(256, a, b);
}

/// The value of a concatenation: the left part shifted past the right part.
pub proof fn lemma_be_val_append(a: Seq<u8>, b: Seq<u8>)
    ensures
        be_val(a + b) == be_val(a) * pow256(b.len()) + be_val(b),
    decreases b.len(),
{
    if b.len() == 0 {
        assert(a + b =~= a);
        assert(pow256(0) == 1);
        assert(be_val(a + b) == be_val(a) * pow256(b.len()) + be_val(b));
    } else {
        let n = b.len();
        assert((a + b).drop_last() =~= a + b.drop_last());
        lemma_be_val_append(a, b.drop_last());
        assert((a + b).last() == b.last());
        assert(be_val(a + b) == be_val(a + b.drop_last()) * 256 + b.last());
        assert(be_val(a + b) == (be_val(a) * pow256((n - 1) as nat)) * 256 + be_val(b.drop_last())
            * 256 + b.last());
        assert((be_val(a) * pow256((n - 1) as nat)) * 256 == be_val(a) * (pow256((n - 1) as nat)
            * 256)) by (nonlinear_arith);
        assert(pow256((n - 1) as nat) * 256 == pow256(n));
        assert(be_val(b) == be_val(b.drop_last()) * 256 + b.last());
        assert(be_val(a) * pow256(n) >= 0) by (nonlinear_arith);
        assert(be_val(a + b) == be_val(a) * pow256(n) + be_val(b));
    }
}

/// The bytewise complement of a word.
pub open spec fn complement(s: Seq<u8>) -> Seq<u8> {
    Seq::new(s.len(), |i: int| (255 - s[i]) as u8)
}

/// The value of the complement: all ones minus the value.
pub proof fn lemma_complement_val(s: Seq<u8>)
    ensures
        be_val(complement(s)) == pow256(s.len()) - 1 - be_val(s),
    decreases s.len(),
{
    if s.len() > 0 {
        assert(complement(s).drop_last() =~= complement(s.drop_last()));
        lemma_complement_val(s.drop_last());
        assert(complement(s).last() == (255 - s.last()) as u8);
    }
}

/// The arithmetic meaning of two's-complement negation at width `n`: zero
/// stays zero, and any other value `v` becomes `256^n - v`.
pub proof fn lemma_neg_be_val(s: Seq<u8>)
    ensures
        be_val(s) == 0 ==> be_val(neg_be(s)) == 0,
        be_val(s) != 0 ==> be_val(neg_be(s)) + be_val(s) == pow256(s.len()),
{
    let n = s.len() as int;
    let k = last_nonzero(s);
    lemma_last_nonzero_range(s);
    lemma_be_val_zero(s);
    if k == -1 {
        lemma_be_val_zero(neg_be(s));
    } else {
        let p = s.take(k);
        let m = seq![s[k]];
        let z = s.skip(k + 1);
        let zl = z.len();
        assert(s =~= p + m + z);
        assert(forall|i: int| 0 <= i < z.len() ==> z[i] == s[k + 1 + i] && z[i] == 0);
        lemma_be_val_zero(z);
        let mn = seq![(256 - s[k]) as u8];
        assert(neg_be(s) =~= complement(p) + mn + z);
        lemma_be_val_append(p + m, z);
        lemma_be_val_append(p, m);
        assert((p + m + z) == (p + m) + z);
        lemma_be_val_append(complement(p) + mn, z);
        lemma_be_val_append(complement(p), mn);
        assert((complement(p) + mn + z) == (complement(p) + mn) + z);
        lemma_complement_val(p);
        assert(m.drop_last() =~= Seq::<u8>::empty());
        assert(mn.drop_last() =~= Seq::<u8>::empty());
        assert(be_val(Seq::<u8>::empty()) == 0);
        assert(be_val(m) == s[k]);
        assert(be_val(mn) == 256 - s[k]);
        let vp = be_val(p);
        let pk = pow256(p.len());
        assert(pow256(0) == 1);
        assert(pow256(1) == 256);
        assert(be_val(p + m) == vp * 256 + s[k]);
        assert(be_val(complement(p) + mn) == (pk - 1 - vp) * 256 + 256 - s[k]);
        assert(be_val(p + m) + be_val(complement(p) + mn) == pk * 256) by (nonlinear_arith)
            requires
                be_val(p + m) == vp * 256 + s[k],
                be_val(complement(p) + mn) == (pk - 1 - vp) * 256 + 256 - s[k],
        ;
        assert(be_val(s) == be_val(p + m) * pow256(zl) + 0);
        assert(be_val(neg_be(s)) == be_val(complement(p) + mn) * pow256(zl) + 0);
        assert(be_val(s) + be_val(neg_be(s)) == (pk * 256) * pow256(zl)) by (nonlinear_arith)
            requires
                be_val(s) == be_val(p + m) * pow256(zl),
                be_val(neg_be(s)) == be_val(complement(p) + mn) * pow256(zl),
                be_val(p + m) + be_val(complement(p) + mn) == pk * 256,
        ;
        lemma_pow256_add((p.len() + 1) as nat, zl);
        assert(pow256((p.len() + 1) as nat) == 256 * pk);
        assert((pk * 256) * pow256(zl) == pow256((p.len() + 1) as nat) * pow256(zl))
            by (nonlinear_arith)
            requires
                pow256((p.len() + 1) as nat) == 256 * pk,
        ;
        assert(p.len() + 1 + zl == s.len());
        assert(be_val(s) != 0) by {
            lemma_pow256_pos(zl);
            assert(be_val(p + m) >= 1);
            assert(be_val(p + m) * pow256(zl) >= 1) by (nonlinear_arith)
                requires
                    be_val(p + m) >= 1,
                    pow256(zl) >= 1,
            ;
        }
    }
}

/// Finds the last nonzero byte of `x`, scanning from the end.
fn find_last_nonzero(x: &Vec<u8>) -> (r: Option<usize>)
    ensures
        match r {
            Some(k) => k == last_nonzero(x@),
            None => last_nonzero(x@) == -1,
        },
{
    let mut i: usize = x.len();
    while i > 0
        invariant
            i <= x@.len(),
            forall|j: int| i <= j < x@.len() ==> x@[j] == 0,
        decreases i,
    {
        i = i - 1;
        if x[i] != 0 {
            proof {
                lemma_last_nonzero_range(x@);
            }
            return Some(i);
        }
    }
    proof {
        lemma_last_nonzero_range(x@);
    }
    None
}

/// The two's-complement negation of a big-endian word, as executable code.
pub fn twos_complement_neg(x: &Vec<u8>) -> (r: Vec<u8>)
    ensures
        r@ == neg_be(x@),
{
    let k = find_last_nonzero(x);
    let mut r: Vec<u8> = Vec::new();
    let mut i: usize = 0;
    while i < x.len()
        invariant
            i <= x@.len(),
            r@.len() == i,
            forall|j: int| 0 <= j < i ==> r@[j] == neg_be_at(x@, j),
            match k {
                Some(ki) => ki == last_nonzero(x@),
                None => last_nonzero(x@) == -1,
            },
        decreases x@.len() - i,
    {
        let b: u8 = match k {
            Some(ki) => {
                if i < ki {
                    255 - x[i]
                } else if i == ki {
                    proof {
                        lemma_last_nonzero_range(x@);
                    }
                    let bi = x[i];
                    (255 - bi) + 1
                } else {
                    0
                }
            },
            None => 0,
        };
        r.push(b);
        i = i + 1;
    }
    proof {
        assert(r@ =~= neg_be(x@));
    }
    r
}

} // verus!
