use vstd::prelude::*;
use vstd::arithmetic::div_mod::{lemma_fundamental_div_mod, lemma_mod_bound};

verus! {

/// 256 to the power `n`: the number of values an `n`-byte field can hold.
pub open spec fn pow256(n: nat) -> int
    decreases n,
{
    if n == 0 {
        1
    } else {
        0x100 * pow256((n - 1) as nat)
    }
}

/// The unsigned integer that a little-endian byte string denotes.
pub open spec fn le_val(s: Seq<u8>) -> int
    decreases s.len(),
{
    if s.len() == 0 {
        0
    } else {
        s[0] + 0x100 * le_val(s.skip(1))
    }
}

/// The `n`-byte little-endian encoding of `x % pow256(n)`.
pub open spec fn le_bytes(x: int, n: nat) -> Seq<u8>
    decreases n,
{
    if n == 0 {
        Seq::empty()
    } else {
        seq![(x % 0x100) as u8] + le_bytes(x / 0x100, (n - 1) as nat)
    }
}

pub proof fn lemma_pow256_values()
    ensures
        pow256(0) == 1,
        pow256(1) == 0x100,
        pow256(2) == 0x1_0000,
        pow256(3) == 0x100_0000,
        pow256(4) == 0x1_0000_0000,
        pow256(5) == 0x100_0000_0000,
        pow256(6) == 0x1_0000_0000_0000,
        pow256(7) == 0x100_0000_0000_0000,
        pow256(8) == 0x1_0000_0000_0000_0000,
{
    assert(pow256(0) == 1);
    assert(pow256(1) == 0x100 * pow256(0));
    assert(pow256(2) == 0x100 * pow256(1));
    assert(pow256(3) == 0x100 * pow256(2));
    assert(pow256(4) == 0x100 * pow256(3));
    assert(pow256(5) == 0x100 * pow256(4));
    assert(pow256(6) == 0x100 * pow256(5));
    assert(pow256(7) == 0x100 * pow256(6));
    assert(pow256(8) == 0x100 * pow256(7));
}

pub proof fn lemma_pow256_pos(n: nat)
    ensures
        pow256(n) >= 1,
    decreases n,
{
    if n > 0 {
        lemma_pow256_pos((n - 1) as nat);
    }
}

pub proof fn lemma_le_bytes_len(x: int, n: nat)
    ensures
        le_bytes(x, n).len() == n,
    decreases n,
{
    if n > 0 {
        lemma_le_bytes_len(x / 0x100, (n - 1) as nat);
    }
}

/// A byte string denotes a value below `pow256` of its length.
pub proof fn lemma_le_val_bound(s: Seq<u8>)
    ensures
        0 <= le_val(s) < pow256(s.len()),
    decreases s.len(),
{
    if s.len() > 0 {
        lemma_le_val_bound(s.skip(1));
    }
}

/// Appending one byte raises the denoted value by that byte times the weight
/// of the new position.
pub proof fn lemma_le_val_push(s: Seq<u8>, b: u8)
    ensures
        le_val(s.push(b)) == le_val(s) + pow256(s.len()) * b,
    decreases s.len(),
{
    if s.len() == 0 {
        assert(s.push(b) =~= seq![b]);
        assert(seq![b].skip(1) =~= Seq::<u8>::empty());
        assert(le_val(Seq::<u8>::empty()) == 0);
        assert(le_val(seq![b]) == b + 0x100 * le_val(seq![b].skip(1)));
        assert(pow256(s.len()) == 1);
    } else {
        assert(s.push(b).skip(1) =~= s.skip(1).push(b));
        lemma_le_val_push(s.skip(1), b);
        assert(le_val(s.push(b)) == s[0] + 0x100 * (le_val(s.skip(1)) + pow256((s.len() - 1) as nat)
            * b));
        assert(0x100 * (le_val(s.skip(1)) + pow256((s.len() - 1) as nat) * b) == 0x100 * le_val(
            s.skip(1),
        ) + 0x100 * (pow256((s.len() - 1) as nat) * b)) by (nonlinear_arith);
        assert(0x100 * (pow256((s.len() - 1) as nat) * b) == (0x100 * pow256(
            (s.len() - 1) as nat,
        )) * b) by (nonlinear_arith);
        assert(pow256(s.len()) == 0x100 * pow256((s.len() - 1) as nat));
        assert(le_val(s.push(b)) == s[0] + 0x100 * le_val(s.skip(1)) + pow256(s.len()) * b);
    }
}

/// Reading back an `n`-byte little-endian encoding yields the encoded value.
pub proof fn lemma_le_roundtrip(x: int, n: nat)
    requires
        0 <= x < pow256(n),
    ensures
        le_val(le_bytes(x, n)) == x,
    decreases n,
{
    if n > 0 {
        let rest = le_bytes(x / 0x100, (n - 1) as nat);
        let whole = seq![(x % 0x100) as u8] + rest;
        assert(whole.skip(1) =~= rest);
        lemma_fundamental_div_mod(x, 0x100);
        lemma_mod_bound(x, 0x100);
        assert(x / 0x100 < pow256((n - 1) as nat)) by {
            assert(0x100 * (x / 0x100) <= x);
        };
        assert(x / 0x100 >= 0) by {
            assert(x % 0x100 < 0x100);
        };
        lemma_le_roundtrip(x / 0x100, (n - 1) as nat);
        assert(le_val(whole) == x % 0x100 + 0x100 * (x / 0x100));
    }
}

/// Reads the `n`-byte little-endian integer at `off`, low byte first.
pub fn read_le(data: &[u8], off: usize, n: usize) -> (r: u64)
    requires
        off + n <= data@.len(),
        n <= 8,
    ensures
        r as int == le_val(data@.subrange(off as int, off as int + n as int)),
{
    proof {
        lemma_pow256_values();
    }
    let dlen = data.len();
    let mut acc: u64 = 0;
    let mut weight: u64 = 1;
    let ghost whole = data@.subrange(off as int, off as int + n as int);
    let mut j: usize = 0;
    while j < n
        invariant
            off + n <= data@.len(),
            dlen == data@.len(),
            n <= 8,
            j <= n,
            whole == data@.subrange(off as int, off as int + n as int),
            acc as int == le_val(whole.take(j as int)),
            j < n ==> weight as int == pow256(j as nat),
        decreases n - j,
    {
        let b = data[off + j];
        proof {
            lemma_pow256_values();
            assert(whole.take(j as int).push(b) =~= whole.take(j + 1));
            lemma_le_val_push(whole.take(j as int), b);
            lemma_le_val_bound(whole.take(j as int));
            lemma_le_val_bound(whole.take(j + 1));
            lemma_pow256_increases((j + 1) as nat, 8);
            lemma_pow256_pos(j as nat);
            assert(pow256(j as nat) * (b as int) <= pow256(j as nat) * 0xff) by (nonlinear_arith)
                requires
                    pow256(j as nat) >= 1,
                    0 <= b <= 0xff,
            ;
        }
        acc = acc + weight * (b as u64);
        j = j + 1;
        if j < n {
            proof {
                lemma_pow256_increases(j as nat, 7);
                lemma_pow256_values();
            }
            weight = weight * 0x100;
        }
    }
    proof {
        assert(whole.take(n as int) =~= whole);
    }
    acc
}

pub proof fn lemma_pow256_increases(m: nat, n: nat)
    requires
        m <= n,
    ensures
        pow256(m) <= pow256(n),
    decreases n,
{
    if m < n && n > 0 {
        lemma_pow256_increases(m, (n - 1) as nat);
        lemma_pow256_pos((n - 1) as nat);
        assert(pow256((n - 1) as nat) <= 0x100 * pow256((n - 1) as nat));
    }
}

/// Reads the little-endian `u16` at `off`.
pub fn read_u16_le(data: &[u8], off: usize) -> (r: u16)
    requires
        off + 2 <= data@.len(),
    ensures
        r as int == le_val(data@.subrange(off as int, off as int + 2)),
{
    let v = read_le(data, off, 2);
    proof {
        lemma_le_val_bound(data@.subrange(off as int, off as int + 2));
        lemma_pow256_values();
    }
    v as u16
}

/// Reads the little-endian `u32` at `off`.
pub fn read_u32_le(data: &[u8], off: usize) -> (r: u32)
    requires
        off + 4 <= data@.len(),
    ensures
        r as int == le_val(data@.subrange(off as int, off as int + 4)),
{
    let v = read_le(data, off, 4);
    proof {
        lemma_le_val_bound(data@.subrange(off as int, off as int + 4));
        lemma_pow256_values();
    }
    v as u32
}

/// Reads the little-endian `u64` at `off`.
pub fn read_u64_le(data: &[u8], off: usize) -> (r: u64)
    requires
        off + 8 <= data@.len(),
    ensures
        r as int == le_val(data@.subrange(off as int, off as int + 8)),
{
    read_le(data, off, 8)
}

/// Appends the `n`-byte little-endian encoding of `x`.
pub fn push_le(v: &mut Vec<u8>, x: u64, n: usize)
    requires
        n <= 8,
        (x as int) < pow256(n as nat),
    ensures
        final(v)@ == old(v)@ + le_bytes(x as int, n as nat),
{
    let ghost orig = v@;
    let mut cur: u64 = x;
    let mut j: usize = 0;
    while j < n
        invariant
            n <= 8,
            j <= n,
            orig + le_bytes(x as int, n as nat) =~= v@ + le_bytes(cur as int, (n - j) as nat),
        decreases n - j,
    {
        let ghost pre = v@;
        let ghost m = (n - j) as nat;
        let b = (cur % 0x100) as u8;
        proof {
            assert(le_bytes(cur as int, m) == seq![b] + le_bytes(cur as int / 0x100, (m - 1) as nat));
            assert(pre + le_bytes(cur as int, m) =~= pre.push(b) + le_bytes(
                cur as int / 0x100,
                (m - 1) as nat,
            ));
        }
        v.push(b);
        cur = cur / 0x100;
        j = j + 1;
    }
    proof {
        assert(le_bytes(cur as int, 0) =~= Seq::<u8>::empty());
        assert(v@ + Seq::<u8>::empty() =~= v@);
    }
}

/// The value of the little-endian `u16` field at `i`.
pub open spec fn u16_at(s: Seq<u8>, i: int) -> int {
    le_val(s.subrange(i, i + 2))
}

/// The value of the little-endian `u32` field at `i`.
pub open spec fn u32_at(s: Seq<u8>, i: int) -> int {
    le_val(s.subrange(i, i + 4))
}

/// The value of the little-endian `u64` field at `i`.
pub open spec fn u64_at(s: Seq<u8>, i: int) -> int {
    le_val(s.subrange(i, i + 8))
}

/// Copies `data[start..end]` into a fresh vector.
pub fn copy_range(data: &[u8], start: usize, end: usize) -> (r: Vec<u8>)
    requires
        start <= end <= data@.len(),
    ensures
        r@ == data@.subrange(start as int, end as int),
{
    let mut v: Vec<u8> = Vec::new();
    let mut i: usize = start;
    while i < end
        invariant
            start <= i <= end <= data@.len(),
            v@ =~= data@.subrange(start as int, i as int),
        decreases end - i,
    {
        v.push(data[i]);
        proof {
            assert(v@ =~= data@.subrange(start as int, i + 1));
        }
        i = i + 1;
    }
    proof {
        assert(v@ =~= data@.subrange(start as int, end as int));
    }
    v
}

/// Index of the first zero byte of `s`, or `s.len()` if there is none.
pub open spec fn nul_pos(s: Seq<u8>) -> int
    decreases s.len(),
{
    if s.len() == 0 {
        0
    } else if s[0] == 0 {
        0
    } else {
        1 + nul_pos(s.skip(1))
    }
}

pub proof fn lemma_nul_pos_bounds(s: Seq<u8>)
    ensures
        0 <= nul_pos(s) <= s.len(),
        nul_pos(s) < s.len() ==> s[nul_pos(s)] == 0,
        forall|k: int| 0 <= k < nul_pos(s) ==> s[k] != 0,
    decreases s.len(),
{
    if s.len() > 0 && s[0] != 0 {
        lemma_nul_pos_bounds(s.skip(1));
        assert forall|k: int| 0 <= k < nul_pos(s) implies s[k] != 0 by {
            if k > 0 {
                assert(s[k] == s.skip(1)[k - 1]);
            }
        };
    }
}

/// `nul_pos` is the unique index with no zero byte before it that is either
/// a zero byte or the end of the string.
pub proof fn lemma_nul_pos_is(s: Seq<u8>, i: int)
    requires
        0 <= i <= s.len(),
        forall|k: int| 0 <= k < i ==> s[k] != 0,
        i < s.len() ==> s[i] == 0,
        i == s.len() || s[i] == 0,
    ensures
        nul_pos(s) == i,
    decreases s.len(),
{
    if s.len() > 0 && s[0] != 0 {
        lemma_nul_pos_is(s.skip(1), i - 1);
    }
}

/// Finds the first zero byte in `data[start..end]`, reported as an offset
/// relative to `start`; `None` if that range holds no zero byte.
pub fn find_nul(data: &[u8], start: usize, end: usize) -> (r: Option<usize>)
    requires
        start <= end <= data@.len(),
    ensures
        ({
            let s = data@.subrange(start as int, end as int);
            match r {
                Some(p) => p < end - start && nul_pos(s) == p,
                None => nul_pos(s) == s.len(),
            }
        }),
{
    let ghost s = data@.subrange(start as int, end as int);
    let mut i: usize = start;
    while i < end
        invariant
            start <= i <= end <= data@.len(),
            s == data@.subrange(start as int, end as int),
            forall|k: int| start <= k < i ==> data@[k] != 0,
        decreases end - i,
    {
        if data[i] == 0 {
            proof {
                lemma_nul_pos_is(s, i - start);
            }
            return Some(i - start);
        }
        i = i + 1;
    }
    proof {
        lemma_nul_pos_is(s, s.len() as int);
    }
    None
}

/// Index of the first non-zero byte of `s`, or `s.len()` if there is none.
pub open spec fn nonzero_pos(s: Seq<u8>) -> int
    decreases s.len(),
{
    if s.len() == 0 {
        0
    } else if s[0] != 0 {
        0
    } else {
        1 + nonzero_pos(s.skip(1))
    }
}

pub proof fn lemma_nonzero_pos_bounds(s: Seq<u8>)
    ensures
        0 <= nonzero_pos(s) <= s.len(),
        nonzero_pos(s) < s.len() ==> s[nonzero_pos(s)] != 0,
        forall|k: int| 0 <= k < nonzero_pos(s) ==> s[k] == 0,
    decreases s.len(),
{
    if s.len() > 0 && s[0] == 0 {
        lemma_nonzero_pos_bounds(s.skip(1));
        assert forall|k: int| 0 <= k < nonzero_pos(s) implies s[k] == 0 by {
            if k > 0 {
                assert(s[k] == s.skip(1)[k - 1]);
            }
        };
    }
}

/// `nonzero_pos` is the unique index preceded only by zero bytes that is
/// either a non-zero byte or the end of the string.
pub proof fn lemma_nonzero_pos_is(s: Seq<u8>, i: int)
    requires
        0 <= i <= s.len(),
        forall|k: int| 0 <= k < i ==> s[k] == 0,
        i < s.len() ==> s[i] != 0,
    ensures
        nonzero_pos(s) == i,
    decreases s.len(),
{
    if s.len() > 0 && s[0] == 0 {
        lemma_nonzero_pos_is(s.skip(1), i - 1);
    }
}

/// Finds the first non-zero byte in `data[start..end]`, as an absolute
/// index; `end` if that range is all zero bytes.
pub fn find_nonzero(data: &[u8], start: usize, end: usize) -> (r: usize)
    requires
        start <= end <= data@.len(),
    ensures
        start <= r <= end,
        nonzero_pos(data@.subrange(start as int, end as int)) == r - start,
{
    let ghost s = data@.subrange(start as int, end as int);
    let mut i: usize = start;
    while i < end
        invariant
            start <= i <= end <= data@.len(),
            s == data@.subrange(start as int, end as int),
            forall|k: int| start <= k < i ==> data@[k] == 0,
        decreases end - i,
    {
        if data[i] != 0 {
            proof {
                lemma_nonzero_pos_is(s, i - start);
            }
            return i;
        }
        i = i + 1;
    }
    proof {
        lemma_nonzero_pos_is(s, s.len() as int);
    }
    end
}

/// Do two byte strings hold the same bytes?
pub fn bytes_eq(a: &[u8], b: &[u8]) -> (r: bool)
    ensures
        r == (a@ == b@),
{
    if a.len() != b.len() {
        proof {
            assert(a@.len() != b@.len());
        }
        return false;
    }
    let mut i: usize = 0;
    while i < a.len()
        invariant
            a@.len() == b@.len(),
            i <= a@.len(),
            forall|k: int| 0 <= k < i ==> a@[k] == b@[k],
        decreases a@.len() - i,
    {
        if a[i] != b[i] {
            return false;
        }
        i = i + 1;
    }
    proof {
        assert(a@ =~= b@);
    }
    true
}

} // verus!
