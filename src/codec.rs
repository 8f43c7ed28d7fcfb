//! Byte-level primitives of the record wire format: little-endian
//! variable-length integers and length-prefixed byte strings.
use vstd::prelude::*;

verus! {

/// `256` to the power `n`.
pub open spec fn pow256(n: nat) -> nat
    decreases n,
{
    if n == 0 {
        1
    } else {
        256 * pow256((n - 1) as nat)
    }
}

/// The number that a little-endian byte sequence stands for.
pub open spec fn le_value(s: Seq<u8>) -> nat
    decreases s.len(),
{
    if s.len() == 0 {
        0
    } else {
        s[0] as nat + 256 * le_value(s.drop_first())
    }
}

/// The `n` low-order bytes of `v`, least significant first.
pub open spec fn le_bytes(v: nat, n: nat) -> Seq<u8>
    decreases n,
{
    if n == 0 {
        Seq::empty()
    } else {
        seq![(v % 256) as u8] + le_bytes(v / 256, (n - 1) as nat)
    }
}

/// Variable-length encoding of an integer: one byte below 251, otherwise a
/// marker byte (251, 252, 253) followed by 2, 4 or 8 little-endian bytes.
pub open spec fn varint(v: u64) -> Seq<u8> {
    if v < 251 {
        seq![v as u8]
    } else if v <= 0xffff {
        seq![251u8] + le_bytes(v as nat, 2)
    } else if v <= 0xffff_ffff {
        seq![252u8] + le_bytes(v as nat, 4)
    } else {
        seq![253u8] + le_bytes(v as nat, 8)
    }
}

/// Width in bytes of the little-endian integer that follows a marker byte.
pub open spec fn marker_width(m: u8) -> nat {
    if m == 251 {
        2
    } else if m == 252 {
        4
    } else {
        8
    }
}

/// Reading a variable-length integer at the head of `s`: its value and the
/// number of bytes it took, or `None` where `s` holds no complete one.
pub open spec fn parse_varint(s: Seq<u8>) -> Option<(u64, nat)> {
    if s.len() == 0 {
        None
    } else if s[0] < 251 {
        Some((s[0] as u64, 1))
    } else if s[0] <= 253 {
        let w = marker_width(s[0]);
        if s.len() >= 1 + w {
            Some((le_value(s.subrange(1, 1 + w as int)) as u64, 1 + w))
        } else {
            None
        }
    } else {
        None
    }
}

/// A byte string preceded by its length.
pub open spec fn bytes_field(b: Seq<u8>) -> Seq<u8> {
    varint(b.len() as u64) + b
}

/// Reading a length-prefixed byte string at the head of `s`: its content and
/// the number of bytes it took.
pub open spec fn parse_bytes_field(s: Seq<u8>) -> Option<(Seq<u8>, nat)> {
    match parse_varint(s) {
        Some((n, k)) => if k + n <= s.len() {
            Some((s.subrange(k as int, k + n), (k + n) as nat))
        } else {
            None
        },
        None => None,
    }
}

pub proof fn lemma_le_value_bound(s: Seq<u8>)
    ensures
        le_value(s) < pow256(s.len()),
    decreases s.len(),
{
    if s.len() > 0 {
        lemma_le_value_bound(s.drop_first());
        let a = s[0] as nat;
        let r = le_value(s.drop_first());
        let p = pow256((s.len() - 1) as nat);
        assert(a + 256 * r < 256 * p) by (nonlinear_arith)
            requires
                a < 256,
                r < p,
        ;
    }
}

pub proof fn lemma_le_round_trip(v: nat, n: nat)
    requires
        v < pow256(n),
    ensures
        le_value(le_bytes(v, n)) == v,
        le_bytes(v, n).len() == n,
    decreases n,
{
    if n > 0 {
        let p = pow256((n - 1) as nat);
        assert(v / 256 < p) by (nonlinear_arith)
            requires
                v < 256 * p,
        ;
        lemma_le_round_trip(v / 256, (n - 1) as nat);
        let s = le_bytes(v, n);
        assert(s.drop_first() =~= le_bytes(v / 256, (n - 1) as nat));
        assert(v == (v % 256) + 256 * (v / 256)) by (nonlinear_arith);
    }
}

pub proof fn lemma_pow256_values()
    ensures
        pow256(2) == 0x1_0000,
        pow256(4) == 0x1_0000_0000,
        pow256(8) == 0x1_0000_0000_0000_0000,
{
    reveal_with_fuel(pow256, 9);
}

/// The decoder reads back what the encoder wrote, whatever follows it.
pub proof fn lemma_varint_round_trip(v: u64, rest: Seq<u8>)
    ensures
        parse_varint(varint(v) + rest) == Some((v, varint(v).len())),
        1 <= varint(v).len() <= 9,
{
    lemma_pow256_values();
    let s = varint(v) + rest;
    if v >= 251 {
        let w: nat = if v <= 0xffff {
            2
        } else if v <= 0xffff_ffff {
            4
        } else {
            8
        };
        lemma_le_round_trip(v as nat, w);
        assert(s.subrange(1, 1 + w as int) =~= le_bytes(v as nat, w));
    }
}

pub proof fn lemma_bytes_field_round_trip(b: Seq<u8>, rest: Seq<u8>)
    requires
        b.len() <= u64::MAX,
    ensures
        parse_bytes_field(bytes_field(b) + rest) == Some((b, bytes_field(b).len())),
{
    let v = varint(b.len() as u64);
    lemma_varint_round_trip(b.len() as u64, b + rest);
    assert(bytes_field(b) + rest =~= v + (b + rest));
    assert((bytes_field(b) + rest).subrange(v.len() as int, v.len() + b.len() as int) =~= b);
}

/// Appends the `n` low-order bytes of `v`, least significant first.
fn push_le(out: &mut Vec<u8>, v: u64, n: usize)
    ensures
        final(out)@ == old(out)@ + le_bytes(v as nat, n as nat),
{
    let ghost start = old(out)@;
    let mut cur: u64 = v;
    let mut i: usize = 0;
    while i < n
        invariant
            i <= n,
            start + le_bytes(v as nat, n as nat) == out@ + le_bytes(cur as nat, (n - i) as nat),
        decreases n - i,
    {
        let ghost before = out@;
        out.push((cur % 256) as u8);
        proof {
            assert(le_bytes(cur as nat, (n - i) as nat) == seq![(cur % 256) as u8] + le_bytes(
                (cur / 256) as nat,
                (n - i - 1) as nat,
            ));
            assert(out@ + le_bytes((cur / 256) as nat, (n - i - 1) as nat) =~= before
                + le_bytes(cur as nat, (n - i) as nat));
        }
        cur = cur / 256;
        i = i + 1;
    }
    assert(le_bytes(cur as nat, 0) =~= Seq::<u8>::empty());
    assert(out@ =~= out@ + le_bytes(cur as nat, 0));
}

/// Appends the variable-length encoding of `v`.
pub fn push_varint(out: &mut Vec<u8>, v: u64)
    ensures
        final(out)@ == old(out)@ + varint(v),
{
    let ghost start = old(out)@;
    if v < 251 {
        out.push(v as u8);
        assert(out@ =~= start + varint(v));
    } else if v <= 0xffff {
        out.push(251u8);
        push_le(out, v, 2);
        assert(out@ =~= start + varint(v));
    } else if v <= 0xffff_ffff {
        out.push(252u8);
        push_le(out, v, 4);
        assert(out@ =~= start + varint(v));
    } else {
        out.push(253u8);
        push_le(out, v, 8);
        assert(out@ =~= start + varint(v));
    }
}

/// Appends the bytes of `b` unchanged.
pub fn push_all(out: &mut Vec<u8>, b: &[u8])
    ensures
        final(out)@ == old(out)@ + b@,
{
    let ghost start = old(out)@;
    let mut i: usize = 0;
    while i < b.len()
        invariant
            i <= b@.len(),
            out@ == start + b@.subrange(0, i as int),
        decreases b.len() - i,
    {
        out.push(b[i]);
        i = i + 1;
        assert(out@ =~= start + b@.subrange(0, i as int));
    }
    assert(b@.subrange(0, i as int) =~= b@);
}

/// Appends `b` preceded by its length.
pub fn push_bytes_field(out: &mut Vec<u8>, b: &[u8])
    ensures
        final(out)@ == old(out)@ + bytes_field(b@),
{
    let ghost start = old(out)@;
    push_varint(out, b.len() as u64);
    push_all(out, b);
    assert(out@ =~= start + bytes_field(b@));
}

/// A fresh vector holding the bytes of `b`.
pub fn copy_bytes(b: &[u8]) -> (r: Vec<u8>)
    ensures
        r@ == b@,
{
    let mut r: Vec<u8> = Vec::new();
    push_all(&mut r, b);
    assert(r@ =~= b@);
    r
}

/// Whether `a` and `b` hold the same bytes.
pub fn bytes_eq(a: &[u8], b: &[u8]) -> (r: bool)
    ensures
        r == (a@ == b@),
{
    if a.len() != b.len() {
        return false;
    }
    let mut i: usize = 0;
    while i < a.len()
        invariant
            a@.len() == b@.len(),
            i <= a@.len(),
            forall|j: int| 0 <= j < i ==> a@[j] == b@[j],
        decreases a.len() - i,
    {
        if a[i] != b[i] {
            return false;
        }
        i = i + 1;
    }
    assert(a@ =~= b@);
    true
}

/// Whether `s` begins with the bytes of `prefix`.
pub fn starts_with(s: &[u8], prefix: &[u8]) -> (r: bool)
    ensures
        r == (prefix@.len() <= s@.len() && s@.subrange(0, prefix@.len() as int) == prefix@),
{
    if prefix.len() > s.len() {
        return false;
    }
    let mut i: usize = 0;
    while i < prefix.len()
        invariant
            prefix@.len() <= s@.len(),
            i <= prefix@.len(),
            forall|j: int| 0 <= j < i ==> s@[j] == prefix@[j],
        decreases prefix.len() - i,
    {
        if s[i] != prefix[i] {
            assert(s@.subrange(0, prefix@.len() as int)[i as int] != prefix@[i as int]);
            return false;
        }
        i = i + 1;
    }
    assert(s@.subrange(0, prefix@.len() as int) =~= prefix@);
    true
}

/// Reads the little-endian integer of `n` bytes at `pos`.
fn read_le(buf: &[u8], pos: usize, n: usize) -> (r: u64)
    requires
        n <= 8,
        pos + n <= buf@.len(),
    ensures
        r as nat == le_value(buf@.subrange(pos as int, pos + n)),
{
    proof {
        lemma_pow256_values();
        lemma_le_value_bound(buf@.subrange(pos as int, pos + n));
    }
    let mut v: u64 = 0;
    let mut j: usize = n;
    while j > 0
        invariant
            n <= 8,
            pos + n <= buf.len(),
            j <= n,
            v as nat == le_value(buf@.subrange(pos + j, pos + n)),
            v < pow256((n - j) as nat),
            pow256(8) == 0x1_0000_0000_0000_0000,
        decreases j,
    {
        let ghost old_v = v;
        let b = buf[pos + (j - 1)];
        proof {
            let k = (n - j) as nat;
            lemma_pow_mono(k + 1, 8);
            assert(pow256(k + 1) == 256 * pow256(k));
            assert(old_v * 256 + b < pow256(k + 1)) by (nonlinear_arith)
                requires
                    old_v < pow256(k),
                    b < 256,
                    pow256(k + 1) == 256 * pow256(k),
            ;
            let t = buf@.subrange(pos + j - 1, pos + n);
            assert(t.drop_first() =~= buf@.subrange(pos + j, pos + n));
        }
        v = v * 256 + b as u64;
        j = j - 1;
    }
    v
}

proof fn lemma_pow_mono(a: nat, b: nat)
    requires
        a <= b,
    ensures
        pow256(a) <= pow256(b),
    decreases b,
{
    if a < b {
        lemma_pow_mono(a, (b - 1) as nat);
    }
}

/// Reads a variable-length integer at `pos`: its value and the position
/// after it.
pub fn read_varint(buf: &[u8], pos: usize) -> (r: Option<(u64, usize)>)
    requires
        pos <= buf@.len(),
    ensures
        match r {
            Some((v, end)) => parse_varint(buf@.subrange(pos as int, buf@.len() as int)) == Some(
                (v, (end - pos) as nat),
            ) && pos < end <= buf@.len(),
            None => parse_varint(buf@.subrange(pos as int, buf@.len() as int)) is None,
        },
{
    let ghost s = buf@.subrange(pos as int, buf@.len() as int);
    if pos >= buf.len() {
        return None;
    }
    let m = buf[pos];
    if m < 251 {
        return Some((m as u64, pos + 1));
    }
    if m > 253 {
        return None;
    }
    let w: usize = if m == 251 {
        2
    } else if m == 252 {
        4
    } else {
        8
    };
    if buf.len() - pos - 1 < w {
        return None;
    }
    let v = read_le(buf, pos + 1, w);
    proof {
        assert(s.subrange(1, 1 + w) =~= buf@.subrange(pos + 1, pos + 1 + w));
        lemma_pow256_values();
        lemma_le_value_bound(buf@.subrange(pos + 1, pos + 1 + w));
    }
    Some((v, pos + 1 + w))
}

/// Reads a length-prefixed byte string at `pos`: the bounds of its content
/// within `buf`.
pub fn read_bytes_field(buf: &[u8], pos: usize) -> (r: Option<(usize, usize)>)
    requires
        pos <= buf@.len(),
    ensures
        match r {
            Some((start, end)) => parse_bytes_field(buf@.subrange(pos as int, buf@.len() as int))
                == Some((buf@.subrange(start as int, end as int), (end - pos) as nat)) && pos
                < start <= end <= buf@.len(),
            None => parse_bytes_field(buf@.subrange(pos as int, buf@.len() as int)) is None,
        },
{
    let ghost s = buf@.subrange(pos as int, buf@.len() as int);
    match read_varint(buf, pos) {
        None => None,
        Some((n, start)) => {
            if n > (buf.len() - start) as u64 {
                return None;
            }
            let end = start + n as usize;
            proof {
                assert(s.subrange((start - pos) as int, (start - pos) + n) =~= buf@.subrange(
                    start as int,
                    end as int,
                ));
            }
            Some((start, end))
        },
    }
}

/// A fresh vector holding `buf[start..end]`.
pub fn copy_range(buf: &[u8], start: usize, end: usize) -> (r: Vec<u8>)
    requires
        start <= end <= buf@.len(),
    ensures
        r@ == buf@.subrange(start as int, end as int),
{
    let mut r: Vec<u8> = Vec::new();
    let mut i: usize = start;
    while i < end
        invariant
            start <= i <= end <= buf@.len(),
            r@ == buf@.subrange(start as int, i as int),
        decreases end - i,
    {
        r.push(buf[i]);
        i = i + 1;
        assert(r@ =~= buf@.subrange(start as int, i as int));
    }
    r
}

} // verus!
