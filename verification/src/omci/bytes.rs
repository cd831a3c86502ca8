//! Byte-string comparison and ordering shared by the MIB tables.
use vstd::prelude::*;

verus! {

/// Result of comparing two keys.
#[derive(Clone, Copy, Debug, PartialEq, Eq, Structural)]
pub enum KeyOrder {
    Less,
    Equal,
    Greater,
}

/// Lexicographic order on byte strings; a proper prefix sorts first.
pub open spec fn bytes_lt(a: Seq<u8>, b: Seq<u8>) -> bool
    decreases a.len(),
{
    if a.len() == 0 {
        b.len() > 0
    } else if b.len() == 0 {
        false
    } else if a[0] != b[0] {
        a[0] < b[0]
    } else {
        bytes_lt(a.drop_first(), b.drop_first())
    }
}

pub proof fn lemma_bytes_lt_irreflexive(a: Seq<u8>)
    ensures
        !bytes_lt(a, a),
    decreases a.len(),
{
    if a.len() > 0 {
        lemma_bytes_lt_irreflexive(a.drop_first());
    }
}

pub proof fn lemma_bytes_lt_asymmetric(a: Seq<u8>, b: Seq<u8>)
    ensures
        bytes_lt(a, b) ==> !bytes_lt(b, a),
    decreases a.len(),
{
    if a.len() > 0 && b.len() > 0 && a[0] == b[0] {
        lemma_bytes_lt_asymmetric(a.drop_first(), b.drop_first());
    }
}

pub proof fn lemma_bytes_lt_transitive(a: Seq<u8>, b: Seq<u8>, c: Seq<u8>)
    ensures
        bytes_lt(a, b) && bytes_lt(b, c) ==> bytes_lt(a, c),
    decreases a.len(),
{
    if a.len() > 0 && b.len() > 0 && c.len() > 0 && a[0] == b[0] && b[0] == c[0] {
        lemma_bytes_lt_transitive(a.drop_first(), b.drop_first(), c.drop_first());
    }
}

pub proof fn lemma_bytes_lt_total(a: Seq<u8>, b: Seq<u8>)
    ensures
        a != b ==> bytes_lt(a, b) || bytes_lt(b, a),
    decreases a.len(),
{
    if a.len() > 0 && b.len() > 0 && a[0] == b[0] {
        lemma_bytes_lt_total(a.drop_first(), b.drop_first());
        if a.drop_first() == b.drop_first() {
            assert(a =~= seq![a[0]] + a.drop_first());
            assert(b =~= seq![b[0]] + b.drop_first());
        }
    } else if a.len() == 0 && b.len() == 0 {
        assert(a =~= b);
    }
}

/// Compares two byte strings in the order of `bytes_lt`.
pub fn compare_bytes(a: &[u8], b: &[u8]) -> (order: KeyOrder)
    ensures
        order == KeyOrder::Less <==> bytes_lt(a@, b@),
        order == KeyOrder::Equal <==> a@ == b@,
        order == KeyOrder::Greater <==> bytes_lt(b@, a@),
{
    let mut i: usize = 0;
    assert(a@.skip(0) =~= a@ && b@.skip(0) =~= b@);
    while i < a.len() && i < b.len()
        invariant
            i <= a.len(),
            i <= b.len(),
            a@.take(i as int) == b@.take(i as int),
            bytes_lt(a@, b@) == bytes_lt(a@.skip(i as int), b@.skip(i as int)),
            bytes_lt(b@, a@) == bytes_lt(b@.skip(i as int), a@.skip(i as int)),
        decreases a.len() - i,
    {
        if a[i] != b[i] {
            proof {
                assert(a@.skip(i as int)[0] == a@[i as int]);
                assert(b@.skip(i as int)[0] == b@[i as int]);
                if a@ == b@ {
                    assert(a@[i as int] == b@[i as int]);
                }
            }
            if a[i] < b[i] {
                return KeyOrder::Less;
            } else {
                return KeyOrder::Greater;
            }
        }
        proof {
            assert(a@.skip(i as int).drop_first() =~= a@.skip(i + 1));
            assert(b@.skip(i as int).drop_first() =~= b@.skip(i + 1));
            assert(a@.take(i + 1) =~= a@.take(i as int).push(a@[i as int]));
            assert(b@.take(i + 1) =~= b@.take(i as int).push(b@[i as int]));
        }
        i += 1;
    }
    proof {
        assert(a@.skip(i as int).len() == a.len() - i);
        assert(b@.skip(i as int).len() == b.len() - i);
        if a.len() == b.len() {
            assert(a@ =~= a@.take(i as int));
            assert(b@ =~= b@.take(i as int));
        } else if i == a.len() {
            assert(a@ != b@) by {
                assert(a@.len() != b@.len());
            }
        } else {
            assert(a@.len() != b@.len());
        }
    }
    if a.len() < b.len() {
        KeyOrder::Less
    } else if a.len() > b.len() {
        KeyOrder::Greater
    } else {
        KeyOrder::Equal
    }
}

/// Whether two byte strings are equal.
pub fn bytes_equal(a: &[u8], b: &[u8]) -> (equal: bool)
    ensures
        equal == (a@ == b@),
{
    if a.len() != b.len() {
        return false;
    }
    let mut i: usize = 0;
    while i < a.len()
        invariant
            a.len() == b.len(),
            i <= a.len(),
            forall|k: int| 0 <= k < i ==> a@[k] == b@[k],
        decreases a.len() - i,
    {
        if a[i] != b[i] {
            return false;
        }
        i += 1;
    }
    assert(a@ =~= b@);
    true
}

/// A copy of a byte slice.
pub fn copy_bytes(bytes: &[u8]) -> (copy: Vec<u8>)
    ensures
        copy@ == bytes@,
{
    let mut copy: Vec<u8> = Vec::with_capacity(bytes.len());
    let mut i: usize = 0;
    while i < bytes.len()
        invariant
            i <= bytes.len(),
            copy@ == bytes@.take(i as int),
        decreases bytes.len() - i,
    {
        copy.push(bytes[i]);
        assert(copy@ =~= bytes@.take(i + 1));
        i += 1;
    }
    assert(copy@ =~= bytes@);
    copy
}

/// The bytes of `bytes` in `start..end`.
pub fn slice_bytes(bytes: &[u8], start: usize, end: usize) -> (part: Vec<u8>)
    requires
        start <= end <= bytes.len(),
    ensures
        part@ == bytes@.subrange(start as int, end as int),
{
    let mut part: Vec<u8> = Vec::with_capacity(end - start);
    let mut i: usize = start;
    while i < end
        invariant
            start <= i <= end <= bytes.len(),
            part@ == bytes@.subrange(start as int, i as int),
        decreases end - i,
    {
        part.push(bytes[i]);
        assert(part@ =~= bytes@.subrange(start as int, i + 1));
        i += 1;
    }
    part
}

/// Appends `bytes` to `output`.
pub fn append_bytes(output: &mut Vec<u8>, bytes: &[u8])
    ensures
        final(output)@ == old(output)@ + bytes@,
{
    let mut i: usize = 0;
    while i < bytes.len()
        invariant
            i <= bytes.len(),
            output@ == old(output)@ + bytes@.take(i as int),
        decreases bytes.len() - i,
    {
        output.push(bytes[i]);
        assert(output@ =~= old(output)@ + bytes@.take(i + 1));
        i += 1;
    }
    assert(bytes@.take(bytes.len() as int) =~= bytes@);
}

/// Big-endian encoding of a 16-bit value.
pub open spec fn be16(value: u16) -> Seq<u8> {
    seq![(value >> 8) as u8, (value & 0xff) as u8]
}

/// Big-endian encoding of a 32-bit value.
pub open spec fn be32(value: u32) -> Seq<u8> {
    seq![(value >> 24) as u8, ((value >> 16) & 0xff) as u8, ((value >> 8) & 0xff) as u8, (value & 0xff) as u8]
}

/// The big-endian bytes of a 16-bit value.
pub fn u16_bytes(value: u16) -> (bytes: Vec<u8>)
    ensures
        bytes@ == be16(value),
{
    let bytes = vec![(value >> 8) as u8, (value & 0xff) as u8];
    assert(bytes@ =~= be16(value));
    bytes
}

/// The big-endian bytes of a 32-bit value.
pub fn u32_bytes(value: u32) -> (bytes: Vec<u8>)
    ensures
        bytes@ == be32(value),
{
    let bytes = vec![(value >> 24) as u8, ((value >> 16) & 0xff) as u8, ((value >> 8) & 0xff) as u8, (value & 0xff) as u8];
    assert(bytes@ =~= be32(value));
    bytes
}

/// `length` zero bytes.
pub fn zeros(length: usize) -> (bytes: Vec<u8>)
    ensures
        bytes@ == Seq::new(length as nat, |i: int| 0u8),
{
    let mut bytes: Vec<u8> = Vec::with_capacity(length);
    let mut i: usize = 0;
    while i < length
        invariant
            i <= length,
            bytes@ == Seq::new(i as nat, |k: int| 0u8),
        decreases length - i,
    {
        bytes.push(0);
        assert(bytes@ =~= Seq::new((i + 1) as nat, |k: int| 0u8));
        i += 1;
    }
    bytes
}

} // verus!
