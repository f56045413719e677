use vstd::prelude::*;

verus! {

/// Big-endian bytes of a 16-bit value.
pub open spec fn be16(v: nat) -> Seq<u8> {
    seq![((v / 0x100) % 0x100) as u8, (v % 0x100) as u8]
}

/// Big-endian bytes of a 32-bit value.
pub open spec fn be32(v: nat) -> Seq<u8> {
    seq![
        ((v / 0x1000000) % 0x100) as u8,
        ((v / 0x10000) % 0x100) as u8,
        ((v / 0x100) % 0x100) as u8,
        (v % 0x100) as u8,
    ]
}

/// Overwrites the start of `out` with `src`, leaving the rest as it was.
pub fn copy_prefix(out: &mut [u8], src: &[u8])
    requires
        src@.len() <= old(out)@.len(),
    ensures
        final(out)@ == src@ + old(out)@.subrange(src@.len() as int, old(out)@.len() as int),
{
    let mut i: usize = 0;
    while i < src.len()
        invariant
            i <= src@.len(),
            src@.len() <= old(out)@.len(),
            out@.len() == old(out)@.len(),
            out@ == src@.subrange(0, i as int) + old(out)@.subrange(i as int, old(out)@.len() as int),
        decreases src@.len() - i,
    {
        out[i] = src[i];
        i = i + 1;
        assert(out@ =~= src@.subrange(0, i as int) + old(out)@.subrange(i as int, old(out)@.len() as int));
    }
    assert(src@.subrange(0, i as int) =~= src@);
}

/// Overwrites `out` from position `at` with `src`, leaving the rest as it was.
pub fn copy_at(out: &mut [u8], at: usize, src: &[u8])
    requires
        at + src@.len() <= old(out)@.len(),
    ensures
        final(out)@ == old(out)@.subrange(0, at as int) + src@ + old(out)@.subrange(
            at + src@.len(),
            old(out)@.len() as int,
        ),
{
    let n = src.len();
    let total = out.len();
    let mut i: usize = 0;
    while i < n
        invariant
            n == src@.len(),
            total == old(out)@.len(),
            at + n <= old(out)@.len(),
            i <= n,
            out@.len() == old(out)@.len(),
            forall|j: int| 0 <= j < at ==> out@[j] == old(out)@[j],
            forall|j: int| 0 <= j < i ==> out@[at + j] == src@[j],
            forall|j: int| at + n <= j < old(out)@.len() ==> out@[j] == old(out)@[j],
        decreases n - i,
    {
        out[at + i] = src[i];
        i = i + 1;
    }
    assert(out@ =~= old(out)@.subrange(0, at as int) + src@ + old(out)@.subrange(
        at + src@.len(),
        old(out)@.len() as int,
    ));
}

/// Whether two byte strings are equal.
pub fn bytes_eq(a: &[u8], b: &[u8]) -> (r: bool)
    ensures
        r == (a@ == b@),
{
    if a.len() != b.len() {
        return false;
    }
    let mut i: usize = 0;
    while i < a.len()
        invariant
            i <= a@.len(),
            a@.len() == b@.len(),
            a@.subrange(0, i as int) == b@.subrange(0, i as int),
        decreases a@.len() - i,
    {
        if a[i] != b[i] {
            return false;
        }
        assert(a@.subrange(0, i + 1) =~= a@.subrange(0, i as int).push(a@[i as int]));
        assert(b@.subrange(0, i + 1) =~= b@.subrange(0, i as int).push(b@[i as int]));
        i = i + 1;
    }
    assert(a@ =~= a@.subrange(0, i as int));
    assert(b@ =~= b@.subrange(0, i as int));
    true
}

/// The 16 bytes of `data` that start at `at`.
pub fn array16_at(data: &[u8], at: usize) -> (r: [u8; 16])
    requires
        at + 16 <= data@.len(),
    ensures
        r@ == data@.subrange(at as int, at + 16),
{
    let len = data.len();
    let mut r = [0u8; 16];
    let mut i: usize = 0;
    while i < 16
        invariant
            i <= 16,
            len == data@.len(),
            at + 16 <= len,
            forall|j: int| 0 <= j < i ==> r@[j] == data@[at + j],
        decreases 16 - i,
    {
        r[i] = data[at + i];
        i = i + 1;
    }
    assert(r@ =~= data@.subrange(at as int, at + 16));
    r
}

/// The 32 bytes of `data` that start at `at`.
pub fn array32_at(data: &[u8], at: usize) -> (r: [u8; 32])
    requires
        at + 32 <= data@.len(),
    ensures
        r@ == data@.subrange(at as int, at + 32),
{
    let len = data.len();
    let mut r = [0u8; 32];
    let mut i: usize = 0;
    while i < 32
        invariant
            i <= 32,
            len == data@.len(),
            at + 32 <= len,
            forall|j: int| 0 <= j < i ==> r@[j] == data@[at + j],
        decreases 32 - i,
    {
        r[i] = data[at + i];
        i = i + 1;
    }
    assert(r@ =~= data@.subrange(at as int, at + 32));
    r
}

} // verus!
