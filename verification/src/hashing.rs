//! Digests of file contents.

use vstd::prelude::*;

verus! {

/// A SHA-256 computation under way: a `sha2::Sha256`, which Verus does not see
/// into.
#[verifier::external_body]
pub struct Hasher {
    inner: sha2::Sha256,
}

/// The bytes that a computation has been given so far.
pub uninterp spec fn absorbed(h: Hasher) -> Seq<u8>;

/// The SHA-256 digest of some bytes.
pub uninterp spec fn sha256(bytes: Seq<u8>) -> Seq<u8>;

/// Calls `Sha256::new`, which begins a computation that has been given nothing.
#[verifier::external_body]
fn begin() -> (r: Hasher)
    ensures
        absorbed(r) == Seq::<u8>::empty(),
{
    Hasher { inner: <sha2::Sha256 as sha2::Digest>::new() }
}

/// Calls `Sha256::update`, which adds bytes behind those given before.
#[verifier::external_body]
fn absorb(h: &mut Hasher, bytes: &[u8])
    ensures
        absorbed(*final(h)) == absorbed(*old(h)) + bytes@,
{
    sha2::Digest::update(&mut h.inner, bytes);
}

/// Calls `Sha256::finalize`, which gives the digest of all bytes given: 32
/// bytes that depend on those bytes alone.
#[verifier::external_body]
fn digest_of(h: Hasher) -> (r: Vec<u8>)
    ensures
        r@ == sha256(absorbed(h)),
        r@.len() == 32,
{
    sha2::Digest::finalize(h.inner).to_vec()
}

/// The digest of a file that is read piece by piece.
pub struct ContentDigest {
    hasher: Hasher,
}

impl ContentDigest {
    /// The bytes read so far.
    pub closed spec fn read(self) -> Seq<u8> {
        absorbed(self.hasher)
    }

    pub fn new() -> (r: Self)
        ensures
            r.read() == Seq::<u8>::empty(),
    {
        ContentDigest { hasher: begin() }
    }

    /// Takes the next piece; the file ends where the piece is empty.
    pub fn take(&mut self, piece: &[u8]) -> (more: bool)
        ensures
            final(self).read() == old(self).read() + piece@,
            more == (piece@.len() > 0),
    {
        absorb(&mut self.hasher, piece);
        piece.len() > 0
    }

    /// The digest of the bytes read.
    pub fn finish(self) -> (r: Vec<u8>)
        ensures
            r@ == sha256(self.read()),
            r@.len() == 32,
    {
        digest_of(self.hasher)
    }
}

/// How much of a large file a quick digest looks at, at each end.
pub const EDGE_BYTES: u64 = 0x1_0000;

/// The bytes of a number, the lowest first.
pub open spec fn low_bytes(n: nat, len: nat) -> Seq<u8>
    decreases len,
{
    if len == 0 {
        Seq::empty()
    } else {
        seq![(n % 256) as u8] + low_bytes(n / 256, (len - 1) as nat)
    }
}

fn size_bytes(n: u64) -> (r: Vec<u8>)
    ensures
        r@ == low_bytes(n as nat, 8),
{
    let mut out: Vec<u8> = Vec::new();
    let mut rest: u64 = n;
    let mut i: usize = 0;
    assert(out@ + low_bytes(rest as nat, 8) =~= low_bytes(n as nat, 8));
    while i < 8
        invariant
            i <= 8,
            out@ + low_bytes(rest as nat, (8 - i) as nat) == low_bytes(n as nat, 8),
        decreases 8 - i,
    {
        let ghost before = out@;
        let ghost tail = low_bytes((rest / 256) as nat, (8 - i - 1) as nat);
        out.push((rest % 256) as u8);
        assert(before + (seq![(rest as nat % 256) as u8] + tail) =~= out@ + tail);
        rest = rest / 256;
        i += 1;
    }
    assert(out@ + low_bytes(rest as nat, 0) =~= out@);
    out
}

/// The digest of the edges of a file and its size. The tail is read only from a
/// file that is larger than the head.
pub fn partial_hash(head: &[u8], tail: &[u8], size: u64) -> (r: Vec<u8>)
    ensures
        r@ == sha256(
            head@ + (if size > 64 * 1024 {
                tail@
            } else {
                Seq::empty()
            }) + low_bytes(size as nat, 8),
        ),
        r@.len() == 32,
{
    let mut h = begin();
    absorb(&mut h, head);
    if size > EDGE_BYTES {
        absorb(&mut h, tail);
    }
    let end = size_bytes(size);
    absorb(&mut h, end.as_slice());
    assert(absorbed(h) =~= head@ + (if size > 64 * 1024 {
        tail@
    } else {
        Seq::empty()
    }) + low_bytes(size as nat, 8));
    digest_of(h)
}

/// The bytes of a number are the bytes that make it up, the lowest first.
pub proof fn law_numbers_are_written_lowest_first(n: nat, len: nat)
    ensures
        low_bytes(n, len).len() == len,
        len > 0 ==> low_bytes(n, len)[0] as nat == n % 256,
        forall|i: int|
        0 <= i && i + 1 < len ==> #[trigger] low_bytes(n, len)[i + 1] == low_bytes(n / 256, (len - 1) as nat)[i],
    decreases len,
{
    if len > 0 {
        law_numbers_are_written_lowest_first(n / 256, (len - 1) as nat);
    }
}

} // verus!
