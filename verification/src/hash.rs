//! Content fingerprints.
//!
//! A file's content is summarized by a 64-bit non-cryptographic fingerprint
//! of its full byte stream. The fingerprint of a byte sequence is named by
//! the uninterpreted function [`sea_hash`]; the seahash streaming hasher
//! computes it. Two files are taken as identical exactly when their
//! fingerprints agree.
//!
//! The [`Fingerprinter`] holds the streaming logic the comparison uses: it
//! folds chunks read from a file into the running hash and decides when the
//! stream has ended — on a read of zero bytes, or on a read shorter than
//! the read buffer (a short read is taken as end of stream, which is sound
//! for seekable regular files).

use vstd::prelude::*;

verus! {

/// The 64-bit seahash fingerprint of a byte sequence, with the hasher's
/// default seeds. The value is a function of the bytes alone: the streaming
/// hasher folds each absorbed word into its four lanes one lane-rotation
/// per word and buffers partial words in a tail, so its state depends only
/// on the absorbed stream, never on how the stream was split into writes.
pub uninterp spec fn sea_hash(bytes: Seq<u8>) -> u64;

/// The byte stream a seahash hasher has absorbed so far.
pub uninterp spec fn absorbed(h: seahash::SeaHasher) -> Seq<u8>;

#[verifier::external_type_specification]
#[verifier::external_body]
pub struct ExSeaHasher(seahash::SeaHasher);

/// Relies on seahash::SeaHasher::new: a fresh hasher with the fixed
/// default seeds and nothing written.
#[verifier::external_body]
fn hasher_new() -> (r: seahash::SeaHasher)
    ensures
        absorbed(r) == Seq::<u8>::empty(),
{
    seahash::SeaHasher::new()
}

/// Relies on the std::hash::Hasher::write impl of seahash::SeaHasher:
/// writing appends exactly the given bytes to the absorbed stream, and the
/// hasher state depends on the absorbed stream alone, not on how it was
/// split into writes.
#[verifier::external_body]
fn hasher_write(h: &mut seahash::SeaHasher, chunk: &[u8])
    ensures
        absorbed(*final (h)) == absorbed(*old(h)) + chunk@,
{
    std::hash::Hasher::write(h, chunk);
}

/// Relies on the std::hash::Hasher::finish impl of seahash::SeaHasher: the
/// finished value is a deterministic function of the absorbed stream.
#[verifier::external_body]
fn hasher_finish(h: &seahash::SeaHasher) -> (r: u64)
    ensures
        r == sea_hash(absorbed(*h)),
{
    std::hash::Hasher::finish(h)
}

/// Streaming fingerprint computation over chunks read from a file.
///
/// The caller reads the file into a buffer of some fixed capacity and hands
/// each chunk over; the fingerprinter folds it in and reports whether the
/// stream has ended: it has when the chunk is empty or shorter than the
/// buffer.
pub struct Fingerprinter {
    hasher: seahash::SeaHasher,
    done: bool,
}

impl Fingerprinter {
    /// The byte stream folded in so far.
    pub closed spec fn bytes(self) -> Seq<u8> {
        absorbed(self.hasher)
    }

    /// Whether the stream has been recognized as ended.
    pub closed spec fn is_done(self) -> bool {
        self.done
    }

    pub fn new() -> (r: Fingerprinter)
        ensures
            r.bytes() == Seq::<u8>::empty(),
            !r.is_done(),
    {
        Fingerprinter { hasher: hasher_new(), done: false }
    }

    /// Folds one chunk into the running fingerprint. `capacity` is the size
    /// of the read buffer the chunk was read into; the stream ends exactly
    /// when the chunk is empty or fills the buffer only partly.
    pub fn feed(&mut self, chunk: &[u8], capacity: usize) -> (done: bool)
        requires
            !old(self).is_done(),
            chunk@.len() <= capacity,
            capacity > 0,
        ensures
            final (self).bytes() == old(self).bytes() + chunk@,
            done == (chunk@.len() == 0 || chunk@.len() < capacity),
            final (self).is_done() == done,
    {
        if chunk.len() == 0 {
            self.done = true;
            proof {
                assert(self.bytes() + chunk@ =~= self.bytes());
            }
            return true;
        }
        hasher_write(&mut self.hasher, chunk);
        if chunk.len() < capacity {
            self.done = true;
            true
        } else {
            false
        }
    }

    /// The fingerprint of everything folded in so far.
    pub fn finish(&self) -> (r: u64)
        ensures
            r == sea_hash(self.bytes()),
    {
        hasher_finish(&self.hasher)
    }
}

/// The fingerprint of a byte string held in memory in one piece.
pub fn fingerprint_bytes(data: &[u8]) -> (r: u64)
    ensures
        r == sea_hash(data@),
{
    let mut h = hasher_new();
    hasher_write(&mut h, data);
    proof {
        assert(absorbed(h) =~= data@);
    }
    hasher_finish(&h)
}

} // verus!
