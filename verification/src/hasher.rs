//! Fingerprints of file content.
//!
//! A fingerprint is the 64-bit XXH64 hash of all the bytes of a file, with a
//! fixed seed, so that the same bytes give the same fingerprint in every run.
//! The hash itself is computed by the `twox-hash` crate; this module feeds it
//! and states what the rest of the crate relies on.

use vstd::prelude::*;

verus! {

/// The seed of every fingerprint.
pub const FINGERPRINT_SEED: u64 = 0;

/// The fingerprint recorded for a file that could not be read. All such
/// files share it, and so look like copies of one another.
pub const UNREADABLE_FINGERPRINT: u64 = 0;

#[verifier::external_type_specification]
#[verifier::external_body]
pub struct ExXxHash64(twox_hash::XxHash64);

/// The XXH64 hash of `input` under `seed`, as `twox_hash::XxHash64` computes
/// it: what `finish` returns for a hasher made with `seed` that was fed
/// `input`.
pub uninterp spec fn xxh64(seed: u64, input: Seq<u8>) -> u64;

/// The seed that a `twox_hash::XxHash64` was made with.
pub uninterp spec fn hasher_seed(state: twox_hash::XxHash64) -> u64;

/// All the bytes that a `twox_hash::XxHash64` was fed since it was made, in
/// the order in which they came.
pub uninterp spec fn hasher_input(state: twox_hash::XxHash64) -> Seq<u8>;

/// Calls `twox_hash::XxHash64::with_seed`. Believed of it: the new hasher
/// has the given seed and was fed nothing yet.
#[verifier::external_body]
fn xxh64_with_seed(seed: u64) -> (state: twox_hash::XxHash64)
    ensures
        hasher_seed(state) == seed,
        hasher_input(state) == Seq::<u8>::empty(),
{
    twox_hash::XxHash64::with_seed(seed)
}

/// Calls `write` of `twox_hash::XxHash64`, through `std::hash::Hasher`.
/// Believed of it: the hasher keeps its seed, and `bytes` is added at the end
/// of what it was fed. The hasher counts its input in a `u64`, which must not
/// overflow.
#[verifier::external_body]
fn xxh64_write(state: &mut twox_hash::XxHash64, bytes: &[u8])
    requires
        hasher_input(*old(state)).len() + bytes@.len() <= u64::MAX,
    ensures
        hasher_seed(*final(state)) == hasher_seed(*old(state)),
        hasher_input(*final(state)) == hasher_input(*old(state)) + bytes@,
{
    std::hash::Hasher::write(state, bytes)
}

/// Calls `finish` of `twox_hash::XxHash64`, through `std::hash::Hasher`.
/// Believed of it: the result depends on the seed and on the bytes fed so
/// far, and not on how they were cut into calls of `write`.
#[verifier::external_body]
fn xxh64_finish(state: &twox_hash::XxHash64) -> (digest: u64)
    ensures
        digest == xxh64(hasher_seed(*state), hasher_input(*state)),
{
    std::hash::Hasher::finish(state)
}

/// The fingerprint of a file whose bytes are `content`.
pub open spec fn content_fingerprint(content: Seq<u8>) -> u64 {
    xxh64(FINGERPRINT_SEED, content)
}

/// A sink for the bytes of one file, which arrive in chunks. Its value is
/// the sequence of all bytes fed so far.
pub struct ContentHasher {
    state: twox_hash::XxHash64,
    absorbed: u64,
}

impl View for ContentHasher {
    type V = Seq<u8>;

    closed spec fn view(&self) -> Seq<u8> {
        hasher_input(self.state)
    }
}

impl ContentHasher {
    #[verifier::type_invariant]
    spec fn well_formed(self) -> bool {
        &&& hasher_seed(self.state) == FINGERPRINT_SEED
        &&& hasher_input(self.state).len() == self.absorbed
    }

    /// A hasher that was fed nothing yet.
    pub fn new() -> (hasher: ContentHasher)
        ensures
            hasher@ == Seq::<u8>::empty(),
    {
        ContentHasher { state: xxh64_with_seed(FINGERPRINT_SEED), absorbed: 0 }
    }

    /// Feeds the next chunk of the file. A stream of more than `u64::MAX`
    /// bytes cannot be fingerprinted: the chunk that would pass that length
    /// is refused, and the hasher stays as it was.
    pub fn update(&mut self, chunk: &[u8]) -> (accepted: bool)
        ensures
            accepted == (old(self)@.len() + chunk@.len() <= u64::MAX),
            accepted ==> final(self)@ == old(self)@ + chunk@,
            !accepted ==> final(self)@ == old(self)@,
    {
        proof {
            use_type_invariant(&*self);
        }
        let room = u64::MAX - self.absorbed;
        if chunk.len() as u64 > room {
            return false;
        }
        let mut state = self.state;
        xxh64_write(&mut state, chunk);
        *self = ContentHasher { state, absorbed: self.absorbed + chunk.len() as u64 };
        true
    }

    /// The fingerprint of the bytes fed so far.
    pub fn finish(&self) -> (fingerprint: u64)
        ensures
            fingerprint == content_fingerprint(self@),
    {
        proof {
            use_type_invariant(self);
        }
        xxh64_finish(&self.state)
    }
}

/// The fingerprint of a file whose bytes are all in `content`.
pub fn fingerprint(content: &[u8]) -> (fingerprint: u64)
    ensures
        fingerprint == content_fingerprint(content@),
{
    let mut hasher = ContentHasher::new();
    hasher.update(content);
    proof {
        assert(content@.len() == content.len() <= usize::MAX);
        assert(Seq::<u8>::empty() + content@ == content@);
    }
    hasher.finish()
}

/// The fingerprint to record for a file: that of the bytes read from it, or
/// [`UNREADABLE_FINGERPRINT`] where `content` is `None` because the file
/// could not be read.
pub fn hash_file(content: Option<ContentHasher>) -> (fingerprint: u64)
    ensures
        fingerprint == match content {
            Some(hasher) => content_fingerprint(hasher@),
            None => UNREADABLE_FINGERPRINT,
        },
{
    match content {
        Some(hasher) => hasher.finish(),
        None => UNREADABLE_FINGERPRINT,
    }
}

/// The bytes that a hasher holds after it was fed `chunks` one by one,
/// starting from `start`.
pub open spec fn absorbed_after(start: Seq<u8>, chunks: Seq<Seq<u8>>) -> Seq<u8>
    decreases chunks.len(),
{
    if chunks.len() == 0 {
        start
    } else {
        absorbed_after(start, chunks.drop_last()) + chunks.last()
    }
}

/// Feeding chunks one by one amounts to feeding their concatenation.
pub proof fn lemma_absorbed_is_concatenation(start: Seq<u8>, chunks: Seq<Seq<u8>>)
    ensures
        absorbed_after(start, chunks) == start + chunks.flatten(),
    decreases chunks.len(),
{
    if chunks.len() == 0 {
        assert(chunks.flatten() == Seq::<u8>::empty());
        assert(start + Seq::<u8>::empty() == start);
    } else {
        lemma_absorbed_is_concatenation(start, chunks.drop_last());
        chunks.drop_last().lemma_flatten_push(chunks.last());
        assert(chunks.drop_last().push(chunks.last()) == chunks);
        assert(absorbed_after(start, chunks) == start + chunks.flatten());
    }
}

/// The fingerprint of a file depends on its bytes alone: two streams of
/// chunks that carry the same bytes, cut in whatever way and read from
/// whatever path, give the same fingerprint.
pub proof fn lemma_fingerprint_is_deterministic(first: Seq<Seq<u8>>, second: Seq<Seq<u8>>)
    requires
        first.flatten() == second.flatten(),
    ensures
        content_fingerprint(absorbed_after(Seq::empty(), first)) == content_fingerprint(
            absorbed_after(Seq::empty(), second),
        ),
{
    lemma_absorbed_is_concatenation(Seq::empty(), first);
    lemma_absorbed_is_concatenation(Seq::empty(), second);
}

} // verus!
