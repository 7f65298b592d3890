//! SHA-256 digests.
use vstd::prelude::*;

verus! {

/// The SHA-256 digest of some bytes.
pub uninterp spec fn sha256(bytes: Seq<u8>) -> Seq<u8>;

/// The bytes that a digest context was fed so far.
pub uninterp spec fn fed(context: ring::digest::Context) -> Seq<u8>;

/// The digest context computes SHA-256.
pub uninterp spec fn is_sha256(context: ring::digest::Context) -> bool;

/// A digest in the making.
#[verifier::external_type_specification]
#[verifier::external_body]
pub struct ExContext(ring::digest::Context);

/// More bytes than this one digest does not take.
pub const MAX_DIGEST_INPUT: u64 = 0x1FFF_FFFF_FFFF_FFFF;

/// `ring::digest::Context::new` with `ring::digest::SHA256`: a context that was
/// fed nothing.
#[verifier::external_body]
fn new_context() -> (context: ring::digest::Context)
    ensures
        fed(context) == Seq::<u8>::empty(),
        is_sha256(context),
{
    ring::digest::Context::new(&ring::digest::SHA256)
}

/// `ring::digest::Context::update`: feeds more bytes to a context.
#[verifier::external_body]
fn feed(context: &mut ring::digest::Context, data: &[u8])
    ensures
        fed(*final(context)) == fed(*old(context)) + data@,
        is_sha256(*final(context)) == is_sha256(*old(context)),
{
    context.update(data);
}

/// `ring::digest::Context::finish`: the digest of all the bytes that the context
/// was fed, in order.
#[verifier::external_body]
fn finish_context(context: ring::digest::Context) -> (digest: [u8; 32])
    requires
        is_sha256(context),
        fed(context).len() <= MAX_DIGEST_INPUT,
    ensures
        digest@ == sha256(fed(context)),
{
    let mut digest = [0u8; 32];
    digest.copy_from_slice(context.finish().as_ref());
    digest
}

/// `ring::digest::digest` with `ring::digest::SHA256`: the digest of some bytes.
#[verifier::external_body]
fn digest_once(data: &[u8]) -> (digest: [u8; 32])
    requires
        data@.len() <= MAX_DIGEST_INPUT,
    ensures
        digest@ == sha256(data@),
{
    let mut digest = [0u8; 32];
    digest.copy_from_slice(ring::digest::digest(&ring::digest::SHA256, data).as_ref());
    digest
}

/// The digest of some bytes.
pub fn sha256_of(data: &[u8]) -> (digest: [u8; 32])
    requires
        data@.len() <= MAX_DIGEST_INPUT,
    ensures
        digest@ == sha256(data@),
{
    digest_once(data)
}

/// Computes the digest of bytes that come in pieces.
pub struct Hasher {
    context: ring::digest::Context,
}

impl View for Hasher {
    type V = Seq<u8>;

    /// The bytes so far.
    closed spec fn view(&self) -> Seq<u8> {
        fed(self.context)
    }
}

impl Hasher {
    #[verifier::type_invariant]
    spec fn computes_sha256(self) -> bool {
        is_sha256(self.context)
    }

    #[must_use]
    pub fn new() -> (hasher: Self)
        ensures
            hasher@ == Seq::<u8>::empty(),
    {
        Hasher { context: new_context() }
    }

    /// Takes more bytes.
    pub fn update(&mut self, data: &[u8])
        ensures
            final(self)@ == old(self)@ + data@,
    {
        proof {
            use_type_invariant(&*self);
        }
        let mut context = new_context();
        std::mem::swap(&mut context, &mut self.context);
        feed(&mut context, data);
        self.context = context;
    }

    /// The digest of all the bytes.
    #[must_use]
    pub fn finish(self) -> (digest: [u8; 32])
        requires
            self@.len() <= MAX_DIGEST_INPUT,
        ensures
            digest@ == sha256(self@),
    {
        proof {
            use_type_invariant(&self);
        }
        finish_context(self.context)
    }
}

/// Hashing in pieces is hashing the whole: the digest of two pieces fed one after the
/// other is that of the pieces joined.
pub proof fn pieces_hash_as_the_whole(
    fresh: Hasher,
    first: &mut Hasher,
    one: &[u8],
    second: &mut Hasher,
    two: &[u8],
    digest: [u8; 32],
    whole: &[u8],
    whole_digest: [u8; 32],
)
    requires
        call_ensures(Hasher::new, (), fresh),
        *old(first) == fresh,
        call_ensures(Hasher::update, (first, one), ()),
        *old(second) == *final(first),
        call_ensures(Hasher::update, (second, two), ()),
        call_ensures(Hasher::finish, (*final(second),), digest),
        whole@ == one@ + two@,
        call_ensures(sha256_of, (whole,), whole_digest),
    ensures
        digest@ == whole_digest@,
        digest@ == sha256(one@ + two@),
{
    assert(Seq::<u8>::empty() + one@ + two@ == one@ + two@);
}

} // verus!
