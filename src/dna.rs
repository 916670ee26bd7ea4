use vstd::prelude::*;

verus! {

/// Whether bit `i` (0 is the least significant) of `x` is set.
pub open spec fn bit_set(x: u8, i: u8) -> bool {
    (x >> i) & 1u8 == 1u8
}

/// Whether every bit of `child` comes from `dna1` where `selector` has it set
/// and from `dna2` where it does not.
pub open spec fn gene_mixed(child: u8, dna1: u8, dna2: u8, selector: u8) -> bool {
    forall|i: u8|
        #![trigger bit_set(child, i)]
        i < 8 ==> bit_set(child, i) == if bit_set(selector, i) {
            bit_set(dna1, i)
        } else {
            bit_set(dna2, i)
        }
}

/// The gene that mixes two parent genes: every bit set in `selector` is
/// taken from `dna1`, every other bit from `dna2`.
pub fn combine_dna(dna1: u8, dna2: u8, selector: u8) -> (r: u8)
    ensures
        gene_mixed(r, dna1, dna2, selector),
{
    let r = (selector & dna1) | (!selector & dna2);
    assert(forall|i: u8|
        i < 8 ==> ((r >> i) & 1u8 == 1u8) == if (selector >> i) & 1u8 == 1u8 {
            (dna1 >> i) & 1u8 == 1u8
        } else {
            (dna2 >> i) & 1u8 == 1u8
        }) by (bit_vector)
        requires
            r == (selector & dna1) | (!selector & dna2),
    ;
    r
}

/// Whether each gene of `child` mixes the genes of `dna1` and `dna2` at the
/// same position under the selector gene there.
pub open spec fn dna_bred(child: Seq<u8>, dna1: Seq<u8>, dna2: Seq<u8>, selector: Seq<u8>) -> bool {
    &&& child.len() == 16
    &&& forall|k: int|
        #![trigger child[k]]
        0 <= k < 16 ==> gene_mixed(child[k], dna1[k], dna2[k], selector[k])
}

/// The genes of a child bred from `dna1` and `dna2` under `selector`.
pub fn breed_dna(dna1: &[u8; 16], dna2: &[u8; 16], selector: &[u8; 16]) -> (r: [u8; 16])
    ensures
        dna_bred(r@, dna1@, dna2@, selector@),
{
    let mut child: [u8; 16] = [0u8; 16];
    let mut k: usize = 0;
    while k < 16
        invariant
            k <= 16,
            child@.len() == 16,
            forall|j: int|
                #![trigger child@[j]]
                0 <= j < k ==> gene_mixed(child@[j], dna1@[j], dna2@[j], selector@[j]),
        decreases 16 - k,
    {
        child[k] = combine_dna(dna1[k], dna2[k], selector[k]);
        k = k + 1;
    }
    child
}

/// A collectible whose 16 genes are kept as bytes.
#[derive(Clone, Copy, Debug)]
pub struct Kitty(pub [u8; 16]);

impl Kitty {
    /// The storage encoding of the kitty: its 16 genes in order.
    pub fn encode(&self) -> (r: Vec<u8>)
        ensures
            r@ == self.0@,
    {
        encode_genes(&self.0)
    }

    /// Reads a kitty from the front of `bytes`; `None` when fewer than 16
    /// bytes are given.
    pub fn decode(bytes: &[u8]) -> (r: Option<Kitty>)
        ensures
            r.is_some() <==> bytes@.len() >= 16,
            r.is_some() ==> r.unwrap().0@ == bytes@.subrange(0, 16),
    {
        match decode_genes(bytes) {
            Some(dna) => Some(Kitty(dna)),
            None => None,
        }
    }
}

/// Relies on parity_scale_codec's `Encode` for `[u8; N]`: the bytes as they
/// stand, with no length prefix.
#[verifier::external_body]
fn encode_genes(dna: &[u8; 16]) -> (r: Vec<u8>)
    ensures
        r@ == dna@,
{
    parity_scale_codec::Encode::encode(dna)
}

/// Relies on parity_scale_codec's `Decode` for `[u8; N]` read from a byte
/// slice: the first 16 bytes, or an error when fewer are left.
#[verifier::external_body]
fn decode_genes(bytes: &[u8]) -> (r: Option<[u8; 16]>)
    ensures
        r.is_some() <==> bytes@.len() >= 16,
        r.is_some() ==> r.unwrap()@ == bytes@.subrange(0, 16),
{
    let mut input = bytes;
    <[u8; 16] as parity_scale_codec::Decode>::decode(&mut input).ok()
}

/// The `n` least significant bytes of `x`, least significant first.
pub open spec fn le_bytes(x: nat, n: nat) -> Seq<u8>
    decreases n,
{
    if n == 0 {
        Seq::empty()
    } else {
        seq![(x % 256) as u8] + le_bytes(x / 256, (n - 1) as nat)
    }
}

/// The SCALE encoding of an optional 32-bit number: a tag byte, then the
/// number in little-endian order when there is one.
pub open spec fn option_u32_bytes(x: Option<u32>) -> Seq<u8> {
    match x {
        Some(v) => seq![1u8] + le_bytes(v as nat, 4),
        None => seq![0u8],
    }
}

/// What the chain knows of the moment a kitty's genes are drawn.
pub struct BlockContext {
    pub random_seed: [u8; 32],
    pub extrinsic_index: Option<u32>,
    pub block_number: u64,
}

/// The bytes hashed for a new kitty's genes: the random seed, the sender,
/// the extrinsic index and the block number, each SCALE-encoded in turn.
pub open spec fn entropy_payload(ctx: BlockContext, sender: u64) -> Seq<u8> {
    ctx.random_seed@ + le_bytes(sender as nat, 8) + option_u32_bytes(ctx.extrinsic_index)
        + le_bytes(ctx.block_number as nat, 8)
}

/// Relies on parity_scale_codec's `Encode` for a tuple: the encodings of its
/// fields one after another; `[u8; 32]` as its bytes, `u64` in 8
/// little-endian bytes, `Option<u32>` as a tag byte and the value.
#[verifier::external_body]
fn encode_payload(seed: &[u8; 32], sender: u64, extrinsic_index: Option<u32>, block_number: u64) -> (r: Vec<u8>)
    ensures
        r@ == seed@ + le_bytes(sender as nat, 8) + option_u32_bytes(extrinsic_index) + le_bytes(
            block_number as nat,
            8,
        ),
{
    parity_scale_codec::Encode::encode(&(*seed, sender, extrinsic_index, block_number))
}

/// The 128-bit BLAKE2b digest of `data`.
pub uninterp spec fn blake2_128_of(data: Seq<u8>) -> Seq<u8>;

/// Relies on sp_crypto_hashing::blake2_128: a digest of 16 bytes that
/// depends on the data alone.
#[verifier::external_body]
fn blake2_128(data: &[u8]) -> (r: [u8; 16])
    ensures
        r@ == blake2_128_of(data@),
{
    sp_crypto_hashing::blake2_128(data)
}

/// Fresh genes for `sender`: the digest of the block's entropy payload.
pub fn random_value(ctx: &BlockContext, sender: u64) -> (r: [u8; 16])
    ensures
        r@ == blake2_128_of(entropy_payload(*ctx, sender)),
{
    let payload = encode_payload(&ctx.random_seed, sender, ctx.extrinsic_index, ctx.block_number);
    blake2_128(payload.as_slice())
}

} // verus!
