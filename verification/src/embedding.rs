//! Fixed-point embedding vectors.
//!
//! An embedding is a vector of `EMBED_DIM` fixed-point components, each in
//! `[-EMBED_SCALE, EMBED_SCALE]` (`EMBED_SCALE` stands for 1.0). The store
//! keeps each vector as a little-endian byte blob, four bytes per
//! component; similarity between two embeddings is their dot product, so
//! for unit-length vectors a score of `EMBED_SCALE * EMBED_SCALE`
//! corresponds to a cosine similarity of 1.

use vstd::prelude::*;

use crate::errors::MemoryError;

verus! {

/// Number of components of every embedding vector.
pub const EMBED_DIM: usize = 384;

/// Fixed-point scale: the component value standing for 1.0.
pub const EMBED_SCALE: i64 = 65536;

/// Smallest squared length of a near-unit embedding.
pub const EMBED_NORM_MIN: i64 = 4290000000;

/// Largest squared length of a near-unit embedding. `EMBED_SCALE`
/// squared — the squared length of an exactly unit-length vector —
/// lies between the two bounds.
pub const EMBED_NORM_MAX: i64 = 4300000000;

/// A well-formed embedding: full dimension, every component in range.
pub open spec fn valid_embedding(e: Seq<i32>) -> bool {
    e.len() == EMBED_DIM && forall|j: int|
        0 <= j < e.len() ==> -EMBED_SCALE <= #[trigger] e[j] <= EMBED_SCALE
}

/// A near-unit embedding: its squared length (its dot product with
/// itself) lies within the narrow band around `EMBED_SCALE` squared.
/// Providers return near-unit vectors, which is what lets a score be
/// read as a cosine similarity and makes self-similarity nearly
/// maximal.
pub open spec fn near_unit(e: Seq<i32>) -> bool {
    EMBED_NORM_MIN <= spec_dot(e, e) <= EMBED_NORM_MAX
}

/// A component's value as its 32-bit two's complement bit pattern.
pub open spec fn comp_unsigned(c: i32) -> int {
    if c >= 0 {
        c as int
    } else {
        c + 0x1_0000_0000
    }
}

/// The four little-endian bytes of one component, two's complement.
pub open spec fn comp_bytes(c: i32) -> Seq<u8> {
    let u = comp_unsigned(c);
    seq![
        (u % 256) as u8,
        ((u / 256) % 256) as u8,
        ((u / 65536) % 256) as u8,
        ((u / 16777216) % 256) as u8,
    ]
}

/// Bytes of the first `n` components.
pub open spec fn bytes_at(e: Seq<i32>, n: int) -> Seq<u8>
    decreases n,
{
    if n <= 0 {
        Seq::<u8>::empty()
    } else {
        bytes_at(e, n - 1) + comp_bytes(e[n - 1])
    }
}

/// The byte blob the store keeps for an embedding.
pub open spec fn spec_embedding_bytes(e: Seq<i32>) -> Seq<u8> {
    bytes_at(e, e.len() as int)
}

pub proof fn lemma_bytes_at_len(e: Seq<i32>, n: int)
    requires
        0 <= n <= e.len(),
    ensures
        bytes_at(e, n).len() == 4 * n,
    decreases n,
{
    if n > 0 {
        lemma_bytes_at_len(e, n - 1);
    }
}

/// The component a blob holds at index `j`, read back from its bytes.
pub open spec fn spec_comp_of(b: Seq<u8>, j: int) -> int {
    let u = b[4 * j] + 256 * (b[4 * j + 1] as int) + 65536 * (b[4 * j + 2] as int) + 16777216 * (
    b[4 * j + 3] as int);
    if u >= 0x8000_0000 {
        u - 0x1_0000_0000
    } else {
        u
    }
}

/// Whether a blob decodes to a well-formed embedding.
pub open spec fn spec_decode_ok(b: Seq<u8>) -> bool {
    b.len() == 4 * EMBED_DIM && forall|j: int|
        0 <= j < EMBED_DIM ==> -EMBED_SCALE <= #[trigger] spec_comp_of(b, j) <= EMBED_SCALE
}

/// The embedding a well-formed blob decodes to.
pub open spec fn spec_decode(b: Seq<u8>) -> Seq<i32> {
    Seq::new(EMBED_DIM as nat, |j: int| spec_comp_of(b, j) as i32)
}

/// Serializes an embedding to the blob layout the store uses.
pub fn embedding_to_bytes(e: &Vec<i32>) -> (r: Vec<u8>)
    ensures
        r@ == spec_embedding_bytes(e@),
{
    let mut out: Vec<u8> = Vec::new();
    let mut i: usize = 0;
    while i < e.len()
        invariant
            i <= e.len(),
            out@ == bytes_at(e@, i as int),
        decreases e.len() - i,
    {
        let c = e[i];
        let u: i64 = if c >= 0 {
            c as i64
        } else {
            (c as i64) + 0x1_0000_0000
        };
        assert(u == comp_unsigned(c));
        let ghost prev = out@;
        out.push((u % 256) as u8);
        out.push(((u / 256) % 256) as u8);
        out.push(((u / 65536) % 256) as u8);
        out.push(((u / 16777216) % 256) as u8);
        proof {
            assert(out@ =~= prev + comp_bytes(e@[i as int]));
        }
        i = i + 1;
    }
    out
}

/// Deserializes a blob, refusing wrong lengths and out-of-range
/// components, so that `Some` results are always well-formed.
pub fn bytes_to_embedding(b: &Vec<u8>) -> (r: Option<Vec<i32>>)
    ensures
        spec_decode_ok(b@) ==> r is Some && r->Some_0@ == spec_decode(b@),
        !spec_decode_ok(b@) ==> r is None,
        r is Some ==> valid_embedding(r->Some_0@),
{
    if b.len() != 4 * EMBED_DIM {
        return None;
    }
    let mut out: Vec<i32> = Vec::new();
    let mut j: usize = 0;
    while j < EMBED_DIM
        invariant
            j <= EMBED_DIM,
            b@.len() == 4 * EMBED_DIM,
            out@.len() == j,
            forall|t: int| 0 <= t < j ==> #[trigger] out@[t] == spec_comp_of(b@, t),
            forall|t: int|
                0 <= t < j ==> -EMBED_SCALE <= #[trigger] spec_comp_of(b@, t) <= EMBED_SCALE,
        decreases EMBED_DIM - j,
    {
        let b0 = b[4 * j] as i64;
        let b1 = b[4 * j + 1] as i64;
        let b2 = b[4 * j + 2] as i64;
        let b3 = b[4 * j + 3] as i64;
        let u: i64 = b0 + 256 * b1 + 65536 * b2 + 16777216 * b3;
        let c: i64 = if u >= 0x8000_0000 {
            u - 0x1_0000_0000
        } else {
            u
        };
        assert(c == spec_comp_of(b@, j as int));
        if c < -EMBED_SCALE || c > EMBED_SCALE {
            return None;
        }
        out.push(c as i32);
        j = j + 1;
    }
    proof {
        assert(out@ =~= spec_decode(b@));
    }
    Some(out)
}

/// Round trip: serializing a well-formed embedding and decoding the blob
/// gives the embedding back, so the store loses nothing.
pub proof fn lemma_embedding_roundtrip(e: Seq<i32>)
    requires
        valid_embedding(e),
    ensures
        spec_decode_ok(spec_embedding_bytes(e)),
        spec_decode(spec_embedding_bytes(e)) =~= e,
{
    let b = spec_embedding_bytes(e);
    lemma_bytes_at_len(e, e.len() as int);
    assert forall|j: int| 0 <= j < e.len() implies #[trigger] spec_comp_of(b, j) == e[j] by {
        lemma_bytes_at_from(e, j, e.len() as int);
        let u = comp_unsigned(e[j]);
        assert(b[4 * j] == (u % 256) as u8);
        assert(b[4 * j + 1] == ((u / 256) % 256) as u8);
        assert(b[4 * j + 2] == ((u / 65536) % 256) as u8);
        assert(b[4 * j + 3] == ((u / 16777216) % 256) as u8);
        lemma_base256_recompose(u);
        assert(e[j] >= 0 ==> u == e[j]);
        assert(e[j] < 0 ==> u == e[j] + 0x1_0000_0000);
    }
}

proof fn lemma_base256_recompose(u: int)
    requires
        0 <= u < 0x1_0000_0000,
    ensures
        (u % 256) + 256 * ((u / 256) % 256) + 65536 * ((u / 65536) % 256) + 16777216 * (u
            / 16777216) == u,
{
    assert((u % 256) + 256 * ((u / 256) % 256) + 65536 * ((u / 65536) % 256) + 16777216 * (u
        / 16777216) == u) by (nonlinear_arith)
        requires
            0 <= u < 0x1_0000_0000,
    ;
}

proof fn lemma_bytes_at_from(e: Seq<i32>, j: int, n: int)
    requires
        0 <= j < n <= e.len(),
    ensures
        bytes_at(e, n)[4 * j] == comp_bytes(e[j])[0],
        bytes_at(e, n)[4 * j + 1] == comp_bytes(e[j])[1],
        bytes_at(e, n)[4 * j + 2] == comp_bytes(e[j])[2],
        bytes_at(e, n)[4 * j + 3] == comp_bytes(e[j])[3],
    decreases n,
{
    lemma_bytes_at_len(e, n - 1);
    if j == n - 1 {
    } else {
        lemma_bytes_at_from(e, j, n - 1);
    }
}

/// Dot-product similarity of the first `n` components.
pub open spec fn spec_dot_at(a: Seq<i32>, b: Seq<i32>, n: int) -> int
    decreases n,
{
    if n <= 0 {
        0
    } else {
        spec_dot_at(a, b, n - 1) + a[n - 1] * b[n - 1]
    }
}

/// Dot-product similarity of two embeddings.
pub open spec fn spec_dot(a: Seq<i32>, b: Seq<i32>) -> int {
    spec_dot_at(a, b, EMBED_DIM as int)
}

proof fn lemma_dot_at_bound(a: Seq<i32>, b: Seq<i32>, n: int)
    requires
        valid_embedding(a),
        valid_embedding(b),
        0 <= n <= EMBED_DIM,
    ensures
        -n * (EMBED_SCALE * EMBED_SCALE) <= spec_dot_at(a, b, n) <= n * (EMBED_SCALE
            * EMBED_SCALE),
    decreases n,
{
    if n > 0 {
        lemma_dot_at_bound(a, b, n - 1);
        let x = a[n - 1] as int;
        let y = b[n - 1] as int;
        let s = EMBED_SCALE as int;
        assert(-(s * s) <= x * y <= s * s) by (nonlinear_arith)
            requires
                -s <= x <= s,
                -s <= y <= s,
                s == 65536,
        ;
        assert((n - 1) * (s * s) + s * s == n * (s * s)) by (nonlinear_arith);
    } else {
        assert(n * (EMBED_SCALE * EMBED_SCALE) == 0) by (nonlinear_arith)
            requires
                n == 0,
        ;
    }
}

/// The similarity score of two embeddings.
pub fn dot(a: &Vec<i32>, b: &Vec<i32>) -> (r: i64)
    requires
        valid_embedding(a@),
        valid_embedding(b@),
    ensures
        r == spec_dot(a@, b@),
{
    let mut acc: i64 = 0;
    let mut i: usize = 0;
    while i < EMBED_DIM
        invariant
            i <= EMBED_DIM,
            valid_embedding(a@),
            valid_embedding(b@),
            acc == spec_dot_at(a@, b@, i as int),
        decreases EMBED_DIM - i,
    {
        proof {
            lemma_dot_at_bound(a@, b@, i as int);
            let x = a@[i as int] as int;
            let y = b@[i as int] as int;
            let s = EMBED_SCALE as int;
            assert(-(s * s) <= x * y <= s * s) by (nonlinear_arith)
                requires
                    -s <= x <= s,
                    -s <= y <= s,
                    s == 65536,
            ;
            assert(i as int * (s * s) <= 384 * (s * s)) by (nonlinear_arith)
                requires
                    0 <= i as int <= 384,
            ;
            assert(-(i as int) * (s * s) >= -384 * (s * s)) by (nonlinear_arith)
                requires
                    0 <= i as int <= 384,
            ;
        }
        acc = acc + (a[i] as i64) * (b[i] as i64);
        i = i + 1;
    }
    acc
}

proof fn lemma_dot_self_nonneg(a: Seq<i32>, n: int)
    ensures
        spec_dot_at(a, a, n) >= 0,
    decreases n,
{
    if n > 0 {
        lemma_dot_self_nonneg(a, n - 1);
        let x = a[n - 1] as int;
        assert(x * x >= 0) by (nonlinear_arith);
    }
}

proof fn lemma_cauchy_schwarz_at(a: Seq<i32>, b: Seq<i32>, n: int)
    ensures
        spec_dot_at(a, b, n) * spec_dot_at(a, b, n) <= spec_dot_at(a, a, n) * spec_dot_at(
            b,
            b,
            n,
        ),
    decreases n,
{
    if n <= 0 {
    } else {
        lemma_cauchy_schwarz_at(a, b, n - 1);
        let s = spec_dot_at(a, b, n - 1);
        let p = spec_dot_at(a, a, n - 1);
        let q = spec_dot_at(b, b, n - 1);
        let x = a[n - 1] as int;
        let y = b[n - 1] as int;
        lemma_dot_self_nonneg(a, n - 1);
        lemma_dot_self_nonneg(b, n - 1);
        assert((p * (y * y) + q * (x * x)) * (p * (y * y) + q * (x * x)) >= 4 * (p * q) * ((x * x)
            * (y * y))) by (nonlinear_arith);
        assert(4 * (p * q) * ((x * x) * (y * y)) >= 4 * (s * s) * ((x * x) * (y * y)))
            by (nonlinear_arith)
            requires
                p * q >= s * s,
        ;
        assert(p * (y * y) + q * (x * x) >= 2 * s * (x * y)) by (nonlinear_arith)
            requires
                (p * (y * y) + q * (x * x)) * (p * (y * y) + q * (x * x)) >= 4 * (s * s) * ((x * x)
                    * (y * y)),
                p >= 0,
                q >= 0,
        ;
        assert((s + x * y) * (s + x * y) == s * s + 2 * s * (x * y) + (x * x) * (y * y))
            by (nonlinear_arith);
        assert((p + x * x) * (q + y * y) == p * q + p * (y * y) + q * (x * x) + (x * x) * (y * y))
            by (nonlinear_arith);
        assert((s + x * y) * (s + x * y) <= (p + x * x) * (q + y * y));
    }
}

/// The Cauchy-Schwarz inequality for embedding dot products.
pub proof fn lemma_cauchy_schwarz(a: Seq<i32>, b: Seq<i32>)
    ensures
        spec_dot(a, b) * spec_dot(a, b) <= spec_dot(a, a) * spec_dot(b, b),
{
    lemma_cauchy_schwarz_at(a, b, EMBED_DIM as int);
}

/// Self-similarity is nearly maximal: against a near-unit query, no
/// near-unit vector scores more than the query scores against itself,
/// beyond the slack the norm band allows.
pub proof fn lemma_self_similarity_nearly_maximal(q: Seq<i32>, w: Seq<i32>)
    requires
        near_unit(q),
        near_unit(w),
    ensures
        spec_dot(q, w) <= spec_dot(q, q) + (EMBED_NORM_MAX - EMBED_NORM_MIN),
{
    lemma_cauchy_schwarz(q, w);
    let s = spec_dot(q, w);
    let aa = spec_dot(q, q);
    let bb = spec_dot(w, w);
    let lo = EMBED_NORM_MIN as int;
    let hi = EMBED_NORM_MAX as int;
    assert(s <= aa + (hi - lo)) by (nonlinear_arith)
        requires
            s * s <= aa * bb,
            lo <= aa <= hi,
            lo <= bb <= hi,
            0 < lo,
    ;
}

/// One successful embedding batch: the texts handed in and the vectors
/// that came back, in order.
pub struct EmbedCall {
    pub texts: Seq<Seq<char>>,
    pub outputs: Seq<Seq<i32>>,
}

/// The character sequences of a batch of texts.
pub open spec fn text_views(ts: Seq<String>) -> Seq<Seq<char>> {
    ts.map_values(|t: String| t@)
}

/// The component sequences of a batch of vectors.
pub open spec fn embedding_views(es: Seq<Vec<i32>>) -> Seq<Seq<i32>> {
    es.map_values(|e: Vec<i32>| e@)
}

/// The stored blobs a batch of vectors serializes to.
pub open spec fn blob_encodings(es: Seq<Seq<i32>>) -> Seq<Seq<u8>> {
    es.map_values(|e: Seq<i32>| spec_embedding_bytes(e))
}

/// A source of embeddings: one fixed-dimension vector per input text, in
/// input order, each of near-unit length. `calls` counts how often the
/// model was invoked; `history` records each successful batch with its
/// texts and outputs, so that callers can state exactly what was
/// embedded and what became of the result.
pub trait EmbeddingProvider: Sized {
    spec fn calls(&self) -> nat;

    spec fn history(&self) -> Seq<EmbedCall>;

    fn embed(&mut self, texts: &Vec<String>) -> (r: Result<Vec<Vec<i32>>, MemoryError>)
        ensures
            final(self).calls() == old(self).calls() + 1,
            r is Ok ==> r->Ok_0@.len() == texts@.len(),
            r is Ok ==> forall|j: int|
                0 <= j < r->Ok_0@.len() ==> valid_embedding(#[trigger] r->Ok_0@[j]@) && near_unit(
                    r->Ok_0@[j]@,
                ),
            r is Ok ==> final(self).history() == old(self).history().push(
                EmbedCall { texts: text_views(texts@), outputs: embedding_views(r->Ok_0@) },
            ),
            r is Err ==> final(self).history() == old(self).history(),
    ;
}

/// Component `j` of the deterministic embedding of a text with digest
/// `h`: a pseudo-random sign on a fixed magnitude of 3344, which puts
/// the squared length of the full sign vector inside the near-unit
/// band.
pub open spec fn stub_comp(h: u64, j: int) -> i32 {
    if vstd::wrapping::u64_specs::wrapping_mul(h ^ (j as u64), 0x9e3779b97f4a7c15)
        >= 0x8000_0000_0000_0000 {
        3344i32
    } else {
        -3344i32
    }
}

/// The deterministic embedding of a text.
pub open spec fn stub_embedding(s: Seq<char>) -> Seq<i32> {
    Seq::new(EMBED_DIM as nat, |j: int| stub_comp(crate::hashing::fnv1a_at(s, s.len() as int), j))
}

/// A deterministic, self-contained embedding provider: each component is
/// a pseudo-random function of the text's digest. It carries no semantic
/// model; it exists so that indexing and search can run and be tested
/// without an external model, as an injectable stand-in.
pub struct HashEmbedder {
    /// Number of `embed` invocations so far.
    pub count: Ghost<nat>,
    /// The successful batches so far, with their texts and outputs.
    pub log: Ghost<Seq<EmbedCall>>,
    /// Observable batch counter, saturating at the type's maximum.
    pub batches: u64,
}

impl HashEmbedder {
    pub fn new() -> (r: HashEmbedder)
        ensures
            r.calls() == 0,
            r.history().len() == 0,
    {
        HashEmbedder { count: Ghost(0), log: Ghost(Seq::empty()), batches: 0 }
    }

    fn embed_one(&self, text: &str) -> (r: Vec<i32>)
        ensures
            r@ == stub_embedding(text@),
            valid_embedding(r@),
            near_unit(r@),
    {
        let h = crate::hashing::md5_hash(text);
        let h64 = #[verifier::truncate] (h as u64);
        assert(h64 == crate::hashing::fnv1a_at(text@, text@.len() as int));
        let mut out: Vec<i32> = Vec::new();
        let mut j: usize = 0;
        while j < EMBED_DIM
            invariant
                j <= EMBED_DIM,
                h64 == crate::hashing::fnv1a_at(text@, text@.len() as int),
                out@.len() == j,
                forall|t: int| 0 <= t < j ==> #[trigger] out@[t] == stub_comp(h64, t),
            decreases EMBED_DIM - j,
        {
            let m = (h64 ^ (j as u64)).wrapping_mul(0x9e3779b97f4a7c15);
            let c: i32 = if m >= 0x8000_0000_0000_0000 {
                3344
            } else {
                -3344
            };
            out.push(c);
            j = j + 1;
        }
        proof {
            assert(out@ =~= stub_embedding(text@));
            assert(forall|t: int|
                0 <= t < out@.len() ==> #[trigger] out@[t] == 3344i32 || out@[t] == -3344i32);
            lemma_sign_vector_norm(out@, EMBED_DIM as int);
        }
        out
    }
}

/// A full sign vector of magnitude 3344 has squared length
/// `n * 3344 * 3344` over its first `n` components.
proof fn lemma_sign_vector_norm(e: Seq<i32>, n: int)
    requires
        0 <= n <= e.len(),
        forall|j: int| 0 <= j < e.len() ==> #[trigger] e[j] == 3344i32 || e[j] == -3344i32,
    ensures
        spec_dot_at(e, e, n) == n * 11182336,
    decreases n,
{
    if n > 0 {
        lemma_sign_vector_norm(e, n - 1);
        assert((n - 1) * 11182336 + 11182336 == n * 11182336) by (nonlinear_arith);
    }
}

impl EmbeddingProvider for HashEmbedder {
    open spec fn calls(&self) -> nat {
        self.count@
    }

    open spec fn history(&self) -> Seq<EmbedCall> {
        self.log@
    }

    fn embed(&mut self, texts: &Vec<String>) -> (r: Result<Vec<Vec<i32>>, MemoryError>)
        ensures
            final(self).calls() == old(self).calls() + 1,
            r is Ok ==> r->Ok_0@.len() == texts@.len(),
            r is Ok ==> forall|j: int|
                0 <= j < r->Ok_0@.len() ==> valid_embedding(#[trigger] r->Ok_0@[j]@) && near_unit(
                    r->Ok_0@[j]@,
                ),
            r is Ok ==> final(self).history() == old(self).history().push(
                EmbedCall { texts: text_views(texts@), outputs: embedding_views(r->Ok_0@) },
            ),
            r is Err ==> final(self).history() == old(self).history(),
    {
        proof {
            self.count@ = self.count@ + 1;
        }
        self.batches = self.batches.saturating_add(1);
        let mut out: Vec<Vec<i32>> = Vec::new();
        let mut i: usize = 0;
        while i < texts.len()
            invariant
                i <= texts.len(),
                out@.len() == i,
                forall|j: int|
                    0 <= j < i ==> valid_embedding(#[trigger] out@[j]@) && near_unit(out@[j]@),
            decreases texts.len() - i,
        {
            out.push(self.embed_one(texts[i].as_str()));
            i = i + 1;
        }
        proof {
            self.log@ = self.log@.push(
                EmbedCall { texts: text_views(texts@), outputs: embedding_views(out@) },
            );
        }
        Ok(out)
    }
}

} // verus!
