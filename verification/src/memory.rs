//! The memory index: incremental indexing and tenant-scoped search over
//! per-user markdown memory files.
//!
//! All data is scoped by the tenant pair `(channel, user_id)`. Each
//! indexed file carries a content digest; indexing skips files whose
//! digest is unchanged, and otherwise replaces the file's chunks and
//! embedding vectors as a unit.

use vstd::prelude::*;

use vstd::string::StringExecFns;

use crate::chunk::ChunkView;
use crate::chunk::TextChunk;
use crate::chunk::chunk_text;
use crate::chunk::chunk_views;
use crate::chunk::spec_chunk_text;
use crate::embedding::EMBED_NORM_MAX;
use crate::embedding::EMBED_NORM_MIN;
use crate::embedding::EmbedCall;
use crate::embedding::EmbeddingProvider;
use crate::embedding::blob_encodings;
use crate::embedding::embedding_views;
use crate::embedding::spec_embedding_bytes;
use crate::embedding::text_views;
use crate::embedding::bytes_to_embedding;
use crate::embedding::dot;
use crate::embedding::lemma_self_similarity_nearly_maximal;
use crate::embedding::near_unit;
use crate::embedding::embedding_to_bytes;
use crate::embedding::spec_decode;
use crate::embedding::spec_decode_ok;
use crate::embedding::spec_dot;
use crate::embedding::valid_embedding;
use crate::errors::MemoryError;
use crate::hashing::hash_to_hex;
use crate::hashing::md5_hash;
use crate::hashing::spec_hex;
use crate::hashing::spec_md5_hash;
use crate::store::chunk_rows;
use crate::store::create_schema;
use crate::store::delete_file_chunks;
use crate::store::delete_file_row;
use crate::store::delete_file_vectors;
use crate::store::file_rows;
use crate::store::insert_chunk_row;
use crate::store::insert_file_row;
use crate::store::insert_vector_row;
use crate::store::now_unix_secs;
use crate::store::open_connection;
use crate::store::open_memory_connection;
use crate::store::pair_in_store;
use crate::store::query_file_hash;
use crate::store::query_tenant_paths;
use crate::store::query_tenant_rows;
use crate::store::rows_or_empty;
use crate::store::stores_nothing;
use crate::store::vector_rows;

verus! {

/// One memory file handed to the indexer: its path relative to the
/// user's memory directory, and its text content.
pub struct MemoryDocument {
    pub path: String,
    pub content: String,
}

/// A ranked search hit.
pub struct MemorySearchResult {
    /// Path of the file the chunk came from.
    pub path: String,
    /// The chunk text.
    pub chunk: String,
    /// Fixed-point similarity: `EMBED_SCALE * EMBED_SCALE` stands for a
    /// cosine similarity of 1.
    pub score: i64,
}

/// The digest text recorded for a file content.
pub open spec fn hash_text(content: Seq<char>) -> Seq<char> {
    spec_hex(spec_md5_hash(content))
}

/// The chunk rows stored for a document content.
pub open spec fn chunk_tuples(cs: Seq<ChunkView>) -> Seq<(Seq<char>, int, int)> {
    cs.map_values(|c: ChunkView| (c.text, c.start_line, c.end_line))
}

/// The chunk rows a document's content produces.
pub open spec fn stored_chunks_of(content: Seq<char>) -> Seq<(Seq<char>, int, int)> {
    chunk_tuples(spec_chunk_text(content))
}

/// The chunk texts of a chunking, in order: what the indexer hands the
/// embedding provider as one batch.
pub open spec fn chunk_texts(cs: Seq<ChunkView>) -> Seq<Seq<char>> {
    cs.map_values(|c: ChunkView| c.text)
}

/// Somewhere in the history from position `lo` on there is a batch
/// whose texts are exactly the document's chunk texts in order, and the
/// document's stored blobs are the serializations of that batch's
/// outputs: what the store holds for the document came out of the
/// provider for exactly its chunk texts.
pub open spec fn doc_embedded(
    h: Seq<EmbedCall>,
    lo: int,
    db: rusqlite::Connection,
    ch: Seq<char>,
    u: Seq<char>,
    d: MemoryDocument,
) -> bool {
    exists|n: int|
        #![trigger h[n]]
        lo <= n < h.len() && h[n].texts == chunk_texts(spec_chunk_text(d.content@))
            && rows_or_empty(vector_rows(db), (ch, u, d.path@)) == blob_encodings(h[n].outputs)
}

pub open spec fn blob_views(vs: Seq<Vec<u8>>) -> Seq<Seq<u8>> {
    vs.map_values(|v: Vec<u8>| v@)
}

/// Results ordered by score, best first.
pub open spec fn sorted_desc(s: Seq<MemorySearchResult>) -> bool {
    forall|i: int, j: int| 0 <= i < j < s.len() ==> s[i].score >= s[j].score
}

/// This hit is one of the tenant's stored chunks; nothing says which
/// tenant's data it could otherwise be, so search never crosses tenants.
pub open spec fn from_tenant(
    db: rusqlite::Connection,
    ch: Seq<char>,
    u: Seq<char>,
    x: MemorySearchResult,
) -> bool {
    exists|p: Seq<char>, j: int|
        #[trigger] pair_in_store(db, ch, u, p, j) && x.path@ == p && x.chunk@ == chunk_rows(
            db,
        )[(ch, u, p)][j].0
}

/// This hit is one of the tenant's stored chunk/vector pairs, scored by
/// the dot product of the query embedding with its vector.
pub open spec fn hit_in_store(
    db: rusqlite::Connection,
    ch: Seq<char>,
    u: Seq<char>,
    qe: Seq<i32>,
    x: MemorySearchResult,
) -> bool {
    exists|p: Seq<char>, j: int|
        #[trigger] pair_in_store(db, ch, u, p, j) && x.path@ == p && x.chunk@ == chunk_rows(
            db,
        )[(ch, u, p)][j].0 && x.score == spec_dot(
            qe,
            spec_decode(vector_rows(db)[(ch, u, p)][j]),
        )
}

/// Every ranked entry is one of the tenant's stored chunk/vector pairs,
/// scored by the dot product of the query embedding with its vector.
pub open spec fn ranking_sound(
    db: rusqlite::Connection,
    ch: Seq<char>,
    u: Seq<char>,
    qe: Seq<i32>,
    full: Seq<MemorySearchResult>,
) -> bool {
    forall|i: int| 0 <= i < full.len() ==> #[trigger] hit_in_store(db, ch, u, qe, full[i])
}

/// Chunk `j` of the tenant's file `p` appears in the ranking with its
/// dot-product score.
pub open spec fn pair_ranked(
    db: rusqlite::Connection,
    ch: Seq<char>,
    u: Seq<char>,
    qe: Seq<i32>,
    full: Seq<MemorySearchResult>,
    p: Seq<char>,
    j: int,
) -> bool {
    exists|i: int|
        #![trigger full[i]]
        0 <= i < full.len() && full[i].path@ == p && full[i].chunk@ == chunk_rows(
            db,
        )[(ch, u, p)][j].0 && full[i].score == spec_dot(
            qe,
            spec_decode(vector_rows(db)[(ch, u, p)][j]),
        )
}

/// Every chunk/vector pair of the tenant appears in the ranking, with
/// its dot-product score.
pub open spec fn ranking_complete(
    db: rusqlite::Connection,
    ch: Seq<char>,
    u: Seq<char>,
    qe: Seq<i32>,
    full: Seq<MemorySearchResult>,
) -> bool {
    forall|p: Seq<char>, j: int|
        #[trigger] pair_in_store(db, ch, u, p, j) ==> pair_ranked(db, ch, u, qe, full, p, j)
}

/// `full` ranks all of the tenant's stored chunk/vector pairs against
/// the query embedding `qe`: it is sorted by score, every entry is one
/// of the tenant's pairs scored by dot product, and every pair appears.
pub open spec fn ranking_of(
    db: rusqlite::Connection,
    ch: Seq<char>,
    u: Seq<char>,
    qe: Seq<i32>,
    full: Seq<MemorySearchResult>,
) -> bool {
    &&& valid_embedding(qe)
    &&& sorted_desc(full)
    &&& ranking_sound(db, ch, u, qe, full)
    &&& ranking_complete(db, ch, u, qe, full)
}

/// Ranking keys ordered by score, best first.
pub open spec fn sorted_keys_desc(s: Seq<(usize, i64)>) -> bool {
    forall|i: int, j: int| 0 <= i < j < s.len() ==> s[i].1 >= s[j].1
}

/// Sorts `(row index, score)` keys by score, best first; the output is
/// a permutation of the input.
fn sort_keys_desc(v: Vec<(usize, i64)>) -> (r: Vec<(usize, i64)>)
    ensures
        sorted_keys_desc(r@),
        r@.to_multiset() == v@.to_multiset(),
{
    broadcast use vstd::seq_lib::group_to_multiset_ensures;

    let ghost orig = v@;
    let mut rest = v;
    let mut out: Vec<(usize, i64)> = Vec::new();
    while rest.len() > 0
        invariant
            out@.to_multiset().add(rest@.to_multiset()) =~= orig.to_multiset(),
            sorted_keys_desc(out@),
            forall|i: int, j: int|
                #![trigger out@[i], rest@[j]]
                0 <= i < out@.len() && 0 <= j < rest@.len() ==> out@[i].1 >= rest@[j].1,
        decreases rest.len(),
    {
        broadcast use vstd::seq_lib::group_to_multiset_ensures;

        let mut m: usize = 0;
        let mut t: usize = 1;
        while t < rest.len()
            invariant
                rest@.len() > 0,
                m < t <= rest@.len(),
                forall|j: int| 0 <= j < t ==> rest@[m as int].1 >= #[trigger] (rest@[j]).1,
            decreases rest.len() - t,
        {
            if rest[t].1 > rest[m].1 {
                m = t;
            }
            t = t + 1;
        }
        let ghost pre_out = out@;
        let ghost pre_rest = rest@;
        let x = rest.remove(m);
        out.push(x);
        proof {
            assert(out@.to_multiset() =~= pre_out.to_multiset().insert(x));
            assert(rest@.to_multiset() =~= pre_rest.to_multiset().remove(x));
            assert(pre_rest.to_multiset().count(x) > 0);
            assert(out@.to_multiset().add(rest@.to_multiset()) =~= pre_out.to_multiset().add(
                pre_rest.to_multiset(),
            ));
            assert forall|i: int, j: int|
                #![trigger out@[i], rest@[j]]
                0 <= i < out@.len() && 0 <= j < rest@.len() implies out@[i].1 >= rest@[j].1 by {
                assert(rest@[j] == if j < m {
                    pre_rest[j]
                } else {
                    pre_rest[j + 1]
                });
                if i < pre_out.len() {
                    assert(out@[i] == pre_out[i]);
                } else {
                    assert(out@[i] == x);
                }
            }
        }
    }
    out
}

/// Scores each stored row against the query embedding; a blob that does
/// not decode to a well-formed embedding makes the store unusable.
fn score_rows(qe: &Vec<i32>, rows: &Vec<crate::store::StoredRow>) -> (r: Result<
    Vec<MemorySearchResult>,
    MemoryError,
>)
    requires
        valid_embedding(qe@),
    ensures
        (r is Err) <==> exists|t: int|
            0 <= t < rows@.len() && !spec_decode_ok(#[trigger] rows@[t]@.2),
        r is Err ==> r->Err_0 is StoreUnavailable,
        r is Ok ==> r->Ok_0@.len() == rows@.len(),
        r is Ok ==> forall|t: int|
            #![trigger r->Ok_0@[t]]
            0 <= t < r->Ok_0@.len() ==> r->Ok_0@[t].path@ == rows@[t]@.0 && r->Ok_0@[t].chunk@
                == rows@[t]@.1 && r->Ok_0@[t].score == spec_dot(qe@, spec_decode(rows@[t]@.2)),
{
    let mut scored: Vec<MemorySearchResult> = Vec::new();
    let mut i: usize = 0;
    while i < rows.len()
        invariant
            i <= rows.len(),
            valid_embedding(qe@),
            scored@.len() == i,
            forall|t: int| 0 <= t < i ==> spec_decode_ok(#[trigger] rows@[t]@.2),
            forall|t: int|
                #![trigger scored@[t]]
                0 <= t < i ==> scored@[t].path@ == rows@[t]@.0 && scored@[t].chunk@ == rows@[t]@.1
                    && scored@[t].score == spec_dot(qe@, spec_decode(rows@[t]@.2)),
        decreases rows.len() - i,
    {
        let row = &rows[i];
        let emb = match bytes_to_embedding(&row.embedding) {
            Some(e) => e,
            None => {
                proof {
                    assert(!spec_decode_ok(rows@[i as int]@.2));
                }
                return Err(
                    MemoryError::StoreUnavailable(
                        String::from_str("stored embedding has the wrong shape"),
                    ),
                );
            },
        };
        let score = dot(qe, &emb);
        scored.push(
            MemorySearchResult { path: row.path.clone(), chunk: row.content.clone(), score },
        );
        i = i + 1;
    }
    Ok(scored)
}

/// A score-sorted rearrangement of exactly the tenant's scored rows is
/// a ranking.
#[verifier::rlimit(100)]
proof fn lemma_ranking_from_keys(
    db: rusqlite::Connection,
    ch: Seq<char>,
    u: Seq<char>,
    qe: Seq<i32>,
    rows: Seq<crate::store::StoredRow>,
    scored: Seq<MemorySearchResult>,
    keys: Seq<(usize, i64)>,
    skeys: Seq<(usize, i64)>,
    full: Seq<MemorySearchResult>,
)
    requires
        valid_embedding(qe),
        crate::store::tenant_rows_ok(db, ch, u, rows),
        scored.len() == rows.len(),
        forall|t: int|
            #![trigger scored[t]]
            0 <= t < scored.len() ==> scored[t].path@ == rows[t]@.0 && scored[t].chunk@
                == rows[t]@.1 && scored[t].score == spec_dot(qe, spec_decode(rows[t]@.2)),
        keys.len() == scored.len(),
        forall|x: int|
            #![trigger keys[x]]
            0 <= x < keys.len() ==> keys[x].0 as int == x && keys[x].1 == scored[x].score,
        skeys.to_multiset() == keys.to_multiset(),
        skeys.len() == scored.len(),
        sorted_keys_desc(skeys),
        forall|ii: int|
            #![trigger skeys[ii]]
            0 <= ii < skeys.len() ==> skeys[ii].0 < scored.len() && skeys[ii].1 == scored[skeys[ii].0 as int].score,
        full.len() == skeys.len(),
        forall|ii: int|
            #![trigger full[ii]]
            0 <= ii < full.len() ==> full[ii].path@ == scored[skeys[ii].0 as int].path@
                && full[ii].chunk@ == scored[skeys[ii].0 as int].chunk@ && full[ii].score
                == skeys[ii].1,
    ensures
        ranking_of(db, ch, u, qe, full),
{
    assert(sorted_desc(full));
    assert forall|i: int| 0 <= i < full.len() implies #[trigger] hit_in_store(
        db,
        ch,
        u,
        qe,
        full[i],
    ) by {
        let t = skeys[i].0 as int;
        assert(0 <= t < rows.len());
        assert(crate::store::row_in_store(db, ch, u, rows[t]));
        let (p, j) = choose|p: Seq<char>, j: int|
            #[trigger] pair_in_store(db, ch, u, p, j) && rows[t]@ == (
                p,
                chunk_rows(db)[(ch, u, p)][j].0,
                vector_rows(db)[(ch, u, p)][j],
            );
        assert(pair_in_store(db, ch, u, p, j));
        assert(scored[t].path@ == rows[t]@.0 && scored[t].chunk@ == rows[t]@.1 && scored[t].score
            == spec_dot(qe, spec_decode(rows[t]@.2)));
        assert(full[i].path@ == p);
        assert(full[i].chunk@ == chunk_rows(db)[(ch, u, p)][j].0);
        assert(full[i].score == spec_dot(qe, spec_decode(vector_rows(db)[(ch, u, p)][j])));
    }
    assert forall|p: Seq<char>, j: int|
        #[trigger] pair_in_store(db, ch, u, p, j) implies pair_ranked(
        db,
        ch,
        u,
        qe,
        full,
        p,
        j,
    ) by {
        broadcast use vstd::seq_lib::group_to_multiset_ensures;

        assert(crate::store::pair_listed(db, ch, u, rows, p, j));
        let ii = choose|ii: int|
            #![trigger rows[ii]]
            0 <= ii < rows.len() && rows[ii]@ == (
                p,
                chunk_rows(db)[(ch, u, p)][j].0,
                vector_rows(db)[(ch, u, p)][j],
            );
        assert(keys[ii].0 as int == ii && keys[ii].1 == scored[ii].score);
        assert(keys.contains(keys[ii]));
        assert(keys.to_multiset().count(keys[ii]) > 0);
        assert(skeys.contains(keys[ii]));
        let i = choose|i: int| 0 <= i < skeys.len() && skeys[i] == keys[ii];
        assert(skeys[i].0 as int == ii);
        assert(scored[ii].path@ == rows[ii]@.0 && scored[ii].chunk@ == rows[ii]@.1
            && scored[ii].score == spec_dot(qe, spec_decode(rows[ii]@.2)));
        assert(full[i].path@ == p);
    }
}

/// A prefix of a ranking is sorted and holds only the tenant's chunks.
proof fn lemma_ranking_prefix(
    db: rusqlite::Connection,
    ch: Seq<char>,
    u: Seq<char>,
    qe: Seq<i32>,
    full: Seq<MemorySearchResult>,
    res: Seq<MemorySearchResult>,
    n: int,
)
    requires
        ranking_of(db, ch, u, qe, full),
        0 <= n <= full.len(),
        res == full.take(n),
    ensures
        sorted_desc(res),
        forall|i: int| 0 <= i < res.len() ==> #[trigger] from_tenant(db, ch, u, res[i]),
{
    assert forall|i: int| 0 <= i < res.len() implies #[trigger] from_tenant(db, ch, u, res[i]) by {
        assert(res[i] == full[i]);
        assert(hit_in_store(db, ch, u, qe, full[i]));
        let (p, j) = choose|p: Seq<char>, j: int|
            #[trigger] pair_in_store(db, ch, u, p, j) && full[i].path@ == p && full[i].chunk@
                == chunk_rows(db)[(ch, u, p)][j].0 && full[i].score == spec_dot(
                qe,
                spec_decode(vector_rows(db)[(ch, u, p)][j]),
            );
        assert(pair_in_store(db, ch, u, p, j));
    }
}

/// Ranking correctness: against a ranking's prefix of hits, any stored
/// chunk of the tenant either already appears among the hits or scores
/// no better than the last hit.
pub proof fn lemma_no_better_chunk_omitted(
    db: rusqlite::Connection,
    ch: Seq<char>,
    u: Seq<char>,
    qe: Seq<i32>,
    full: Seq<MemorySearchResult>,
    res: Seq<MemorySearchResult>,
    p: Seq<char>,
    j: int,
)
    requires
        ranking_of(db, ch, u, qe, full),
        res == full.take(res.len() as int),
        0 < res.len() <= full.len(),
        pair_in_store(db, ch, u, p, j),
    ensures
        pair_ranked(db, ch, u, qe, res, p, j) || spec_dot(
            qe,
            spec_decode(vector_rows(db)[(ch, u, p)][j]),
        ) <= res[res.len() - 1].score,
{
    assert(pair_ranked(db, ch, u, qe, full, p, j));
    let i = choose|i: int|
        #![trigger full[i]]
        0 <= i < full.len() && full[i].path@ == p && full[i].chunk@ == chunk_rows(
            db,
        )[(ch, u, p)][j].0 && full[i].score == spec_dot(
            qe,
            spec_decode(vector_rows(db)[(ch, u, p)][j]),
        );
    if i < res.len() {
        assert(res[i] == full[i]);
        assert(pair_ranked(db, ch, u, qe, res, p, j));
    } else {
        assert(full[i].score <= full[res.len() - 1].score);
        assert(res[res.len() - 1] == full[res.len() - 1]);
    }
}

/// Every stored vector of the tenant is near-unit, which indexing
/// through this library's providers guarantees.
pub open spec fn store_norms_ok(db: rusqlite::Connection, ch: Seq<char>, u: Seq<char>) -> bool {
    forall|p: Seq<char>, j: int|
        #[trigger] pair_in_store(db, ch, u, p, j) ==> near_unit(
            spec_decode(vector_rows(db)[(ch, u, p)][j]),
        )
}

/// Ranking correctness: when the query embedding equals one of the
/// tenant's stored vectors — as for a query identical to an indexed
/// chunk's text under a deterministic provider — that chunk appears in
/// the ranking scored by the query's own squared length, and no entry
/// outscores it by more than the slack of the near-unit norm band.
pub proof fn lemma_identical_query_ranks_near_top(
    db: rusqlite::Connection,
    ch: Seq<char>,
    u: Seq<char>,
    qe: Seq<i32>,
    full: Seq<MemorySearchResult>,
    p: Seq<char>,
    j: int,
)
    requires
        ranking_of(db, ch, u, qe, full),
        pair_in_store(db, ch, u, p, j),
        spec_decode(vector_rows(db)[(ch, u, p)][j]) == qe,
        near_unit(qe),
        store_norms_ok(db, ch, u),
    ensures
        pair_ranked(db, ch, u, qe, full, p, j),
        forall|i: int|
            0 <= i < full.len() ==> (#[trigger] full[i]).score <= spec_dot(qe, qe) + (
            EMBED_NORM_MAX - EMBED_NORM_MIN),
{
    assert(pair_ranked(db, ch, u, qe, full, p, j));
    assert forall|i: int|
        0 <= i < full.len() implies (#[trigger] full[i]).score <= spec_dot(qe, qe) + (
    EMBED_NORM_MAX - EMBED_NORM_MIN) by {
        assert(hit_in_store(db, ch, u, qe, full[i]));
        let (p2, j2) = choose|p2: Seq<char>, j2: int|
            #[trigger] pair_in_store(db, ch, u, p2, j2) && full[i].path@ == p2 && full[i].chunk@
                == chunk_rows(db)[(ch, u, p2)][j2].0 && full[i].score == spec_dot(
                qe,
                spec_decode(vector_rows(db)[(ch, u, p2)][j2]),
            );
        assert(near_unit(spec_decode(vector_rows(db)[(ch, u, p2)][j2])));
        lemma_self_similarity_nearly_maximal(qe, spec_decode(vector_rows(db)[(ch, u, p2)][j2]));
    }
}

/// A tenant with nothing stored gets an empty ranking, so search on an
/// empty store returns the empty sequence rather than failing.
pub proof fn lemma_empty_store_empty_ranking(
    db: rusqlite::Connection,
    ch: Seq<char>,
    u: Seq<char>,
    qe: Seq<i32>,
    full: Seq<MemorySearchResult>,
)
    requires
        stores_nothing(db),
        ranking_of(db, ch, u, qe, full),
    ensures
        full.len() == 0,
{
    if full.len() > 0 {
        assert(hit_in_store(db, ch, u, qe, full[0]));
        let (p, j) = choose|p: Seq<char>, j: int|
            #[trigger] pair_in_store(db, ch, u, p, j) && full[0].path@ == p && full[0].chunk@
                == chunk_rows(db)[(ch, u, p)][j].0 && full[0].score == spec_dot(
                qe,
                spec_decode(vector_rows(db)[(ch, u, p)][j]),
            );
        assert(chunk_rows(db).contains_key((ch, u, p)));
    }
}

/// Two maps agree at a key: present in both with equal value, or absent
/// from both.
pub open spec fn same_at<V>(
    m1: Map<(Seq<char>, Seq<char>, Seq<char>), V>,
    m2: Map<(Seq<char>, Seq<char>, Seq<char>), V>,
    k: (Seq<char>, Seq<char>, Seq<char>),
) -> bool {
    m1.contains_key(k) == m2.contains_key(k) && (m1.contains_key(k) ==> m1[k] == m2[k])
}

/// The two database states agree, at this key, in all three tables.
pub open spec fn db_same_at(
    db1: rusqlite::Connection,
    db2: rusqlite::Connection,
    k: (Seq<char>, Seq<char>, Seq<char>),
) -> bool {
    same_at(file_rows(db1), file_rows(db2), k) && same_at(chunk_rows(db1), chunk_rows(db2), k)
        && same_at(vector_rows(db1), vector_rows(db2), k)
}

/// The store already records this document with its current digest.
pub open spec fn doc_unchanged(
    db: rusqlite::Connection,
    ch: Seq<char>,
    u: Seq<char>,
    d: MemoryDocument,
) -> bool {
    let k = (ch, u, d.path@);
    file_rows(db).contains_key(k) && file_rows(db)[k] == hash_text(d.content@)
}

/// The store holds exactly this document's digest and chunks, with one
/// well-formed embedding blob per chunk.
pub open spec fn doc_indexed(
    db: rusqlite::Connection,
    ch: Seq<char>,
    u: Seq<char>,
    d: MemoryDocument,
) -> bool {
    let k = (ch, u, d.path@);
    &&& file_rows(db).contains_key(k) && file_rows(db)[k] == hash_text(d.content@)
    &&& rows_or_empty(chunk_rows(db), k) == stored_chunks_of(d.content@)
    &&& rows_or_empty(vector_rows(db), k).len() == stored_chunks_of(d.content@).len()
    &&& forall|t: int|
        0 <= t < rows_or_empty(vector_rows(db), k).len() ==> spec_decode_ok(
            #[trigger] rows_or_empty(vector_rows(db), k)[t],
        ) && near_unit(spec_decode(rows_or_empty(vector_rows(db), k)[t]))
}

/// The key belongs to one of the documents of this tenant.
pub open spec fn is_doc_key(
    ch: Seq<char>,
    u: Seq<char>,
    docs: Seq<MemoryDocument>,
    k: (Seq<char>, Seq<char>, Seq<char>),
) -> bool {
    exists|i: int| 0 <= i < docs.len() && k == (ch, u, #[trigger] docs[i].path@)
}

/// How many of the first `n` documents the store records as changed (or
/// new), i.e. how many batches the indexer must embed.
pub open spec fn changed_count(
    db: rusqlite::Connection,
    ch: Seq<char>,
    u: Seq<char>,
    docs: Seq<MemoryDocument>,
    n: int,
) -> int
    decreases n,
{
    if n <= 0 {
        0
    } else {
        changed_count(db, ch, u, docs, n - 1) + if doc_unchanged(db, ch, u, docs[n - 1]) {
            0int
        } else {
            1int
        }
    }
}

/// When every document is unchanged, no embedding batch is needed.
pub proof fn lemma_unchanged_docs_need_no_embedding(
    db: rusqlite::Connection,
    ch: Seq<char>,
    u: Seq<char>,
    docs: Seq<MemoryDocument>,
    n: int,
)
    requires
        forall|i: int| 0 <= i < docs.len() ==> doc_unchanged(db, ch, u, #[trigger] docs[i]),
        0 <= n <= docs.len(),
    ensures
        changed_count(db, ch, u, docs, n) == 0,
    decreases n,
{
    if n > 0 {
        lemma_unchanged_docs_need_no_embedding(db, ch, u, docs, n - 1);
    }
}

/// Maps that agree at a key hold the same rows there.
pub proof fn lemma_same_at_rows<T>(
    m1: Map<(Seq<char>, Seq<char>, Seq<char>), Seq<T>>,
    m2: Map<(Seq<char>, Seq<char>, Seq<char>), Seq<T>>,
    k: (Seq<char>, Seq<char>, Seq<char>),
)
    requires
        same_at(m1, m2, k),
    ensures
        rows_or_empty(m1, k) == rows_or_empty(m2, k),
{
}

/// `doc_unchanged` only looks at the document's own key, so database
/// states that agree there agree on it.
pub proof fn lemma_doc_unchanged_transport(
    db1: rusqlite::Connection,
    db2: rusqlite::Connection,
    ch: Seq<char>,
    u: Seq<char>,
    d: MemoryDocument,
)
    requires
        db_same_at(db1, db2, (ch, u, d.path@)),
    ensures
        doc_unchanged(db1, ch, u, d) == doc_unchanged(db2, ch, u, d),
{
}

/// `doc_indexed` only looks at the document's own key, so database
/// states that agree there agree on it.
pub proof fn lemma_doc_indexed_transport(
    db1: rusqlite::Connection,
    db2: rusqlite::Connection,
    ch: Seq<char>,
    u: Seq<char>,
    d: MemoryDocument,
)
    requires
        db_same_at(db1, db2, (ch, u, d.path@)),
        doc_indexed(db1, ch, u, d),
    ensures
        doc_indexed(db2, ch, u, d),
{
    lemma_same_at_rows(chunk_rows(db1), chunk_rows(db2), (ch, u, d.path@));
    lemma_same_at_rows(vector_rows(db1), vector_rows(db2), (ch, u, d.path@));
}

/// States that agree after removing one key agree at every other key.
proof fn lemma_remove_frame(
    db1: rusqlite::Connection,
    db2: rusqlite::Connection,
    k: (Seq<char>, Seq<char>, Seq<char>),
)
    requires
        file_rows(db2).remove(k) == file_rows(db1).remove(k),
        chunk_rows(db2).remove(k) == chunk_rows(db1).remove(k),
        vector_rows(db2).remove(k) == vector_rows(db1).remove(k),
    ensures
        forall|kk: (Seq<char>, Seq<char>, Seq<char>)|
            kk != k ==> #[trigger] db_same_at(db1, db2, kk),
{
    assert forall|kk: (Seq<char>, Seq<char>, Seq<char>)| kk != k implies #[trigger] db_same_at(
        db1,
        db2,
        kk,
    ) by {
        assert(file_rows(db2).remove(k).contains_key(kk) == file_rows(db2).contains_key(kk));
        assert(file_rows(db1).remove(k).contains_key(kk) == file_rows(db1).contains_key(kk));
        if file_rows(db2).contains_key(kk) {
            assert(file_rows(db2).remove(k)[kk] == file_rows(db2)[kk]);
            assert(file_rows(db1).remove(k)[kk] == file_rows(db1)[kk]);
        }
        assert(chunk_rows(db2).remove(k).contains_key(kk) == chunk_rows(db2).contains_key(kk));
        assert(chunk_rows(db1).remove(k).contains_key(kk) == chunk_rows(db1).contains_key(kk));
        if chunk_rows(db2).contains_key(kk) {
            assert(chunk_rows(db2).remove(k)[kk] == chunk_rows(db2)[kk]);
            assert(chunk_rows(db1).remove(k)[kk] == chunk_rows(db1)[kk]);
        }
        assert(vector_rows(db2).remove(k).contains_key(kk) == vector_rows(db2).contains_key(kk));
        assert(vector_rows(db1).remove(k).contains_key(kk) == vector_rows(db1).contains_key(kk));
        if vector_rows(db2).contains_key(kk) {
            assert(vector_rows(db2).remove(k)[kk] == vector_rows(db2)[kk]);
            assert(vector_rows(db1).remove(k)[kk] == vector_rows(db1)[kk]);
        }
    }
}

/// A later history extending an earlier one, over a state that agrees
/// at the document's key, still embeds the document.
proof fn lemma_doc_embedded_extend(
    h1: Seq<EmbedCall>,
    h2: Seq<EmbedCall>,
    lo: int,
    db1: rusqlite::Connection,
    db2: rusqlite::Connection,
    ch: Seq<char>,
    u: Seq<char>,
    d: MemoryDocument,
)
    requires
        0 <= lo,
        doc_embedded(h1, lo, db1, ch, u, d),
        h1.len() <= h2.len(),
        forall|n: int| 0 <= n < h1.len() ==> h2[n] == #[trigger] h1[n],
        same_at(vector_rows(db1), vector_rows(db2), (ch, u, d.path@)),
    ensures
        doc_embedded(h2, lo, db2, ch, u, d),
{
    let n = choose|n: int|
        #![trigger h1[n]]
        lo <= n < h1.len() && h1[n].texts == chunk_texts(spec_chunk_text(d.content@))
            && rows_or_empty(vector_rows(db1), (ch, u, d.path@)) == blob_encodings(h1[n].outputs);
    assert(h2[n] == h1[n]);
    lemma_same_at_rows(vector_rows(db1), vector_rows(db2), (ch, u, d.path@));
}

/// Composes the per-document frames of an interrupted pass: every
/// document whose recorded digest matched keeps its rows untouched.
proof fn lemma_err_unchanged_frame(
    db0: rusqlite::Connection,
    db1: rusqlite::Connection,
    db2: rusqlite::Connection,
    ch: Seq<char>,
    u: Seq<char>,
    docs: Seq<MemoryDocument>,
    idx: int,
)
    requires
        0 <= idx < docs.len(),
        forall|i: int, j: int|
            #![trigger docs[i].path@, docs[j].path@]
            0 <= i < j < docs.len() ==> docs[i].path@ != docs[j].path@,
        forall|i: int|
            0 <= i < idx && doc_unchanged(db0, ch, u, #[trigger] docs[i]) ==> db_same_at(
                db0,
                db1,
                (ch, u, docs[i].path@),
            ),
        forall|i: int|
            idx <= i < docs.len() ==> db_same_at(db0, db1, (ch, u, #[trigger] docs[i].path@)),
        forall|kk: (Seq<char>, Seq<char>, Seq<char>)|
            kk != (ch, u, docs[idx].path@) ==> #[trigger] db_same_at(db1, db2, kk),
        doc_unchanged(db0, ch, u, docs[idx]) ==> db_same_at(db1, db2, (ch, u, docs[idx].path@)),
    ensures
        forall|i: int|
            0 <= i < docs.len() && doc_unchanged(db0, ch, u, #[trigger] docs[i]) ==> db_same_at(
                db0,
                db2,
                (ch, u, docs[i].path@),
            ),
{
    assert forall|i: int|
        0 <= i < docs.len() && doc_unchanged(db0, ch, u, #[trigger] docs[i]) implies db_same_at(
        db0,
        db2,
        (ch, u, docs[i].path@),
    ) by {
        if i != idx {
            assert(docs[i].path@ != docs[idx].path@);
            assert(db_same_at(db0, db1, (ch, u, docs[i].path@)));
            assert(db_same_at(db1, db2, (ch, u, docs[i].path@)));
        } else {
            assert(db_same_at(db0, db1, (ch, u, docs[idx].path@)));
            assert(db_same_at(db1, db2, (ch, u, docs[idx].path@)));
        }
    }
}

/// Composes the frame up to the current document with the frame of one
/// interrupted step: keys outside the documents stay untouched.
proof fn lemma_err_frame(
    db0: rusqlite::Connection,
    db1: rusqlite::Connection,
    db2: rusqlite::Connection,
    ch: Seq<char>,
    u: Seq<char>,
    docs: Seq<MemoryDocument>,
    idx: int,
)
    requires
        0 <= idx < docs.len(),
        forall|kk: (Seq<char>, Seq<char>, Seq<char>)|
            !is_doc_key(ch, u, docs.take(idx), kk) ==> #[trigger] db_same_at(db0, db1, kk),
        forall|kk: (Seq<char>, Seq<char>, Seq<char>)|
            kk != (ch, u, docs[idx].path@) ==> #[trigger] db_same_at(db1, db2, kk),
    ensures
        forall|kk: (Seq<char>, Seq<char>, Seq<char>)|
            !is_doc_key(ch, u, docs, kk) ==> #[trigger] db_same_at(db0, db2, kk),
{
    let k = (ch, u, docs[idx].path@);
    assert forall|kk: (Seq<char>, Seq<char>, Seq<char>)|
        !is_doc_key(ch, u, docs, kk) implies #[trigger] db_same_at(db0, db2, kk) by {
        assert(!is_doc_key(ch, u, docs.take(idx), kk)) by {
            if is_doc_key(ch, u, docs.take(idx), kk) {
                let i = choose|i: int|
                    0 <= i < docs.take(idx).len() && kk == (ch, u, docs.take(idx)[i].path@);
                assert(docs.take(idx)[i] == docs[i]);
                assert(kk == (ch, u, docs[i].path@));
            }
        }
        assert(db_same_at(db0, db1, kk));
        assert(kk != k) by {
            assert(k == (ch, u, docs[idx].path@));
        }
        assert(db_same_at(db1, db2, kk));
    }
}

/// A replacement of one key's rows leaves every other key's rows alone.
proof fn lemma_replace_gives_frame(
    db1: rusqlite::Connection,
    db2: rusqlite::Connection,
    k: (Seq<char>, Seq<char>, Seq<char>),
    h: Seq<char>,
)
    requires
        file_rows(db2) == file_rows(db1).insert(k, h),
        chunk_rows(db2).remove(k) == chunk_rows(db1).remove(k),
        vector_rows(db2).remove(k) == vector_rows(db1).remove(k),
    ensures
        forall|kk: (Seq<char>, Seq<char>, Seq<char>)|
            kk != k ==> #[trigger] db_same_at(db1, db2, kk),
{
    assert forall|kk: (Seq<char>, Seq<char>, Seq<char>)| kk != k implies #[trigger] db_same_at(
        db1,
        db2,
        kk,
    ) by {
        assert(chunk_rows(db2).remove(k).contains_key(kk) == chunk_rows(db2).contains_key(kk));
        assert(chunk_rows(db1).remove(k).contains_key(kk) == chunk_rows(db1).contains_key(kk));
        if chunk_rows(db2).contains_key(kk) {
            assert(chunk_rows(db2).remove(k)[kk] == chunk_rows(db2)[kk]);
            assert(chunk_rows(db1).remove(k)[kk] == chunk_rows(db1)[kk]);
        }
        assert(vector_rows(db2).remove(k).contains_key(kk) == vector_rows(db2).contains_key(kk));
        assert(vector_rows(db1).remove(k).contains_key(kk) == vector_rows(db1).contains_key(kk));
        if vector_rows(db2).contains_key(kk) {
            assert(vector_rows(db2).remove(k)[kk] == vector_rows(db2)[kk]);
            assert(vector_rows(db1).remove(k)[kk] == vector_rows(db1)[kk]);
        }
    }
}

/// After a replacement with the document's own chunks and well-formed
/// blobs, the document is indexed.
proof fn lemma_replaced_doc_indexed(
    db2: rusqlite::Connection,
    ch: Seq<char>,
    u: Seq<char>,
    d: MemoryDocument,
    chunks: Seq<TextChunk>,
    vectors: Seq<Vec<u8>>,
)
    requires
        chunk_views(chunks) == spec_chunk_text(d.content@),
        vectors.len() == chunks.len(),
        forall|j: int|
            0 <= j < vectors.len() ==> spec_decode_ok(#[trigger] vectors[j]@) && near_unit(
                spec_decode(vectors[j]@),
            ),
        file_rows(db2).contains_key((ch, u, d.path@)),
        file_rows(db2)[(ch, u, d.path@)] == hash_text(d.content@),
        rows_or_empty(chunk_rows(db2), (ch, u, d.path@)) == chunk_tuples(chunk_views(chunks)),
        rows_or_empty(vector_rows(db2), (ch, u, d.path@)) == blob_views(vectors),
    ensures
        doc_indexed(db2, ch, u, d),
{
    let k = (ch, u, d.path@);
    assert(chunk_tuples(chunk_views(chunks)).len() == chunks.len());
    assert(blob_views(vectors).len() == vectors.len());
    assert forall|tt: int|
        0 <= tt < rows_or_empty(vector_rows(db2), k).len() implies spec_decode_ok(
        #[trigger] rows_or_empty(vector_rows(db2), k)[tt],
    ) && near_unit(spec_decode(rows_or_empty(vector_rows(db2), k)[tt])) by {
        assert(rows_or_empty(vector_rows(db2), k)[tt] == vectors[tt]@);
    }
}

/// The directory a tenant's memory files live in, relative to the
/// application's base directory.
pub fn memories_dir(base_dir: &str, channel: &str, user_id: &str) -> (r: String)
    ensures
        r@ == base_dir@ + "/users/"@ + channel@ + "_"@ + user_id@ + "/memories"@,
{
    let mut out = String::from_str(base_dir);
    out.append("/users/");
    out.append(channel);
    out.append("_");
    out.append(user_id);
    out.append("/memories");
    out
}

/// The memory index over the persistent store.
pub struct MemoryIndex {
    pub db: rusqlite::Connection,
}

impl MemoryIndex {
    /// Opens (or creates) the index database at the given path and makes
    /// sure its schema exists. Schema creation adds no rows; that the
    /// rows a pre-existing file already held are kept is not stated, as
    /// the contracts give a file on disk no name to state it by. The
    /// only failure is the store being unavailable.
    pub fn open(db_path: &str) -> (r: Result<MemoryIndex, MemoryError>)
        ensures
            r is Err ==> r->Err_0 is StoreUnavailable,
    {
        let mut db = open_connection(db_path)?;
        create_schema(&mut db)?;
        Ok(MemoryIndex { db })
    }

    /// Opens a fresh, empty in-memory index. The only failure is the
    /// store being unavailable.
    pub fn open_in_memory() -> (r: Result<MemoryIndex, MemoryError>)
        ensures
            r is Ok ==> stores_nothing(r->Ok_0.db),
            r is Err ==> r->Err_0 is StoreUnavailable,
    {
        let mut db = open_memory_connection()?;
        create_schema(&mut db)?;
        Ok(MemoryIndex { db })
    }

    /// The digest recorded for a file, if the file is indexed.
    pub fn get_file_hash(&self, channel: &str, user_id: &str, path: &str) -> (r: Result<
        Option<String>,
        MemoryError,
    >)
        ensures
            r is Ok ==> {
                let k = (channel@, user_id@, path@);
                &&& file_rows(self.db).contains_key(k) ==> (r->Ok_0 matches Some(h) && h@
                    == file_rows(self.db)[k])
                &&& !file_rows(self.db).contains_key(k) ==> r->Ok_0 is None
            },
    {
        query_file_hash(&self.db, channel, user_id, path)
    }

    /// Replaces everything the store holds for one file identity with
    /// the given digest, chunks and embedding blobs, as a unit; rows of
    /// every other key are untouched.
    pub fn replace_file(
        &mut self,
        channel: &str,
        user_id: &str,
        path: &str,
        hash: &str,
        chunks: &Vec<TextChunk>,
        vectors: &Vec<Vec<u8>>,
    ) -> (r: Result<(), MemoryError>)
        requires
            vectors@.len() == chunks@.len(),
        ensures
            file_rows(final(self).db).remove((channel@, user_id@, path@)) == file_rows(
                old(self).db,
            ).remove((channel@, user_id@, path@)),
            chunk_rows(final(self).db).remove((channel@, user_id@, path@)) == chunk_rows(
                old(self).db,
            ).remove((channel@, user_id@, path@)),
            vector_rows(final(self).db).remove((channel@, user_id@, path@)) == vector_rows(
                old(self).db,
            ).remove((channel@, user_id@, path@)),
            r is Ok ==> {
                let k = (channel@, user_id@, path@);
                &&& file_rows(final(self).db) == file_rows(old(self).db).insert(k, hash@)
                &&& rows_or_empty(chunk_rows(final(self).db), k) == chunk_tuples(
                    chunk_views(chunks@),
                )
                &&& chunk_rows(final(self).db).remove(k) == chunk_rows(old(self).db).remove(k)
                &&& chunk_rows(final(self).db).contains_key(k) == (chunks@.len() > 0)
                &&& rows_or_empty(vector_rows(final(self).db), k) == blob_views(vectors@)
                &&& vector_rows(final(self).db).remove(k) == vector_rows(old(self).db).remove(k)
                &&& vector_rows(final(self).db).contains_key(k) == (vectors@.len() > 0)
            },
    {
        let ghost k = (channel@, user_id@, path@);
        delete_file_vectors(&mut self.db, channel, user_id, path)?;
        delete_file_chunks(&mut self.db, channel, user_id, path)?;
        delete_file_row(&mut self.db, channel, user_id, path)?;
        let ghost base_files = file_rows(self.db);
        let ghost base_chunks = chunk_rows(self.db);
        let ghost base_vectors = vector_rows(self.db);
        let now = now_unix_secs();
        insert_file_row(&mut self.db, channel, user_id, path, hash, now)?;
        proof {
            assert(file_rows(self.db).remove(k) =~= file_rows(old(self).db).remove(k));
            assert(chunk_rows(self.db).remove(k) =~= chunk_rows(old(self).db).remove(k));
            assert(vector_rows(self.db).remove(k) =~= vector_rows(old(self).db).remove(k));
        }
        let mut i: usize = 0;
        while i < chunks.len()
            invariant
                i <= chunks.len(),
                vectors@.len() == chunks@.len(),
                k == (channel@, user_id@, path@),
                file_rows(self.db).remove(k) == file_rows(old(self).db).remove(k),
                chunk_rows(self.db).remove(k) == chunk_rows(old(self).db).remove(k),
                vector_rows(self.db).remove(k) == vector_rows(old(self).db).remove(k),
                file_rows(self.db) == base_files.insert(k, hash@),
                rows_or_empty(chunk_rows(self.db), k) == chunk_tuples(chunk_views(chunks@)).take(
                    i as int,
                ),
                chunk_rows(self.db).contains_key(k) == (i > 0),
                chunk_rows(self.db).remove(k) == base_chunks,
                rows_or_empty(vector_rows(self.db), k) == blob_views(vectors@).take(i as int),
                vector_rows(self.db).contains_key(k) == (i > 0),
                vector_rows(self.db).remove(k) == base_vectors,
                !base_chunks.contains_key(k),
                !base_vectors.contains_key(k),
            decreases chunks.len() - i,
        {
            let c = &chunks[i];
            proof {
                assert(chunk_tuples(chunk_views(chunks@)).len() == chunks@.len());
                assert(blob_views(vectors@).len() == vectors@.len());
            }
            insert_chunk_row(
                &mut self.db,
                channel,
                user_id,
                path,
                i,
                c.text.as_str(),
                c.start_line,
                c.end_line,
            )?;
            proof {
                let target = chunk_tuples(chunk_views(chunks@));
                assert(chunk_views(chunks@)[i as int] == chunks@[i as int]@);
                assert(target[i as int] == (c.text@, c.start_line as int, c.end_line as int));
                assert(target.take(i as int).push(target[i as int]) =~= target.take(i as int + 1));
                assert(chunk_rows(self.db).remove(k) =~= base_chunks);
            }
            insert_vector_row(&mut self.db, channel, user_id, path, i, &vectors[i])?;
            proof {
                let vtarget = blob_views(vectors@);
                assert(vtarget[i as int] == vectors@[i as int]@);
                assert(vtarget.take(i as int).push(vtarget[i as int]) =~= vtarget.take(
                    i as int + 1,
                ));
                assert(vector_rows(self.db).remove(k) =~= base_vectors);
            }
            i = i + 1;
        }
        proof {
            assert(chunk_tuples(chunk_views(chunks@)).take(chunks@.len() as int) =~= chunk_tuples(
                chunk_views(chunks@),
            ));
            assert(blob_views(vectors@).take(vectors@.len() as int) =~= blob_views(vectors@));
            assert(base_files.insert(k, hash@) =~= file_rows(old(self).db).insert(k, hash@));
            assert(base_chunks =~= chunk_rows(old(self).db).remove(k));
            assert(base_vectors =~= vector_rows(old(self).db).remove(k));
        }
        Ok(())
    }

    /// Indexes one document: skipped outright when its recorded digest
    /// matches (returning `false`), otherwise chunked, embedded in one
    /// batch and replaced in the store (returning `true`). Rows of every
    /// other key stay untouched.
    #[verifier::rlimit(100)]
    fn index_one_document<P: EmbeddingProvider>(
        &mut self,
        channel: &str,
        user_id: &str,
        d: &MemoryDocument,
        provider: &mut P,
    ) -> (r: Result<bool, MemoryError>)
        ensures
            file_rows(final(self).db).remove((channel@, user_id@, d.path@)) == file_rows(
                old(self).db,
            ).remove((channel@, user_id@, d.path@)),
            chunk_rows(final(self).db).remove((channel@, user_id@, d.path@)) == chunk_rows(
                old(self).db,
            ).remove((channel@, user_id@, d.path@)),
            vector_rows(final(self).db).remove((channel@, user_id@, d.path@)) == vector_rows(
                old(self).db,
            ).remove((channel@, user_id@, d.path@)),
            r is Ok ==> r->Ok_0 == !doc_unchanged(old(self).db, channel@, user_id@, *d),
            r is Ok && !(r->Ok_0) ==> final(self).db == old(self).db && final(provider).calls()
                == old(provider).calls() && final(provider).history() == old(provider).history(),
            r is Ok && r->Ok_0 ==> doc_indexed(final(self).db, channel@, user_id@, *d)
                && final(provider).calls() == old(provider).calls() + 1,
            r is Ok && r->Ok_0 ==> final(provider).history().len() == old(provider).history().len()
                + 1 && final(provider).history().drop_last() == old(provider).history(),
            r is Ok && r->Ok_0 ==> final(provider).history().last().texts == chunk_texts(
                spec_chunk_text(d.content@),
            ) && rows_or_empty(vector_rows(final(self).db), (channel@, user_id@, d.path@))
                == blob_encodings(final(provider).history().last().outputs),
            r is Ok && r->Ok_0 ==> forall|kk: (Seq<char>, Seq<char>, Seq<char>)|
                kk != (channel@, user_id@, d.path@) ==> #[trigger] db_same_at(
                    old(self).db,
                    final(self).db,
                    kk,
                ),
            r is Err && doc_unchanged(old(self).db, channel@, user_id@, *d) ==> final(self).db
                == old(self).db && final(provider).history() == old(provider).history(),
    {
        let ghost k = (channel@, user_id@, d.path@);
        let stored = query_file_hash(&self.db, channel, user_id, d.path.as_str())?;
        let digest = hash_to_hex(md5_hash(d.content.as_str()));
        let unchanged = match &stored {
            Some(h) => *h == digest,
            None => false,
        };
        proof {
            assert(unchanged == doc_unchanged(self.db, channel@, user_id@, *d));
        }
        if unchanged {
            return Ok(false);
        }
        let chunks = chunk_text(d.content.as_str());
        let mut texts: Vec<String> = Vec::new();
        let mut t: usize = 0;
        while t < chunks.len()
            invariant
                t <= chunks.len(),
                texts@.len() == t,
                forall|x: int| 0 <= x < t ==> #[trigger] texts@[x] == chunks@[x].text,
            decreases chunks.len() - t,
        {
            texts.push(chunks[t].text.clone());
            t = t + 1;
        }
        proof {
            assert(text_views(texts@) =~= chunk_texts(chunk_views(chunks@)));
            assert(chunk_views(chunks@) == spec_chunk_text(d.content@));
        }
        let embeddings = provider.embed(&texts)?;
        let mut vectors: Vec<Vec<u8>> = Vec::new();
        let mut v: usize = 0;
        while v < embeddings.len()
            invariant
                v <= embeddings.len(),
                embeddings@.len() == chunks@.len(),
                vectors@.len() == v,
                forall|j: int|
                    0 <= j < embeddings@.len() ==> valid_embedding(#[trigger] embeddings@[j]@)
                        && near_unit(embeddings@[j]@),
                forall|j: int|
                    0 <= j < v ==> spec_decode_ok(#[trigger] vectors@[j]@) && near_unit(
                        spec_decode(vectors@[j]@),
                    ) && vectors@[j]@ == spec_embedding_bytes(embeddings@[j]@),
            decreases embeddings.len() - v,
        {
            let blob = embedding_to_bytes(&embeddings[v]);
            proof {
                crate::embedding::lemma_embedding_roundtrip(embeddings@[v as int]@);
            }
            vectors.push(blob);
            v = v + 1;
        }
        let ghost pre_db = self.db;
        self.replace_file(channel, user_id, d.path.as_str(), digest.as_str(), &chunks, &vectors)?;
        proof {
            lemma_replaced_doc_indexed(self.db, channel@, user_id@, *d, chunks@, vectors@);
            lemma_replace_gives_frame(pre_db, self.db, k, digest@);
            assert(blob_views(vectors@) =~= blob_encodings(embedding_views(embeddings@)));
            assert(rows_or_empty(vector_rows(self.db), k) == blob_encodings(
                provider.history().last().outputs,
            ));
        }
        Ok(true)
    }

    /// Indexes one tenant's memory files incrementally: a document whose
    /// recorded digest matches its content is skipped outright (its rows
    /// stay untouched, whether or not the pass completes, and no
    /// embedding happens for it); every other document is chunked,
    /// embedded in one batch — the provider receives exactly the chunk
    /// texts in order, and the stored blobs are the serializations of
    /// what that batch returned — and replaced in the store as a unit.
    /// Rows of keys outside the given documents — other files and other
    /// tenants — are never touched. A store or embedding failure aborts
    /// the pass and is returned as is.
    #[verifier::rlimit(100)]
    pub fn index_user_memories<P: EmbeddingProvider>(
        &mut self,
        channel: &str,
        user_id: &str,
        docs: &Vec<MemoryDocument>,
        provider: &mut P,
    ) -> (r: Result<(), MemoryError>)
        requires
            forall|i: int, j: int|
                #![trigger docs@[i].path@, docs@[j].path@]
                0 <= i < j < docs@.len() ==> docs@[i].path@ != docs@[j].path@,
        ensures
            forall|i: int|
                0 <= i < docs@.len() && doc_unchanged(
                    old(self).db,
                    channel@,
                    user_id@,
                    #[trigger] docs@[i],
                ) ==> db_same_at(old(self).db, final(self).db, (channel@, user_id@, docs@[i].path@)),
            r is Ok ==> forall|i: int|
                0 <= i < docs@.len() && !doc_unchanged(
                    old(self).db,
                    channel@,
                    user_id@,
                    #[trigger] docs@[i],
                ) ==> doc_indexed(final(self).db, channel@, user_id@, docs@[i]),
            r is Ok ==> forall|i: int|
                0 <= i < docs@.len() && !doc_unchanged(
                    old(self).db,
                    channel@,
                    user_id@,
                    #[trigger] docs@[i],
                ) ==> doc_embedded(
                    final(provider).history(),
                    old(provider).history().len() as int,
                    final(self).db,
                    channel@,
                    user_id@,
                    docs@[i],
                ),
            forall|k: (Seq<char>, Seq<char>, Seq<char>)|
                !is_doc_key(channel@, user_id@, docs@, k) ==> #[trigger] db_same_at(
                    old(self).db,
                    final(self).db,
                    k,
                ),
            docs@.len() == 0 ==> r is Ok,
            r is Ok ==> final(provider).calls() == old(provider).calls() + changed_count(
                old(self).db,
                channel@,
                user_id@,
                docs@,
                docs@.len() as int,
            ),
    {
        let ghost db0 = self.db;
        let ghost calls0 = provider.calls();
        let ghost hist0 = provider.history();
        let mut idx: usize = 0;
        while idx < docs.len()
            invariant
                idx <= docs.len(),
                db0 == old(self).db,
                hist0 == old(provider).history(),
                hist0.len() <= provider.history().len(),
                forall|i: int, j: int|
                    #![trigger docs@[i].path@, docs@[j].path@]
                0 <= i < j < docs@.len() ==> docs@[i].path@ != docs@[j].path@,
                provider.calls() == calls0 + changed_count(
                    db0,
                    channel@,
                    user_id@,
                    docs@,
                    idx as int,
                ),
                forall|i: int|
                    0 <= i < idx && doc_unchanged(db0, channel@, user_id@, #[trigger] docs@[i])
                        ==> db_same_at(db0, self.db, (channel@, user_id@, docs@[i].path@)),
                forall|i: int|
                    0 <= i < idx && !doc_unchanged(db0, channel@, user_id@, #[trigger] docs@[i])
                        ==> doc_indexed(self.db, channel@, user_id@, docs@[i]),
                forall|i: int|
                    0 <= i < idx && !doc_unchanged(db0, channel@, user_id@, #[trigger] docs@[i])
                        ==> doc_embedded(
                        provider.history(),
                        hist0.len() as int,
                        self.db,
                        channel@,
                        user_id@,
                        docs@[i],
                    ),
                forall|i: int|
                    idx <= i < docs@.len() ==> db_same_at(
                        db0,
                        self.db,
                        (channel@, user_id@, #[trigger] docs@[i].path@),
                    ),
                forall|k: (Seq<char>, Seq<char>, Seq<char>)|
                    !is_doc_key(channel@, user_id@, docs@.take(idx as int), k) ==> #[trigger] db_same_at(
                        db0,
                        self.db,
                        k,
                    ),
            decreases docs.len() - idx,
        {
            let d = &docs[idx];
            let ghost k = (channel@, user_id@, d.path@);
            let ghost iter_db = self.db;
            let ghost hist_iter = provider.history();
            proof {
                assert(!is_doc_key(channel@, user_id@, docs@.take(idx as int), k)) by {
                    if is_doc_key(channel@, user_id@, docs@.take(idx as int), k) {
                        let i = choose|i: int|
                            0 <= i < docs@.take(idx as int).len() && k == (
                                channel@,
                                user_id@,
                                docs@.take(idx as int)[i].path@,
                            );
                        assert(docs@[i].path@ == docs@[idx as int].path@);
                    }
                }
                assert(db_same_at(db0, self.db, k));
            }
            let changed = match self.index_one_document(channel, user_id, d, provider) {
                Ok(c) => c,
                Err(e) => {
                    proof {
                        lemma_remove_frame(iter_db, self.db, k);
                        lemma_err_frame(
                            db0,
                            iter_db,
                            self.db,
                            channel@,
                            user_id@,
                            docs@,
                            idx as int,
                        );
                        assert forall|kk: (Seq<char>, Seq<char>, Seq<char>)|
                            !is_doc_key(channel@, user_id@, docs@, kk) implies #[trigger] db_same_at(
                            old(self).db,
                            self.db,
                            kk,
                        ) by {
                            assert(db_same_at(db0, self.db, kk));
                        }
                        lemma_doc_unchanged_transport(
                            db0,
                            iter_db,
                            channel@,
                            user_id@,
                            docs@[idx as int],
                        );
                        lemma_err_unchanged_frame(
                            db0,
                            iter_db,
                            self.db,
                            channel@,
                            user_id@,
                            docs@,
                            idx as int,
                        );
                        assert forall|i: int|
                            0 <= i < docs@.len() && doc_unchanged(
                                db0,
                                channel@,
                                user_id@,
                                #[trigger] docs@[i],
                            ) implies db_same_at(
                            old(self).db,
                            self.db,
                            (channel@, user_id@, docs@[i].path@),
                        ) by {
                            assert(db_same_at(db0, self.db, (channel@, user_id@, docs@[i].path@)));
                        }
                    }
                    return Err(e);
                },
            };
            proof {
                lemma_doc_unchanged_transport(db0, iter_db, channel@, user_id@, docs@[idx as int]);
                assert(changed == !doc_unchanged(db0, channel@, user_id@, docs@[idx as int]));
                assert(forall|kk: (Seq<char>, Seq<char>, Seq<char>)|
                    kk != k ==> db_same_at(iter_db, self.db, kk));
                assert(changed_count(db0, channel@, user_id@, docs@, idx as int + 1)
                    == changed_count(db0, channel@, user_id@, docs@, idx as int) + if doc_unchanged(
                    db0,
                    channel@,
                    user_id@,
                    docs@[idx as int],
                ) {
                    0int
                } else {
                    1int
                });
                assert forall|i: int|
                    0 <= i < idx + 1 && doc_unchanged(db0, channel@, user_id@, #[trigger] docs@[i])
                        implies db_same_at(db0, self.db, (channel@, user_id@, docs@[i].path@)) by {
                    if i < idx {
                        assert(docs@[i].path@ != d.path@);
                        assert(db_same_at(db0, iter_db, (channel@, user_id@, docs@[i].path@)));
                        assert(db_same_at(iter_db, self.db, (channel@, user_id@, docs@[i].path@)));
                    }
                }
                assert forall|i: int|
                    0 <= i < idx + 1 && !doc_unchanged(db0, channel@, user_id@, #[trigger] docs@[i])
                        implies doc_indexed(self.db, channel@, user_id@, docs@[i]) by {
                    if i < idx {
                        assert(docs@[i].path@ != d.path@);
                        assert(doc_indexed(iter_db, channel@, user_id@, docs@[i]));
                        assert(db_same_at(iter_db, self.db, (channel@, user_id@, docs@[i].path@)));
                        lemma_doc_indexed_transport(
                            iter_db,
                            self.db,
                            channel@,
                            user_id@,
                            docs@[i],
                        );
                    }
                }
                assert forall|kk: (Seq<char>, Seq<char>, Seq<char>)|
                    !is_doc_key(channel@, user_id@, docs@.take(idx as int + 1), kk) implies #[trigger] db_same_at(
                    db0,
                    self.db,
                    kk,
                ) by {
                    assert(docs@.take(idx as int + 1)[idx as int] == docs@[idx as int]);
                    assert(k == (channel@, user_id@, docs@.take(idx as int + 1)[idx as int].path@));
                    assert(kk != k);
                    assert(!is_doc_key(channel@, user_id@, docs@.take(idx as int), kk)) by {
                        if is_doc_key(channel@, user_id@, docs@.take(idx as int), kk) {
                            let i = choose|i: int|
                                0 <= i < docs@.take(idx as int).len() && kk == (
                                    channel@,
                                    user_id@,
                                    docs@.take(idx as int)[i].path@,
                                );
                            assert(docs@.take(idx as int + 1)[i] == docs@[i]);
                            assert(kk == (
                                channel@,
                                user_id@,
                                docs@.take(idx as int + 1)[i].path@,
                            ));
                        }
                    }
                    assert(db_same_at(db0, iter_db, kk));
                    assert(db_same_at(iter_db, self.db, kk));
                }
                assert forall|i: int|
                    idx + 1 <= i < docs@.len() implies db_same_at(
                    db0,
                    self.db,
                    (channel@, user_id@, #[trigger] docs@[i].path@),
                ) by {
                    assert(docs@[i].path@ != d.path@);
                    assert(db_same_at(db0, iter_db, (channel@, user_id@, docs@[i].path@)));
                    assert(db_same_at(iter_db, self.db, (channel@, user_id@, docs@[i].path@)));
                }
                assert(hist_iter.len() <= provider.history().len());
                assert(forall|n: int|
                    0 <= n < hist_iter.len() ==> provider.history()[n] == #[trigger] hist_iter[n]);
                assert forall|i: int|
                    0 <= i < idx + 1 && !doc_unchanged(db0, channel@, user_id@, #[trigger] docs@[i])
                        implies doc_embedded(
                    provider.history(),
                    hist0.len() as int,
                    self.db,
                    channel@,
                    user_id@,
                    docs@[i],
                ) by {
                    if i < idx {
                        assert(docs@[i].path@ != d.path@);
                        assert(doc_embedded(
                            hist_iter,
                            hist0.len() as int,
                            iter_db,
                            channel@,
                            user_id@,
                            docs@[i],
                        ));
                        assert(db_same_at(iter_db, self.db, (channel@, user_id@, docs@[i].path@)));
                        lemma_doc_embedded_extend(
                            hist_iter,
                            provider.history(),
                            hist0.len() as int,
                            iter_db,
                            self.db,
                            channel@,
                            user_id@,
                            docs@[i],
                        );
                    } else {
                        let ghost n = hist_iter.len() as int;
                        assert(provider.history()[n] == provider.history().last());
                        assert(provider.history()[n].texts == chunk_texts(
                            spec_chunk_text(docs@[i].content@),
                        ));
                        assert(rows_or_empty(vector_rows(self.db), (channel@, user_id@, docs@[i].path@))
                            == blob_encodings(provider.history()[n].outputs));
                    }
                }
            }
            idx = idx + 1;
        }
        proof {
            assert(docs@.take(docs@.len() as int) =~= docs@);
        }
        Ok(())
    }

    /// Embeds the query and ranks this tenant's stored chunks by
    /// similarity, best first, returning at most `limit` hits. Exactly
    /// one embedding batch is spent, on exactly the query text, and the
    /// ranking is computed against the embedding that batch returned.
    /// Every hit is one of
    /// this tenant's stored chunks — never another user's or another
    /// channel's — its score is the dot product of the query embedding
    /// with the chunk's stored vector, and the hits are the top of a
    /// similarity-sorted ranking of all of the tenant's chunks. A tenant
    /// with nothing indexed gets the empty ranking, not an error.
    #[verifier::rlimit(100)]
    pub fn search<P: EmbeddingProvider>(
        &self,
        channel: &str,
        user_id: &str,
        query: &str,
        limit: usize,
        provider: &mut P,
    ) -> (r: Result<Vec<MemorySearchResult>, MemoryError>)
        ensures
            final(provider).calls() == old(provider).calls() + 1,
            r is Ok ==> sorted_desc(r->Ok_0@) && r->Ok_0@.len() <= limit,
            r is Ok ==> forall|i: int|
                0 <= i < r->Ok_0@.len() ==> #[trigger] from_tenant(
                    self.db,
                    channel@,
                    user_id@,
                    r->Ok_0@[i],
                ),
            r is Ok ==> final(provider).history().len() == old(provider).history().len() + 1
                && final(provider).history().drop_last() == old(provider).history(),
            r is Ok ==> final(provider).history().last().texts == seq![query@]
                && final(provider).history().last().outputs.len() == 1,
            r is Ok ==> exists|full: Seq<MemorySearchResult>|
                ranking_of(
                    self.db,
                    channel@,
                    user_id@,
                    final(provider).history().last().outputs[0],
                    full,
                ) && r->Ok_0@ == full.take(vstd::math::min(limit as int, full.len() as int)),
    {
        let mut qtexts: Vec<String> = Vec::new();
        qtexts.push(String::from_str(query));
        let embeddings = provider.embed(&qtexts)?;
        proof {
            assert(text_views(qtexts@) =~= seq![query@]);
        }
        let qe = &embeddings[0];
        proof {
            assert(provider.history().last().outputs =~= embedding_views(embeddings@));
            assert(provider.history().last().outputs[0] == qe@);
        }
        let rows = query_tenant_rows(&self.db, channel, user_id)?;
        let scored = score_rows(qe, &rows)?;
        let mut keys: Vec<(usize, i64)> = Vec::new();
        let mut t: usize = 0;
        while t < scored.len()
            invariant
                t <= scored.len(),
                keys@.len() == t,
                forall|x: int|
                    #![trigger keys@[x]]
                    0 <= x < t ==> keys@[x].0 as int == x && keys@[x].1 == scored@[x].score,
            decreases scored.len() - t,
        {
            keys.push((t, scored[t].score));
            t = t + 1;
        }
        let skeys = sort_keys_desc(keys);
        proof {
            broadcast use vstd::seq_lib::group_to_multiset_ensures;

            assert(skeys@.len() == scored@.len()) by {
                assert(skeys@.to_multiset().len() == skeys@.len());
                assert(keys@.to_multiset().len() == keys@.len());
            }
            assert forall|ii: int|
                0 <= ii < skeys@.len() implies (#[trigger] skeys@[ii]).0 < scored@.len()
                && skeys@[ii].1 == scored@[skeys@[ii].0 as int].score by {
                assert(skeys@.contains(skeys@[ii]));
                assert(skeys@.to_multiset().count(skeys@[ii]) > 0);
                assert(keys@.contains(skeys@[ii]));
                let x = choose|x: int| 0 <= x < keys@.len() && keys@[x] == skeys@[ii];
                assert(keys@[x].0 as int == x);
            }
        }
        let mut full: Vec<MemorySearchResult> = Vec::new();
        let mut fi: usize = 0;
        while fi < skeys.len()
            invariant
                fi <= skeys@.len(),
                skeys@.len() == scored@.len(),
                forall|ii: int|
                    0 <= ii < skeys@.len() ==> (#[trigger] skeys@[ii]).0 < scored@.len()
                        && skeys@[ii].1 == scored@[skeys@[ii].0 as int].score,
                full@.len() == fi,
                forall|ii: int|
                    #![trigger full@[ii]]
                    0 <= ii < fi ==> full@[ii].path@ == scored@[skeys@[ii].0 as int].path@
                        && full@[ii].chunk@ == scored@[skeys@[ii].0 as int].chunk@
                        && full@[ii].score == skeys@[ii].1,
            decreases skeys.len() - fi,
        {
            let key = skeys[fi];
            let src = &scored[key.0];
            full.push(
                MemorySearchResult { path: src.path.clone(), chunk: src.chunk.clone(), score: key.1 },
            );
            fi = fi + 1;
        }
        proof {
            lemma_ranking_from_keys(
                self.db,
                channel@,
                user_id@,
                qe@,
                rows@,
                scored@,
                keys@,
                skeys@,
                full@,
            );
        }
        let ghost full0 = full@;
        proof {
            assert(full0.take(full0.len() as int) =~= full0);
        }
        let mut res = full;
        while res.len() > limit
            invariant
                res@.len() <= full0.len(),
                res@ == full0.take(res@.len() as int),
                limit <= res@.len() || res@.len() == full0.len(),
            decreases res.len(),
        {
            let _ = res.pop();
            proof {
                assert(full0.take(res@.len() as int + 1).drop_last() =~= full0.take(
                    res@.len() as int,
                ));
            }
        }
        proof {
            assert(res@ == full0.take(vstd::math::min(limit as int, full0.len() as int)));
            lemma_ranking_prefix(self.db, channel@, user_id@, qe@, full0, res@, res@.len() as int);
        }
        Ok(res)
    }

    /// All paths indexed for one tenant, each exactly once.
    pub fn list_memory_files(&self, channel: &str, user_id: &str) -> (r: Result<
        Vec<String>,
        MemoryError,
    >)
        ensures
            r is Ok ==> {
                let paths = r->Ok_0@;
                &&& forall|i: int|
                    0 <= i < paths.len() ==> file_rows(self.db).contains_key(
                        (channel@, user_id@, #[trigger] paths[i]@),
                    )
                &&& forall|p: Seq<char>|
                    file_rows(self.db).contains_key((channel@, user_id@, p)) ==> exists|i: int|
                        0 <= i < paths.len() && #[trigger] paths[i]@ == p
                &&& forall|i: int, j: int|
                    #![trigger paths[i], paths[j]]
                    0 <= i < j < paths.len() ==> paths[i]@ != paths[j]@
            },
    {
        query_tenant_paths(&self.db, channel, user_id)
    }
}

} // verus!
