//! The bucket's state and its operations: upload staging (batches and
//! chunks), the expiry sweeper, commits into the registry and the hash
//! tree, lookups with access control, and deletion.

use crate::crypto::sha256_of;
use crate::errors::BucketError;
use crate::hashtree::AssetHashes;
use crate::registry::{Assets, IdMap};
use crate::text::{find_str, spec_find, str_eq};
use crate::types::{
    Asset, AssetEncoding, AssetEncodingV, AssetKey, AssetKeyV, AssetV, Batch, BatchV, Chunk,
    ChunkV, CommitBatch, Del,
};
use vstd::prelude::*;
use vstd::string::StrSliceExecFns;
use vstd::string::StringExecFns;

verus! {

/// How long an upload batch stays alive after it is created or last fed a
/// chunk, in nanoseconds.
pub const BATCH_EXPIRY_NANOS: u64 = 300_000_000_000;

/// The staged chunks, keyed by chunk identifier.
pub type Chunks = IdMap<Chunk>;

/// The in-flight upload batches, keyed by batch identifier.
pub type Batches = IdMap<Batch>;

/// The durable part of the state: the owner identity (opaque bytes), the
/// committed assets, and the identifier counters. The counters are
/// durable so that batch and chunk identifiers are never reused over the
/// store's lifetime, restarts included.
pub struct StableState {
    pub user: Option<Vec<u8>>,
    pub assets: Assets,
    pub next_batch_id: u128,
    pub next_chunk_id: u128,
}

/// The volatile part of the state: staged chunks and batches, and the
/// certified hash tree. Rebuilt on restart by replaying the registry.
pub struct RuntimeState {
    pub chunks: Chunks,
    pub batches: Batches,
    pub asset_hashes: AssetHashes,
}

/// The whole bucket state, passed explicitly to every operation.
pub struct State {
    pub stable: StableState,
    pub runtime: RuntimeState,
}

impl State {
    /// The committed assets, by full path.
    pub open spec fn assets(self) -> Map<Seq<char>, AssetV> {
        self.stable.assets.m()
    }

    /// The in-flight batches, by identifier.
    pub open spec fn batches(self) -> Map<u128, BatchV> {
        self.runtime.batches.m()
    }

    /// The staged chunks, by identifier.
    pub open spec fn chunks(self) -> Map<u128, ChunkV> {
        self.runtime.chunks.m()
    }

    /// The leaves of the certified hash tree, by full path.
    pub open spec fn tree(self) -> Map<Seq<char>, Seq<u8>> {
        self.runtime.asset_hashes.entries()
    }

    /// The state invariant: stores are well-formed, every committed asset
    /// carries a well-formed raw encoding, the hash tree mirrors the
    /// registry exactly (same paths, and each leaf holds the digest of that
    /// asset's raw content), and no stored identifier is above its counter.
    pub open spec fn wf(self) -> bool {
        &&& self.stable.assets.wf()
        &&& self.runtime.batches.wf()
        &&& self.runtime.chunks.wf()
        &&& forall|p: Seq<char>|
            #[trigger] self.assets().contains_key(p) ==> self.assets()[p].wf()
                && self.assets()[p].key.full_path == p
        &&& self.tree().dom() == self.assets().dom()
        &&& forall|p: Seq<char>|
            #[trigger] self.assets().contains_key(p) ==> self.tree()[p] == self.assets()[p].raw_sha()
        &&& forall|id: u128| #[trigger] self.batches().contains_key(id) ==> id <= self.stable.next_batch_id
        &&& forall|id: u128| #[trigger] self.chunks().contains_key(id) ==> id <= self.stable.next_chunk_id
    }

    /// A fresh, empty bucket.
    pub fn init() -> (r: State)
        ensures
            r.wf(),
            r.assets() == Map::<Seq<char>, AssetV>::empty(),
            r.batches() == Map::<u128, BatchV>::empty(),
            r.chunks() == Map::<u128, ChunkV>::empty(),
            r.tree() == Map::<Seq<char>, Seq<u8>>::empty(),
            r.stable.user is None,
            r.stable.next_batch_id == 0,
            r.stable.next_chunk_id == 0,
    {
        let r = State {
            stable: StableState {
                user: None,
                assets: Assets::new(),
                next_batch_id: 0,
                next_chunk_id: 0,
            },
            runtime: RuntimeState {
                chunks: IdMap::new(),
                batches: IdMap::new(),
                asset_hashes: AssetHashes::new(),
            },
        };
        proof {
            assert(r.tree() =~= Map::<Seq<char>, Seq<u8>>::empty());
        }
        r
    }
}

/// The deadline a fresh expiry window gives at time `now`; it saturates
/// at the clock's end rather than wrap.
pub open spec fn slide_expiry(now: u64) -> u64 {
    if now > u64::MAX - BATCH_EXPIRY_NANOS {
        u64::MAX
    } else {
        (now + BATCH_EXPIRY_NANOS) as u64
    }
}

/// The batches that survive a sweep at time `now`: exactly those whose
/// deadline has not strictly passed.
pub open spec fn live_batches(m: Map<u128, BatchV>, now: u64) -> Map<u128, BatchV> {
    Map::new(|id: u128| m.contains_key(id) && m[id].expires_at >= now, |id: u128| m[id])
}

/// The chunks that survive a sweep: exactly those whose batch survived.
pub open spec fn live_chunks(cm: Map<u128, ChunkV>, bm: Map<u128, BatchV>) -> Map<u128, ChunkV> {
    Map::new(|id: u128| cm.contains_key(id) && bm.contains_key(cm[id].batch_id), |id: u128| cm[id])
}

/// The staged chunks that survive a commit of `batch_id`: exactly those
/// belonging to other batches, whether or not they were listed.
pub open spec fn chunks_without_batch(cm: Map<u128, ChunkV>, batch_id: u128) -> Map<
    u128,
    ChunkV,
> {
    Map::new(|id: u128| cm.contains_key(id) && cm[id].batch_id != batch_id, |id: u128| cm[id])
}

/// Removes every batch whose deadline has passed, then every chunk whose
/// batch is gone. Lazy reclamation: this runs at the start of each batch
/// creation and when a commit finds its batch expired.
pub fn clear_expired_batches(runtime: &mut RuntimeState, now: u64)
    requires
        old(runtime).batches.wf(),
        old(runtime).chunks.wf(),
    ensures
        final(runtime).batches.wf(),
        final(runtime).chunks.wf(),
        final(runtime).batches.m() == live_batches(old(runtime).batches.m(), now),
        final(runtime).chunks.m() == live_chunks(
            old(runtime).chunks.m(),
            final(runtime).batches.m(),
        ),
        final(runtime).asset_hashes == old(runtime).asset_hashes,
{
    let ghost bs = runtime.batches.entries.deep_view();
    let ghost bm = runtime.batches.m();
    let mut kept_batches: Vec<(u128, Batch)> = Vec::new();
    let mut i: usize = 0;
    while i < runtime.batches.entries.len()
        invariant
            runtime.batches.entries.deep_view() == bs,
            crate::registry::unique_ids(bs),
            i <= bs.len(),
            crate::registry::unique_ids(kept_batches.deep_view()),
            id_map_of(kept_batches.deep_view()) == live_batches(id_map_of(bs.take(i as int)), now),
            forall|a: int|
                0 <= a < kept_batches.deep_view().len() ==> id_map_of(bs.take(i as int)).contains_key(
                    #[trigger] kept_batches.deep_view()[a].0,
                ),
        decreases bs.len() - i,
    {
        let ghost prefix = bs.take(i as int);
        let ghost kdv = kept_batches.deep_view();
        proof {
            assert(bs.take(i + 1).drop_last() =~= prefix);
            assert(bs.take(i + 1).last() == bs[i as int]);
            assert(crate::registry::unique_ids(prefix)) by {
                assert forall|a: int, b: int| 0 <= a < b < prefix.len() implies prefix[a].0
                    != prefix[b].0 by {
                    assert(prefix[a] == bs[a]);
                    assert(prefix[b] == bs[b]);
                }
            }
            assert forall|x: int| 0 <= x < prefix.len() implies prefix[x].0 != bs[i as int].0 by {
                assert(prefix[x] == bs[x]);
            }
            crate::registry::lemma_id_map_absent(prefix, bs[i as int].0);
        }
        let e = &runtime.batches.entries[i];
        proof {
            assert(e.deep_view() == bs[i as int]);
        }
        if e.1.expires_at >= now {
            let kept = Batch { key: e.1.key.duplicate(), expires_at: e.1.expires_at };
            kept_batches.push((e.0, kept));
            proof {
                assert(kept_batches.deep_view() =~~= kdv.push(bs[i as int]));
                crate::registry::lemma_id_map_push(kdv, bs[i as int]);
                assert(live_batches(id_map_of(bs.take(i + 1)), now) =~= id_map_of(kdv).insert(
                    bs[i as int].0,
                    bs[i as int].1,
                ));
                assert forall|a: int, b: int|
                    0 <= a < b < kept_batches.deep_view().len() implies kept_batches.deep_view()[a].0
                    != kept_batches.deep_view()[b].0 by {
                    if b == kdv.len() {
                        assert(kept_batches.deep_view()[a] == kdv[a]);
                    } else {
                        assert(kept_batches.deep_view()[a] == kdv[a]);
                        assert(kept_batches.deep_view()[b] == kdv[b]);
                    }
                }
            }
        } else {
            proof {
                assert(live_batches(id_map_of(bs.take(i + 1)), now) =~= id_map_of(kdv));
            }
        }
        i = i + 1;
    }
    proof {
        assert(bs.take(bs.len() as int) =~= bs);
    }
    runtime.batches.entries = kept_batches;

    let ghost cs = runtime.chunks.entries.deep_view();
    let ghost newbm = runtime.batches.m();
    let mut kept_chunks: Vec<(u128, Chunk)> = Vec::new();
    let mut k: usize = 0;
    while k < runtime.chunks.entries.len()
        invariant
            runtime.chunks.entries.deep_view() == cs,
            crate::registry::unique_ids(cs),
            k <= cs.len(),
            runtime.batches.wf(),
            runtime.batches.m() == newbm,
            crate::registry::unique_ids(kept_chunks.deep_view()),
            id_map_of(kept_chunks.deep_view()) == live_chunks(id_map_of(cs.take(k as int)), newbm),
            forall|a: int|
                0 <= a < kept_chunks.deep_view().len() ==> id_map_of(cs.take(k as int)).contains_key(
                    #[trigger] kept_chunks.deep_view()[a].0,
                ),
        decreases cs.len() - k,
    {
        let ghost prefix = cs.take(k as int);
        let ghost kdv = kept_chunks.deep_view();
        proof {
            assert(cs.take(k + 1).drop_last() =~= prefix);
            assert(cs.take(k + 1).last() == cs[k as int]);
            assert(crate::registry::unique_ids(prefix)) by {
                assert forall|a: int, b: int| 0 <= a < b < prefix.len() implies prefix[a].0
                    != prefix[b].0 by {
                    assert(prefix[a] == cs[a]);
                    assert(prefix[b] == cs[b]);
                }
            }
            assert forall|x: int| 0 <= x < prefix.len() implies prefix[x].0 != cs[k as int].0 by {
                assert(prefix[x] == cs[x]);
            }
            crate::registry::lemma_id_map_absent(prefix, cs[k as int].0);
        }
        let e = &runtime.chunks.entries[k];
        proof {
            assert(e.deep_view() == cs[k as int]);
        }
        if runtime.batches.contains(e.1.batch_id) {
            let kept = Chunk { batch_id: e.1.batch_id, content: crate::types::clone_bytes(&e.1.content) };
            kept_chunks.push((e.0, kept));
            proof {
                assert(kept_chunks.deep_view() =~~= kdv.push(cs[k as int]));
                crate::registry::lemma_id_map_push(kdv, cs[k as int]);
                assert(live_chunks(id_map_of(cs.take(k + 1)), newbm) =~= id_map_of(kdv).insert(
                    cs[k as int].0,
                    cs[k as int].1,
                ));
                assert forall|a: int, b: int|
                    0 <= a < b < kept_chunks.deep_view().len() implies kept_chunks.deep_view()[a].0
                    != kept_chunks.deep_view()[b].0 by {
                    if b == kdv.len() {
                        assert(kept_chunks.deep_view()[a] == kdv[a]);
                    } else {
                        assert(kept_chunks.deep_view()[a] == kdv[a]);
                        assert(kept_chunks.deep_view()[b] == kdv[b]);
                    }
                }
            }
        } else {
            proof {
                assert(live_chunks(id_map_of(cs.take(k + 1)), newbm) =~= id_map_of(kdv));
            }
        }
        k = k + 1;
    }
    proof {
        assert(cs.take(cs.len() as int) =~= cs);
    }
    runtime.chunks.entries = kept_chunks;
}

/// Shorthand used by the sweeper's invariants.
pub open spec fn id_map_of<T>(s: Seq<(u128, T)>) -> Map<u128, T> {
    crate::registry::id_map(s)
}

/// Starts an upload: sweeps expired state, then stores a fresh batch under
/// a new identifier with a full expiry window. Never fails.
pub fn create_batch(state: &mut State, key: AssetKey, now: u64) -> (r: u128)
    requires
        old(state).wf(),
        old(state).stable.next_batch_id < u128::MAX,
    ensures
        final(state).wf(),
        r == old(state).stable.next_batch_id + 1,
        final(state).stable.next_batch_id == r,
        final(state).stable.next_chunk_id == old(state).stable.next_chunk_id,
        final(state).batches() == live_batches(old(state).batches(), now).insert(
            r,
            BatchV { key: key@, expires_at: slide_expiry(now) },
        ),
        final(state).chunks() == live_chunks(
            old(state).chunks(),
            live_batches(old(state).batches(), now),
        ),
        final(state).stable.user == old(state).stable.user,
        final(state).stable.assets == old(state).stable.assets,
        final(state).tree() == old(state).tree(),
{
    clear_expired_batches(&mut state.runtime, now);
    let batch_id = state.stable.next_batch_id + 1;
    state.stable.next_batch_id = batch_id;
    let expires_at = if now > u64::MAX - BATCH_EXPIRY_NANOS {
        u64::MAX
    } else {
        now + BATCH_EXPIRY_NANOS
    };
    state.runtime.batches.insert(batch_id, Batch { key, expires_at });
    proof {
        let oldb = old(state).batches();
        let oldc = old(state).chunks();
        assert forall|id: u128| #[trigger] state.batches().contains_key(id) implies id
            <= state.stable.next_batch_id by {
            if id != batch_id {
                assert(live_batches(oldb, now).contains_key(id));
                assert(oldb.contains_key(id));
            }
        }
        assert forall|id: u128| #[trigger] state.chunks().contains_key(id) implies id
            <= state.stable.next_chunk_id by {
            assert(live_chunks(oldc, live_batches(oldb, now)).contains_key(id));
            assert(oldc.contains_key(id));
        }
    }
    batch_id
}


/// Stages one chunk under its batch. Fails with `BatchNotFound` if the
/// batch is unknown or its deadline has already passed; on success the
/// batch's expiry window slides to `now + BATCH_EXPIRY_NANOS` and the chunk
/// is stored under a fresh identifier.
pub fn create_chunk(state: &mut State, chunk: Chunk, now: u64) -> (r: Result<u128, BucketError>)
    requires
        old(state).wf(),
        old(state).stable.next_chunk_id < u128::MAX,
    ensures
        final(state).wf(),
        match r {
            Ok(id) => {
                &&& old(state).batches().contains_key(chunk.batch_id)
                &&& now <= old(state).batches()[chunk.batch_id].expires_at
                &&& id == old(state).stable.next_chunk_id + 1
                &&& final(state).stable.next_chunk_id == id
                &&& final(state).stable.next_batch_id == old(state).stable.next_batch_id
                &&& final(state).batches() == old(state).batches().insert(
                    chunk.batch_id,
                    BatchV {
                        key: old(state).batches()[chunk.batch_id].key,
                        expires_at: slide_expiry(now),
                    },
                )
                &&& final(state).chunks() == old(state).chunks().insert(id, chunk@)
                &&& final(state).stable.user == old(state).stable.user
                &&& final(state).stable.assets == old(state).stable.assets
                &&& final(state).tree() == old(state).tree()
            },
            Err(e) => {
                &&& e == BucketError::BatchNotFound
                &&& (!old(state).batches().contains_key(chunk.batch_id) || now > old(
                    state,
                ).batches()[chunk.batch_id].expires_at)
                &&& *final(state) == *old(state)
            },
        },
{
    let batch_id = chunk.batch_id;
    let new_batch: Batch;
    match state.runtime.batches.get(batch_id) {
        None => {
            return Err(BucketError::BatchNotFound);
        },
        Some(b) => {
            if now > b.expires_at {
                return Err(BucketError::BatchNotFound);
            }
            let expires_at = if now > u64::MAX - BATCH_EXPIRY_NANOS {
                u64::MAX
            } else {
                now + BATCH_EXPIRY_NANOS
            };
            new_batch = Batch { key: b.key.duplicate(), expires_at };
        },
    }
    state.runtime.batches.insert(batch_id, new_batch);
    let chunk_id = state.stable.next_chunk_id + 1;
    state.stable.next_chunk_id = chunk_id;
    state.runtime.chunks.insert(chunk_id, chunk);
    proof {
        let oldb = old(state).batches();
        let oldc = old(state).chunks();
        assert forall|id: u128| #[trigger] state.batches().contains_key(id) implies id
            <= state.stable.next_batch_id by {
            if id != batch_id {
                assert(oldb.contains_key(id));
            }
        }
        assert forall|id: u128| #[trigger] state.chunks().contains_key(id) implies id
            <= state.stable.next_chunk_id by {
            if id != chunk_id {
                assert(oldc.contains_key(id));
            }
        }
    }
    Ok(chunk_id)
}

/// The first thing wrong with a commit's chunk list against the staged
/// chunks, in caller order: an unknown chunk, or one staged under another
/// batch.
pub open spec fn spec_chunk_error(
    chunks: Map<u128, ChunkV>,
    ids: Seq<u128>,
    batch_id: u128,
) -> Option<BucketError>
    decreases ids.len(),
{
    if ids.len() == 0 {
        None
    } else if !chunks.contains_key(ids[0]) {
        Some(BucketError::ChunkNotFound)
    } else if chunks[ids[0]].batch_id != batch_id {
        Some(BucketError::ChunkBatchMismatch)
    } else {
        spec_chunk_error(chunks, ids.drop_first(), batch_id)
    }
}

/// The contents of the listed chunks, in caller order.
pub open spec fn chunk_contents(chunks: Map<u128, ChunkV>, ids: Seq<u128>) -> Seq<Seq<u8>> {
    Seq::new(ids.len(), |i: int| chunks[ids[i]].content)
}

/// The asset a successful commit writes: the batch's key, the caller's
/// headers, and one "raw" encoding assembled from the listed chunks.
pub open spec fn committed_asset(
    batch: BatchV,
    headers: Seq<(Seq<char>, Seq<char>)>,
    chunks: Map<u128, ChunkV>,
    ids: Seq<u128>,
    now: u64,
) -> AssetV {
    AssetV {
        key: batch.key,
        headers,
        encodings: seq![
            (
                "raw"@,
                AssetEncodingV {
                    modified: now,
                    content_chunks: chunk_contents(chunks, ids),
                    total_length: chunk_contents(chunks, ids).flatten().len() as u128,
                    sha256: sha256_of(chunk_contents(chunks, ids).flatten()),
                },
            ),
        ],
    }
}

/// Commits a batch: checks its deadline, gathers the listed chunks in
/// caller order, assembles the "raw" encoding, replaces any prior asset at
/// the batch's full path, updates the hash tree leaf, and removes the
/// batch together with every chunk staged under it, listed or not. On any
/// error nothing is written, except that an expired batch triggers a
/// sweep. After a successful commit the caller must publish the new
/// certified root hash before serving reads.
#[verifier::loop_isolation(false)]
pub fn commit_batch(state: &mut State, commit: CommitBatch, now: u64) -> (r: Result<
    (),
    BucketError,
>)
    requires
        old(state).wf(),
    ensures
        final(state).wf(),
        final(state).stable.next_batch_id == old(state).stable.next_batch_id,
        final(state).stable.next_chunk_id == old(state).stable.next_chunk_id,
        final(state).stable.user == old(state).stable.user,
        match r {
            Ok(_) => {
                let b = old(state).batches()[commit.batch_id];
                &&& old(state).batches().contains_key(commit.batch_id)
                &&& now <= b.expires_at
                &&& commit.chunk_ids@.len() > 0
                &&& spec_chunk_error(old(state).chunks(), commit.chunk_ids@, commit.batch_id)
                    is None
                &&& chunk_contents(old(state).chunks(), commit.chunk_ids@).flatten().len()
                    <= u128::MAX
                &&& final(state).assets() == old(state).assets().insert(
                    b.key.full_path,
                    committed_asset(
                        b,
                        commit.headers.deep_view(),
                        old(state).chunks(),
                        commit.chunk_ids@,
                        now,
                    ),
                )
                &&& final(state).tree() == old(state).tree().insert(
                    b.key.full_path,
                    sha256_of(chunk_contents(old(state).chunks(), commit.chunk_ids@).flatten()),
                )
                &&& final(state).batches() == old(state).batches().remove(commit.batch_id)
                &&& final(state).chunks() == chunks_without_batch(
                    old(state).chunks(),
                    commit.batch_id,
                )
            },
            Err(e) => {
                &&& final(state).stable == old(state).stable
                &&& final(state).tree() == old(state).tree()
                &&& match e {
                    BucketError::NoBatch => {
                        &&& !old(state).batches().contains_key(commit.batch_id)
                        &&& final(state).runtime == old(state).runtime
                    },
                    BucketError::BatchExpired => {
                        &&& old(state).batches().contains_key(commit.batch_id)
                        &&& now > old(state).batches()[commit.batch_id].expires_at
                        &&& final(state).batches() == live_batches(old(state).batches(), now)
                        &&& final(state).chunks() == live_chunks(
                            old(state).chunks(),
                            final(state).batches(),
                        )
                        &&& final(state).runtime.asset_hashes == old(state).runtime.asset_hashes
                    },
                    BucketError::EmptyCommit => {
                        &&& old(state).batches().contains_key(commit.batch_id)
                        &&& now <= old(state).batches()[commit.batch_id].expires_at
                        &&& commit.chunk_ids@.len() == 0
                        &&& final(state).runtime == old(state).runtime
                    },
                    BucketError::ChunkNotFound => {
                        &&& old(state).batches().contains_key(commit.batch_id)
                        &&& now <= old(state).batches()[commit.batch_id].expires_at
                        &&& spec_chunk_error(
                            old(state).chunks(),
                            commit.chunk_ids@,
                            commit.batch_id,
                        ) == Some(BucketError::ChunkNotFound)
                        &&& final(state).runtime == old(state).runtime
                    },
                    BucketError::ChunkBatchMismatch => {
                        &&& old(state).batches().contains_key(commit.batch_id)
                        &&& now <= old(state).batches()[commit.batch_id].expires_at
                        &&& spec_chunk_error(
                            old(state).chunks(),
                            commit.chunk_ids@,
                            commit.batch_id,
                        ) == Some(BucketError::ChunkBatchMismatch)
                        &&& final(state).runtime == old(state).runtime
                    },
                    BucketError::ArithmeticOverflow => {
                        &&& old(state).batches().contains_key(commit.batch_id)
                        &&& now <= old(state).batches()[commit.batch_id].expires_at
                        &&& commit.chunk_ids@.len() > 0
                        &&& spec_chunk_error(
                            old(state).chunks(),
                            commit.chunk_ids@,
                            commit.batch_id,
                        ) is None
                        &&& chunk_contents(old(state).chunks(), commit.chunk_ids@).flatten().len()
                            > u128::MAX
                        &&& final(state).runtime == old(state).runtime
                    },
                    _ => false,
                }
            },
        },
{
    let CommitBatch { batch_id, headers, chunk_ids } = commit;
    let batch_key: AssetKey;
    let expires_at: u64;
    match state.runtime.batches.get(batch_id) {
        None => {
            return Err(BucketError::NoBatch);
        },
        Some(b) => {
            batch_key = b.key.duplicate();
            expires_at = b.expires_at;
        },
    }
    if now > expires_at {
        clear_expired_batches(&mut state.runtime, now);
        return Err(BucketError::BatchExpired);
    }
    let ghost cm = state.chunks();
    let mut content_chunks: Vec<Vec<u8>> = Vec::new();
    let mut i: usize = 0;
    proof {
        assert(chunk_ids@.skip(0) =~= chunk_ids@);
    }
    while i < chunk_ids.len()
        invariant
            *state == *old(state),
            old(state).wf(),
            cm == state.chunks(),
            old(state).batches().contains_key(batch_id),
            now <= old(state).batches()[batch_id].expires_at,
            i <= chunk_ids@.len(),
            spec_chunk_error(cm, chunk_ids@, batch_id) == spec_chunk_error(
                cm,
                chunk_ids@.skip(i as int),
                batch_id,
            ),
            forall|j: int|
                0 <= j < i ==> cm.contains_key(#[trigger] chunk_ids@[j]) && cm[chunk_ids@[j]].batch_id
                    == batch_id,
            content_chunks@.len() == i,
            forall|j: int|
                #![auto]
                0 <= j < i ==> content_chunks@[j]@ == cm[chunk_ids@[j]].content,
        decreases chunk_ids@.len() - i,
    {
        proof {
            assert(chunk_ids@.skip(i as int)[0] == chunk_ids@[i as int]);
            assert(chunk_ids@.skip(i as int).drop_first() =~= chunk_ids@.skip(i + 1));
        }
        let id = chunk_ids[i];
        match state.runtime.chunks.get(id) {
            None => {
                return Err(BucketError::ChunkNotFound);
            },
            Some(c) => {
                if c.batch_id != batch_id {
                    return Err(BucketError::ChunkBatchMismatch);
                }
                content_chunks.push(crate::types::clone_bytes(&c.content));
            },
        }
        i = i + 1;
    }
    proof {
        assert(chunk_ids@.skip(chunk_ids@.len() as int).len() == 0);
        assert(content_chunks.deep_view() =~~= chunk_contents(cm, chunk_ids@));
    }
    if content_chunks.is_empty() {
        return Err(BucketError::EmptyCommit);
    }
    let enc = match AssetEncoding::new(content_chunks, now) {
        Ok(e) => e,
        Err(_) => {
            return Err(BucketError::ArithmeticOverflow);
        },
    };
    let full_path = batch_key.full_path.clone();
    let sha = enc.sha256;
    let mut encodings: Vec<(String, AssetEncoding)> = Vec::new();
    encodings.push(("raw".to_owned(), enc));
    let asset = Asset { key: batch_key, headers, encodings };
    let ghost b = old(state).batches()[batch_id];
    let ghost new_asset = committed_asset(b, asset.headers.deep_view(), cm, chunk_ids@, now);
    proof {
        assert(asset@.encodings =~~= new_asset.encodings);
        assert(asset@ == new_asset);
        assert(new_asset.encodings[0].0 == "raw"@);
        assert(new_asset.raw_encoding() == Some(new_asset.encodings[0].1));
        assert(new_asset.wf());
    }
    state.stable.assets.insert(asset);
    state.runtime.asset_hashes.insert(full_path, sha);
    let ghost mid = *state;
    let ghost cs = state.runtime.chunks.entries.deep_view();
    proof {
        assert(cm == id_map_of(cs));
    }
    let mut kept_chunks: Vec<(u128, Chunk)> = Vec::new();
    let mut k: usize = 0;
    while k < state.runtime.chunks.entries.len()
        invariant
            state.stable == mid.stable,
            state.runtime.asset_hashes == mid.runtime.asset_hashes,
            state.runtime.batches == mid.runtime.batches,
            state.runtime.chunks.entries.deep_view() == cs,
            crate::registry::unique_ids(cs),
            k <= cs.len(),
            crate::registry::unique_ids(kept_chunks.deep_view()),
            id_map_of(kept_chunks.deep_view()) == chunks_without_batch(
                id_map_of(cs.take(k as int)),
                batch_id,
            ),
            forall|a: int|
                0 <= a < kept_chunks.deep_view().len() ==> id_map_of(cs.take(k as int)).contains_key(
                    #[trigger] kept_chunks.deep_view()[a].0,
                ),
        decreases cs.len() - k,
    {
        let ghost prefix = cs.take(k as int);
        let ghost kdv = kept_chunks.deep_view();
        proof {
            assert(cs.take(k + 1).drop_last() =~= prefix);
            assert(cs.take(k + 1).last() == cs[k as int]);
            assert(crate::registry::unique_ids(prefix)) by {
                assert forall|a: int, b: int| 0 <= a < b < prefix.len() implies prefix[a].0
                    != prefix[b].0 by {
                    assert(prefix[a] == cs[a]);
                    assert(prefix[b] == cs[b]);
                }
            }
            assert forall|x: int| 0 <= x < prefix.len() implies prefix[x].0 != cs[k as int].0 by {
                assert(prefix[x] == cs[x]);
            }
            crate::registry::lemma_id_map_absent(prefix, cs[k as int].0);
        }
        let e = &state.runtime.chunks.entries[k];
        proof {
            assert(e.deep_view() == cs[k as int]);
        }
        if e.1.batch_id != batch_id {
            let kept = Chunk {
                batch_id: e.1.batch_id,
                content: crate::types::clone_bytes(&e.1.content),
            };
            kept_chunks.push((e.0, kept));
            proof {
                assert(kept_chunks.deep_view() =~~= kdv.push(cs[k as int]));
                crate::registry::lemma_id_map_push(kdv, cs[k as int]);
                assert(chunks_without_batch(id_map_of(cs.take(k + 1)), batch_id)
                    =~= id_map_of(kdv).insert(cs[k as int].0, cs[k as int].1));
                assert forall|a: int, b: int|
                    0 <= a < b < kept_chunks.deep_view().len() implies kept_chunks.deep_view()[a].0
                    != kept_chunks.deep_view()[b].0 by {
                    if b == kdv.len() {
                        assert(kept_chunks.deep_view()[a] == kdv[a]);
                    } else {
                        assert(kept_chunks.deep_view()[a] == kdv[a]);
                        assert(kept_chunks.deep_view()[b] == kdv[b]);
                    }
                }
            }
        } else {
            proof {
                assert(chunks_without_batch(id_map_of(cs.take(k + 1)), batch_id)
                    =~= id_map_of(kdv));
            }
        }
        k = k + 1;
    }
    proof {
        assert(cs.take(cs.len() as int) =~= cs);
    }
    state.runtime.chunks.entries = kept_chunks;
    state.runtime.batches.remove(batch_id);
    proof {
        assert(final(state).assets() == old(state).assets().insert(b.key.full_path, new_asset));
        assert(final(state).tree() =~= old(state).tree().insert(
            b.key.full_path,
            sha256_of(chunk_contents(cm, chunk_ids@).flatten()),
        ));
        assert forall|p: Seq<char>| #[trigger] state.assets().contains_key(p) implies state.assets()[p].wf()
            && state.assets()[p].key.full_path == p by {
            if p != b.key.full_path {
                assert(old(state).assets().contains_key(p));
            }
        }
        assert(state.tree().dom() =~= state.assets().dom());
        assert forall|p: Seq<char>| #[trigger] state.assets().contains_key(p) implies state.tree()[p]
            == state.assets()[p].raw_sha() by {
            if p != b.key.full_path {
                assert(old(state).assets().contains_key(p));
            }
        }
        assert forall|id: u128| #[trigger] state.batches().contains_key(id) implies id
            <= state.stable.next_batch_id by {
            assert(old(state).batches().contains_key(id));
        }
        assert forall|id: u128| #[trigger] state.chunks().contains_key(id) implies id
            <= state.stable.next_chunk_id by {
            assert(cm.contains_key(id));
        }
    }
    Ok(())
}


/// How a lookup with an optional access token resolves: the asset must
/// exist at `path`, and if it carries a token the caller must supply
/// exactly that token; a public asset ignores any supplied token.
pub open spec fn spec_get_asset(
    assets: Map<Seq<char>, AssetV>,
    path: Seq<char>,
    token: Option<Seq<char>>,
) -> Result<AssetV, BucketError> {
    if !assets.contains_key(path) {
        Err(BucketError::NotFound)
    } else {
        let a = assets[path];
        match a.key.id {
            None => Ok(a),
            Some(t) => match token {
                None => Err(BucketError::NoTokenProvided),
                Some(tok) => if tok == t {
                    Ok(a)
                } else {
                    Err(BucketError::InvalidToken)
                },
            },
        }
    }
}

/// Access check for a token-protected asset.
fn get_protected_asset(asset: &Asset, asset_token: &String, token: Option<String>) -> (r: Result<
    Asset,
    BucketError,
>)
    ensures
        match token.deep_view() {
            None => r == Err::<Asset, BucketError>(BucketError::NoTokenProvided),
            Some(t) => if t == asset_token@ {
                r matches Ok(a) && a@ == asset@
            } else {
                r == Err::<Asset, BucketError>(BucketError::InvalidToken)
            },
        },
{
    match token {
        None => Err(BucketError::NoTokenProvided),
        Some(tok) => {
            if str_eq(tok.as_str(), asset_token.as_str()) {
                Ok(asset.duplicate())
            } else {
                Err(BucketError::InvalidToken)
            }
        },
    }
}

/// Looks up the asset at `full_path`, enforcing its access token if it has
/// one. Returns a copy of the committed asset.
pub fn get_asset(state: &State, full_path: &str, token: Option<String>) -> (r: Result<
    Asset,
    BucketError,
>)
    requires
        state.wf(),
    ensures
        match r {
            Ok(a) => spec_get_asset(state.assets(), full_path@, token.deep_view())
                == Ok::<AssetV, BucketError>(a@),
            Err(e) => spec_get_asset(state.assets(), full_path@, token.deep_view())
                == Err::<AssetV, BucketError>(e),
        },
{
    match state.stable.assets.get(full_path) {
        None => Err(BucketError::NotFound),
        Some(asset) => {
            match &asset.key.id {
                None => Ok(asset.duplicate()),
                Some(asset_token) => get_protected_asset(asset, asset_token, token),
            }
        },
    }
}

/// The number of leading `\'/\'` characters.
pub open spec fn leading_slashes(s: Seq<char>) -> int
    decreases s.len(),
{
    if s.len() == 0 || s[0] != '/' {
        0
    } else {
        1 + leading_slashes(s.drop_first())
    }
}

proof fn lemma_leading_slashes(s: Seq<char>, j: int)
    requires
        0 <= j <= s.len(),
        forall|k: int| 0 <= k < j ==> s[k] == '/',
        j == s.len() || s[j] != '/',
    ensures
        leading_slashes(s) == j,
    decreases s.len(),
{
    if j == 0 {
    } else {
        assert(s[0] == '/');
        assert forall|k: int| 0 <= k < j - 1 implies s.drop_first()[k] == '/' by {
            assert(s.drop_first()[k] == s[k + 1]);
        }
        if j < s.len() {
            assert(s.drop_first()[j - 1] == s[j]);
        }
        lemma_leading_slashes(s.drop_first(), j - 1);
    }
}

/// Splits a URL at the first `?token=`: the path part, and the token (up
/// to the next `?token=` or the end), if one was given.
pub open spec fn spec_url_parts(url: Seq<char>) -> (Seq<char>, Option<Seq<char>>) {
    let pat = "?token="@;
    match spec_find(url, pat, 0) {
        None => (url, None),
        Some(i) => {
            let tok_end = match spec_find(url, pat, i + pat.len()) {
                Some(j) => j,
                None => url.len() as int,
            };
            (url.take(i), Some(url.subrange(i + pat.len(), tok_end)))
        },
    }
}

/// The canonical full path: one leading slash, then the path with all its
/// own leading slashes stripped.
pub open spec fn spec_normalize(path_part: Seq<char>) -> Seq<char> {
    "/"@ + path_part.skip(leading_slashes(path_part))
}

/// How a request URL resolves against the registry: an empty URL is
/// rejected; otherwise the optional `?token=` suffix is split off, the
/// path is normalized, `/index.html` maps to `/`, and the asset is looked
/// up under the token rule of [`spec_get_asset`].
pub open spec fn spec_resolve_url(assets: Map<Seq<char>, AssetV>, url: Seq<char>) -> Result<
    AssetV,
    BucketError,
> {
    if url.len() == 0 {
        Err(BucketError::BadRequest)
    } else {
        let parts = spec_url_parts(url);
        let normalized = spec_normalize(parts.0);
        let full_path = if normalized == "/index.html"@ {
            "/"@
        } else {
            normalized
        };
        spec_get_asset(assets, full_path, parts.1)
    }
}

/// Resolves a request URL: splits off the access token, normalizes the
/// path, and looks the asset up.
#[verifier::loop_isolation(false)]
pub fn get_asset_for_url(state: &State, url: &str) -> (r: Result<Asset, BucketError>)
    requires
        state.wf(),
    ensures
        match r {
            Ok(a) => spec_resolve_url(state.assets(), url@) == Ok::<AssetV, BucketError>(a@),
            Err(e) => spec_resolve_url(state.assets(), url@) == Err::<AssetV, BucketError>(e),
        },
{
    let url_len = url.unicode_len();
    if url_len == 0 {
        return Err(BucketError::BadRequest);
    }
    let pat = "?token=";
    let pat_len = pat.unicode_len();
    assert(pat_len > 0) by {
        reveal_strlit("?token=");
    }
    let (path_part, token): (&str, Option<String>) = match find_str(url, pat, 0) {
        Some(i) => {
            proof {
                crate::text::lemma_spec_find_bounds(url@, pat@, 0, i as int);
            }
            let tok_end = match find_str(url, pat, i + pat_len) {
                Some(j) => {
                    proof {
                        crate::text::lemma_spec_find_bounds(url@, pat@, i + pat_len, j as int);
                    }
                    j
                },
                None => url_len,
            };
            let tok = url.substring_char(i + pat_len, tok_end).to_owned();
            (url.substring_char(0, i), Some(tok))
        },
        None => (url, None),
    };
    let path_len = path_part.unicode_len();
    let mut j: usize = 0;
    while j < path_len && path_part.get_char(j) == '/'
        invariant
            j <= path_len,
            forall|k: int| 0 <= k < j ==> path_part@[k] == '/',
        decreases path_len - j,
    {
        j = j + 1;
    }
    proof {
        lemma_leading_slashes(path_part@, j as int);
    }
    let trimmed = path_part.substring_char(j, path_len);
    let mut full_path = String::new();
    full_path.append("/");
    full_path.append(trimmed);
    proof {
        assert(full_path@ == spec_normalize(path_part@));
    }
    if str_eq(full_path.as_str(), "/index.html") {
        get_asset(state, "/", token)
    } else {
        get_asset(state, full_path.as_str(), token)
    }
}

/// Deletes the asset named by `param`, under the same access rule as a
/// read: the hash tree leaf goes with it, and the caller must publish the
/// new certified root hash. Returns the removed asset.
pub fn delete_asset(state: &mut State, param: Del) -> (r: Result<Asset, BucketError>)
    requires
        old(state).wf(),
    ensures
        final(state).wf(),
        final(state).runtime.batches == old(state).runtime.batches,
        final(state).runtime.chunks == old(state).runtime.chunks,
        final(state).stable.next_batch_id == old(state).stable.next_batch_id,
        final(state).stable.next_chunk_id == old(state).stable.next_chunk_id,
        final(state).stable.user == old(state).stable.user,
        match r {
            Ok(a) => {
                &&& spec_get_asset(
                    old(state).assets(),
                    param.full_path@,
                    param.token.deep_view(),
                ) == Ok::<AssetV, BucketError>(a@)
                &&& final(state).assets() == old(state).assets().remove(param.full_path@)
                &&& final(state).tree() == old(state).tree().remove(param.full_path@)
            },
            Err(e) => {
                &&& spec_get_asset(
                    old(state).assets(),
                    param.full_path@,
                    param.token.deep_view(),
                ) == Err::<AssetV, BucketError>(e)
                &&& *final(state) == *old(state)
            },
        },
{
    let Del { full_path, token } = param;
    match state.stable.assets.get(full_path.as_str()) {
        None => {
            return Err(BucketError::NotFound);
        },
        Some(asset) => {
            match &asset.key.id {
                None => {},
                Some(asset_token) => {
                    match &token {
                        None => {
                            return Err(BucketError::NoTokenProvided);
                        },
                        Some(tok) => {
                            if !str_eq(tok.as_str(), asset_token.as_str()) {
                                return Err(BucketError::InvalidToken);
                            }
                        },
                    }
                },
            }
        },
    }
    let removed = state.stable.assets.remove(full_path.as_str());
    let asset = match removed {
        Some(a) => a,
        None => {
            proof {
                assert(false);
            }
            unreached()
        },
    };
    state.runtime.asset_hashes.delete(full_path.as_str());
    proof {
        assert forall|p: Seq<char>| #[trigger] state.assets().contains_key(p) implies state.assets()[p].wf()
            && state.assets()[p].key.full_path == p by {
            assert(old(state).assets().contains_key(p));
        }
        assert(state.tree().dom() =~= state.assets().dom());
        assert forall|p: Seq<char>| #[trigger] state.assets().contains_key(p) implies state.tree()[p]
            == state.assets()[p].raw_sha() by {
            assert(old(state).assets().contains_key(p));
        }
        assert forall|id: u128| #[trigger] state.batches().contains_key(id) implies id
            <= state.stable.next_batch_id by {
            assert(old(state).batches().contains_key(id));
        }
        assert forall|id: u128| #[trigger] state.chunks().contains_key(id) implies id
            <= state.stable.next_chunk_id by {
            assert(old(state).chunks().contains_key(id));
        }
    }
    Ok(asset)
}

/// The keys of the committed assets in registry order, optionally only
/// those in `folder`.
pub open spec fn spec_keys(s: Seq<AssetV>, folder: Option<Seq<char>>) -> Seq<AssetKeyV>
    decreases s.len(),
{
    if s.len() == 0 {
        Seq::empty()
    } else {
        let rest = spec_keys(s.drop_last(), folder);
        let k = s.last().key;
        match folder {
            None => rest.push(k),
            Some(f) => if k.folder == f {
                rest.push(k)
            } else {
                rest
            },
        }
    }
}

/// Lists the metadata of all committed assets, optionally filtered by
/// folder; content is not included.
#[verifier::loop_isolation(false)]
pub fn get_keys(state: &State, folder: Option<String>) -> (r: Vec<AssetKey>)
    requires
        state.wf(),
    ensures
        r.deep_view() == spec_keys(state.stable.assets.list.deep_view(), folder.deep_view()),
{
    let ghost s = state.stable.assets.list.deep_view();
    let mut out: Vec<AssetKey> = Vec::new();
    let mut i: usize = 0;
    while i < state.stable.assets.list.len()
        invariant
            i <= s.len(),
            out.deep_view() == spec_keys(s.take(i as int), folder.deep_view()),
        decreases s.len() - i,
    {
        let ghost prev = out.deep_view();
        proof {
            assert(s.take(i + 1).drop_last() =~= s.take(i as int));
            assert(s.take(i + 1).last() == s[i as int]);
        }
        let a = &state.stable.assets.list[i];
        match &folder {
            None => {
                out.push(a.key.duplicate());
                proof {
                    assert(out.deep_view() =~~= prev.push(s[i as int].key));
                }
            },
            Some(f) => {
                if str_eq(a.key.folder.as_str(), f.as_str()) {
                    out.push(a.key.duplicate());
                    proof {
                        assert(out.deep_view() =~~= prev.push(s[i as int].key));
                    }
                }
            },
        }
        i = i + 1;
    }
    proof {
        assert(s.take(s.len() as int) =~= s);
    }
    out
}

/// The number of committed assets.
pub fn get_len(state: &State) -> (r: usize)
    requires
        state.wf(),
    ensures
        r == state.assets().dom().len(),
{
    state.stable.assets.len()
}


/// The hash-tree leaves a replay of `s` produces: one per asset, holding
/// its raw content digest; later assets win, as in the registry map.
pub open spec fn spec_tree_of(s: Seq<AssetV>) -> Map<Seq<char>, Seq<u8>>
    decreases s.len(),
{
    if s.len() == 0 {
        Map::empty()
    } else {
        spec_tree_of(s.drop_last()).insert(s.last().key.full_path, s.last().raw_sha())
    }
}

/// A replayed tree mirrors the registry map exactly.
proof fn lemma_tree_of_matches(s: Seq<AssetV>)
    ensures
        spec_tree_of(s).dom() == crate::registry::path_map(s).dom(),
        forall|p: Seq<char>|
            #[trigger] crate::registry::path_map(s).contains_key(p) ==> spec_tree_of(s)[p]
                == crate::registry::path_map(s)[p].raw_sha(),
    decreases s.len(),
{
    if s.len() > 0 {
        lemma_tree_of_matches(s.drop_last());
        assert(spec_tree_of(s).dom() =~= crate::registry::path_map(s).dom());
        assert forall|p: Seq<char>|
            #[trigger] crate::registry::path_map(s).contains_key(p) implies spec_tree_of(s)[p]
            == crate::registry::path_map(s)[p].raw_sha() by {
            if p != s.last().key.full_path {
                assert(crate::registry::path_map(s.drop_last()).contains_key(p));
            }
        }
    } else {
        assert(spec_tree_of(s).dom() =~= crate::registry::path_map(s).dom());
    }
}

impl StableState {
    /// Whether this snapshot can be restored: full paths are pairwise
    /// distinct and every asset passes its integrity check. True of every
    /// snapshot this library produces; false of a corrupted one.
    #[verifier::loop_isolation(false)]
    pub fn validate(&self) -> (r: bool)
        ensures
            r == (self.assets.wf() && (forall|p: Seq<char>|
                #[trigger] self.assets.m().contains_key(p) ==> self.assets.m()[p].wf()
                    && self.assets.m()[p].key.full_path == p)),
    {
        let ghost s = self.assets.list.deep_view();
        let n = self.assets.list.len();
        let mut i: usize = 0;
        while i < n
            invariant
                n == s.len(),
                i <= n,
                forall|a: int, b: int|
                    #![trigger s[a], s[b]]
                    0 <= a < b < s.len() && a < i ==> s[a].key.full_path != s[b].key.full_path,
            decreases n - i,
        {
            let mut j: usize = i + 1;
            while j < n
                invariant
                    n == s.len(),
                    i < j || j == i + 1,
                    i < n,
                    j <= n,
                    forall|b: int| i < b < j ==> s[i as int].key.full_path != (#[trigger] s[b]).key.full_path,
                forall|a: int, b: int|
                    #![trigger s[a], s[b]]
                    0 <= a < b < s.len() && a < i ==> s[a].key.full_path != s[b].key.full_path,
                decreases n - j,
            {
                if str_eq(
                    self.assets.list[i].key.full_path.as_str(),
                    self.assets.list[j].key.full_path.as_str(),
                ) {
                    proof {
                        assert(s[i as int].key.full_path == s[j as int].key.full_path);
                        assert(!crate::registry::unique_paths(s));
                    }
                    return false;
                }
                j = j + 1;
            }
            i = i + 1;
        }
        proof {
            assert(crate::registry::unique_paths(s));
        }
        let mut k: usize = 0;
        while k < n
            invariant
                n == s.len(),
                k <= n,
                crate::registry::unique_paths(s),
                forall|a: int| 0 <= a < k ==> (#[trigger] s[a]).wf(),
            decreases n - k,
        {
            if !self.assets.list[k].check_integrity() {
                proof {
                    crate::registry::lemma_path_map_index(s, k as int);
                    assert(self.assets.m().contains_key(s[k as int].key.full_path));
                    assert(!self.assets.m()[s[k as int].key.full_path].wf());
                }
                return false;
            }
            k = k + 1;
        }
        proof {
            assert forall|p: Seq<char>| #[trigger] self.assets.m().contains_key(p) implies self.assets.m()[p].wf()
                && self.assets.m()[p].key.full_path == p by {
                let idx = crate::registry::lemma_path_map_contains(s, p);
            }
        }
        true
    }
}

impl State {
    /// Rebuilds the volatile state from a snapshot of unknown origin: the
    /// snapshot is validated first, and the store is rebuilt only when it
    /// is a well-formed registry. This is the entry to use for snapshots
    /// read back from storage.
    pub fn restore_validated(stable: StableState) -> (r: Option<State>)
        ensures
            match r {
                Some(state) => {
                    &&& state.wf()
                    &&& state.stable == stable
                    &&& state.batches() == Map::<u128, BatchV>::empty()
                    &&& state.chunks() == Map::<u128, ChunkV>::empty()
                },
                None => !(stable.assets.wf() && (forall|p: Seq<char>|
                    #[trigger] stable.assets.m().contains_key(p) ==> stable.assets.m()[p].wf()
                        && stable.assets.m()[p].key.full_path == p)),
            },
    {
        if stable.validate() {
            Some(State::restore(stable))
        } else {
            None
        }
    }
}

impl State {
    /// Rebuilds the volatile state from a durable snapshot: staging maps
    /// start empty, the identifier counters continue from their persisted
    /// values, and the hash tree is replayed from the registry. The
    /// caller must publish the resulting certified root hash before
    /// serving reads.
    #[verifier::loop_isolation(false)]
    pub fn restore(stable: StableState) -> (r: State)
        requires
            stable.assets.wf(),
            forall|p: Seq<char>|
                #[trigger] stable.assets.m().contains_key(p) ==> stable.assets.m()[p].wf()
                    && stable.assets.m()[p].key.full_path == p,
        ensures
            r.wf(),
            r.stable == stable,
            r.batches() == Map::<u128, BatchV>::empty(),
            r.chunks() == Map::<u128, ChunkV>::empty(),
    {
        let ghost s = stable.assets.list.deep_view();
        proof {
            assert forall|i: int| 0 <= i < s.len() implies (#[trigger] s[i]).wf() by {
                crate::registry::lemma_path_map_index(s, i);
                assert(stable.assets.m().contains_key(s[i].key.full_path));
            }
        }
        let mut asset_hashes = AssetHashes::new();
        let mut i: usize = 0;
        proof {
            assert(asset_hashes.entries() =~= spec_tree_of(s.take(0)));
        }
        while i < stable.assets.list.len()
            invariant
                i <= s.len(),
                asset_hashes.entries() == spec_tree_of(s.take(i as int)),
            decreases s.len() - i,
        {
            proof {
                assert(s.take(i + 1).drop_last() =~= s.take(i as int));
                assert(s.take(i + 1).last() == s[i as int]);
                crate::registry::lemma_path_map_index(s, i as int);
            }
            let a = &stable.assets.list[i];
            let digest = a.encoding_raw().sha256;
            asset_hashes.insert(a.key.full_path.clone(), digest);
            i = i + 1;
        }
        proof {
            assert(s.take(s.len() as int) =~= s);
            lemma_tree_of_matches(s);
        }
        let r = State {
            stable,
            runtime: RuntimeState { chunks: IdMap::new(), batches: IdMap::new(), asset_hashes },
        };
        proof {
            assert(r.tree().dom() =~= r.assets().dom());
        }
        r
    }

    /// Extracts the durable subset, to be persisted before teardown. The
    /// identifier counters travel with it, so a restored store never
    /// reuses a batch or chunk identifier.
    pub fn snapshot(&self) -> (r: StableState)
        requires
            self.wf(),
        ensures
            r.assets.wf(),
            r.assets.m() == self.assets(),
            r.assets.list.deep_view() == self.stable.assets.list.deep_view(),
            r.user.deep_view() == self.stable.user.deep_view(),
            r.next_batch_id == self.stable.next_batch_id,
            r.next_chunk_id == self.stable.next_chunk_id,
    {
        let user = match &self.stable.user {
            Some(u) => Some(crate::types::clone_bytes(u)),
            None => None,
        };
        let mut list: Vec<Asset> = Vec::new();
        let mut i: usize = 0;
        while i < self.stable.assets.list.len()
            invariant
                i <= self.stable.assets.list@.len(),
                list@.len() == i,
                forall|j: int| #![auto] 0 <= j < i ==> list@[j]@ == self.stable.assets.list@[j]@,
            decreases self.stable.assets.list@.len() - i,
        {
            list.push(self.stable.assets.list[i].duplicate());
            i = i + 1;
        }
        proof {
            assert(list.deep_view() =~~= self.stable.assets.list.deep_view());
        }
        StableState {
            user,
            assets: Assets { list },
            next_batch_id: self.stable.next_batch_id,
            next_chunk_id: self.stable.next_chunk_id,
        }
    }
}

/// Tree consistency: in any well-formed state, every committed path has a
/// hash-tree leaf holding the SHA-256 digest of that asset's raw content,
/// and no other leaves exist. Commits and deletions preserve
/// well-formedness, so this holds after every mutation.
pub proof fn lemma_tree_consistency(s: State)
    requires
        s.wf(),
    ensures
        forall|p: Seq<char>|
            #[trigger] s.assets().contains_key(p) ==> s.tree().contains_key(p) && s.tree()[p]
                == sha256_of(s.assets()[p].raw_content()),
        forall|p: Seq<char>| !s.assets().contains_key(p) ==> !(#[trigger] s.tree().contains_key(p)),
{
    assert forall|p: Seq<char>| #[trigger] s.assets().contains_key(p) implies s.tree().contains_key(
        p,
    ) && s.tree()[p] == sha256_of(s.assets()[p].raw_content()) by {
        assert(s.assets()[p].wf());
    }
}

/// Idempotent overwrite: committing over an occupied path fully replaces
/// the asset. After the registry update of a successful commit, the path
/// maps to the new asset alone, every other path is untouched, and no
/// lookup can reach the old headers, content or digest.
pub proof fn lemma_commit_overwrites(
    assets: Map<Seq<char>, AssetV>,
    path: Seq<char>,
    fresh: AssetV,
)
    requires
        assets.contains_key(path),
    ensures
        assets.insert(path, fresh)[path] == fresh,
        forall|q: Seq<char>|
            q != path ==> (#[trigger] assets.insert(path, fresh).contains_key(q)
                <==> assets.contains_key(q)),
        forall|q: Seq<char>|
            q != path && assets.contains_key(q) ==> #[trigger] assets.insert(path, fresh)[q]
                == assets[q],
{
}

} // verus!
