use cdn_bucket::errors::BucketError;
use cdn_bucket::store::{
    commit_batch, create_batch, create_chunk, delete_asset, get_asset, get_keys, get_len, State,
    BATCH_EXPIRY_NANOS,
};
use cdn_bucket::types::{AssetKey, Chunk, CommitBatch, Del, HeaderField};

fn key(full_path: &str, folder: &str, id: Option<&str>) -> AssetKey {
    AssetKey {
        name: full_path.trim_start_matches('/').to_string(),
        created: 0,
        folder: folder.to_string(),
        full_path: full_path.to_string(),
        id: id.map(|s| s.to_string()),
        size: 0,
        preview: None,
    }
}

fn commit_asset(state: &mut State, k: AssetKey, chunks: &[&[u8]], headers: Vec<HeaderField>, now: u64) {
    let batch_id = create_batch(state, k, now);
    let mut ids = Vec::new();
    for c in chunks {
        let id = create_chunk(state, Chunk { batch_id, content: c.to_vec() }, now).unwrap();
        ids.push(id);
    }
    commit_batch(state, CommitBatch { batch_id, headers, chunk_ids: ids }, now).unwrap();
}

#[test]
fn batch_ids_start_at_one_and_increase() {
    let mut state = State::init();
    assert_eq!(create_batch(&mut state, key("/a", "", None), 0), 1);
    assert_eq!(create_batch(&mut state, key("/b", "", None), 0), 2);
    assert_eq!(create_batch(&mut state, key("/c", "", None), 0), 3);
}

#[test]
fn chunk_upload_against_unknown_batch_fails() {
    let mut state = State::init();
    let r = create_chunk(&mut state, Chunk { batch_id: 7, content: b"x".to_vec() }, 0);
    assert_eq!(r, Err(BucketError::BatchNotFound));
}

#[test]
fn chunk_upload_after_expiry_is_rejected() {
    let mut state = State::init();
    let batch_id = create_batch(&mut state, key("/a", "", None), 0);
    // at exactly the deadline the batch is still alive
    let ok = create_chunk(
        &mut state,
        Chunk { batch_id, content: b"x".to_vec() },
        BATCH_EXPIRY_NANOS,
    );
    assert!(ok.is_ok());
    // the accepted chunk slid the window; jump past the new deadline
    let r = create_chunk(
        &mut state,
        Chunk { batch_id, content: b"y".to_vec() },
        2 * BATCH_EXPIRY_NANOS + 1,
    );
    assert_eq!(r, Err(BucketError::BatchNotFound));
}

#[test]
fn commit_at_exact_deadline_succeeds() {
    let mut state = State::init();
    let batch_id = create_batch(&mut state, key("/a", "", None), 0);
    let id = create_chunk(&mut state, Chunk { batch_id, content: b"x".to_vec() }, 0).unwrap();
    let r = commit_batch(
        &mut state,
        CommitBatch { batch_id, headers: vec![], chunk_ids: vec![id] },
        BATCH_EXPIRY_NANOS,
    );
    assert_eq!(r, Ok(()));
    assert_eq!(get_len(&state), 1);
}

#[test]
fn commit_one_past_deadline_fails_expired() {
    let mut state = State::init();
    let batch_id = create_batch(&mut state, key("/a", "", None), 0);
    let id = create_chunk(&mut state, Chunk { batch_id, content: b"x".to_vec() }, 0).unwrap();
    let r = commit_batch(
        &mut state,
        CommitBatch { batch_id, headers: vec![], chunk_ids: vec![id] },
        BATCH_EXPIRY_NANOS + 1,
    );
    assert_eq!(r, Err(BucketError::BatchExpired));
    assert_eq!(get_len(&state), 0);
    // the expired batch was swept: a retry no longer finds it
    let r2 = commit_batch(
        &mut state,
        CommitBatch { batch_id, headers: vec![], chunk_ids: vec![id] },
        BATCH_EXPIRY_NANOS + 2,
    );
    assert_eq!(r2, Err(BucketError::NoBatch));
}

#[test]
fn commit_unknown_batch_fails() {
    let mut state = State::init();
    let r = commit_batch(
        &mut state,
        CommitBatch { batch_id: 9, headers: vec![], chunk_ids: vec![] },
        0,
    );
    assert_eq!(r, Err(BucketError::NoBatch));
}

#[test]
fn commit_with_no_chunks_fails_empty() {
    let mut state = State::init();
    let batch_id = create_batch(&mut state, key("/a", "", None), 0);
    let r = commit_batch(
        &mut state,
        CommitBatch { batch_id, headers: vec![], chunk_ids: vec![] },
        0,
    );
    assert_eq!(r, Err(BucketError::EmptyCommit));
}

#[test]
fn commit_with_unknown_chunk_fails() {
    let mut state = State::init();
    let batch_id = create_batch(&mut state, key("/a", "", None), 0);
    let r = commit_batch(
        &mut state,
        CommitBatch { batch_id, headers: vec![], chunk_ids: vec![42] },
        0,
    );
    assert_eq!(r, Err(BucketError::ChunkNotFound));
}

#[test]
fn commit_with_foreign_chunk_fails_mismatch() {
    let mut state = State::init();
    let batch_a = create_batch(&mut state, key("/a", "", None), 0);
    let batch_b = create_batch(&mut state, key("/b", "", None), 0);
    let in_b = create_chunk(&mut state, Chunk { batch_id: batch_b, content: b"x".to_vec() }, 0)
        .unwrap();
    let r = commit_batch(
        &mut state,
        CommitBatch { batch_id: batch_a, headers: vec![], chunk_ids: vec![in_b] },
        0,
    );
    assert_eq!(r, Err(BucketError::ChunkBatchMismatch));
}

#[test]
fn chunk_upload_slides_the_expiry_window() {
    let mut state = State::init();
    let batch_id = create_batch(&mut state, key("/a", "", None), 0);
    let id = create_chunk(
        &mut state,
        Chunk { batch_id, content: b"x".to_vec() },
        BATCH_EXPIRY_NANOS - 1,
    )
    .unwrap();
    // past the first deadline, within the slid one
    let r = commit_batch(
        &mut state,
        CommitBatch { batch_id, headers: vec![], chunk_ids: vec![id] },
        2 * BATCH_EXPIRY_NANOS - 2,
    );
    assert_eq!(r, Ok(()));
}

#[test]
fn batch_can_be_committed_at_most_once() {
    let mut state = State::init();
    let batch_id = create_batch(&mut state, key("/a", "", None), 0);
    let id = create_chunk(&mut state, Chunk { batch_id, content: b"x".to_vec() }, 0).unwrap();
    commit_batch(
        &mut state,
        CommitBatch { batch_id, headers: vec![], chunk_ids: vec![id] },
        0,
    )
    .unwrap();
    let r = commit_batch(
        &mut state,
        CommitBatch { batch_id, headers: vec![], chunk_ids: vec![id] },
        0,
    );
    assert_eq!(r, Err(BucketError::NoBatch));
}

#[test]
fn creating_a_batch_sweeps_expired_state() {
    let mut state = State::init();
    let stale = create_batch(&mut state, key("/a", "", None), 0);
    create_chunk(&mut state, Chunk { batch_id: stale, content: b"x".to_vec() }, 0).unwrap();
    // a fresh batch start far in the future reclaims the stale batch and chunk
    create_batch(&mut state, key("/b", "", None), BATCH_EXPIRY_NANOS * 2);
    let r = create_chunk(
        &mut state,
        Chunk { batch_id: stale, content: b"y".to_vec() },
        BATCH_EXPIRY_NANOS * 2,
    );
    assert_eq!(r, Err(BucketError::BatchNotFound));
}

#[test]
fn commit_removes_unlisted_chunks_of_the_batch() {
    let mut state = State::init();
    let batch_id = create_batch(&mut state, key("/a", "", None), 0);
    let listed = create_chunk(&mut state, Chunk { batch_id, content: b"kept".to_vec() }, 0)
        .unwrap();
    let unlisted = create_chunk(&mut state, Chunk { batch_id, content: b"stray".to_vec() }, 0)
        .unwrap();
    commit_batch(
        &mut state,
        CommitBatch { batch_id, headers: vec![], chunk_ids: vec![listed] },
        0,
    )
    .unwrap();
    let asset = get_asset(&state, "/a", None).unwrap();
    assert_eq!(asset.encodings[0].1.content_chunks, vec![b"kept".to_vec()]);
    // the unlisted chunk of the committed batch is gone too
    let other = create_batch(&mut state, key("/b", "", None), 0);
    let r = commit_batch(
        &mut state,
        CommitBatch { batch_id: other, headers: vec![], chunk_ids: vec![unlisted] },
        0,
    );
    assert_eq!(r, Err(BucketError::ChunkNotFound));
}

#[test]
fn commit_keeps_chunks_of_other_batches() {
    let mut state = State::init();
    let batch_a = create_batch(&mut state, key("/a", "", None), 0);
    let batch_b = create_batch(&mut state, key("/b", "", None), 0);
    let in_a = create_chunk(&mut state, Chunk { batch_id: batch_a, content: b"a".to_vec() }, 0)
        .unwrap();
    let in_b = create_chunk(&mut state, Chunk { batch_id: batch_b, content: b"b".to_vec() }, 0)
        .unwrap();
    commit_batch(
        &mut state,
        CommitBatch { batch_id: batch_a, headers: vec![], chunk_ids: vec![in_a] },
        0,
    )
    .unwrap();
    let r = commit_batch(
        &mut state,
        CommitBatch { batch_id: batch_b, headers: vec![], chunk_ids: vec![in_b] },
        0,
    );
    assert_eq!(r, Ok(()));
}

#[test]
fn commit_overwrites_previous_asset_completely() {
    let mut state = State::init();
    let old_header = HeaderField("Content-Type".to_string(), "text/plain".to_string());
    commit_asset(&mut state, key("/a.txt", "", None), &[b"one"], vec![old_header], 0);
    let new_header = HeaderField("Cache-Control".to_string(), "no-store".to_string());
    commit_asset(&mut state, key("/a.txt", "", None), &[b"two"], vec![new_header], 0);
    assert_eq!(get_len(&state), 1);
    let asset = get_asset(&state, "/a.txt", None).unwrap();
    assert_eq!(asset.headers.len(), 1);
    assert_eq!(asset.headers[0].0, "Cache-Control");
    assert_eq!(asset.headers[0].1, "no-store");
    assert_eq!(asset.encodings.len(), 1);
    assert_eq!(asset.encodings[0].0, "raw");
    assert_eq!(asset.encodings[0].1.content_chunks, vec![b"two".to_vec()]);
    assert_eq!(asset.encodings[0].1.total_length, 3);
}

#[test]
fn get_asset_enforces_access_token() {
    let mut state = State::init();
    commit_asset(&mut state, key("/s", "", Some("secret")), &[b"data"], vec![], 0);
    assert_eq!(
        get_asset(&state, "/s", None).unwrap_err(),
        BucketError::NoTokenProvided
    );
    assert_eq!(
        get_asset(&state, "/s", Some("wrong".to_string())).unwrap_err(),
        BucketError::InvalidToken
    );
    assert!(get_asset(&state, "/s", Some("secret".to_string())).is_ok());
}

#[test]
fn get_asset_on_public_asset_ignores_token() {
    let mut state = State::init();
    commit_asset(&mut state, key("/p", "", None), &[b"data"], vec![], 0);
    assert!(get_asset(&state, "/p", Some("anything".to_string())).is_ok());
}

#[test]
fn get_asset_missing_path_fails() {
    let state = State::init();
    assert_eq!(get_asset(&state, "/no", None).unwrap_err(), BucketError::NotFound);
}

#[test]
fn delete_asset_removes_it() {
    let mut state = State::init();
    commit_asset(&mut state, key("/a", "", None), &[b"x"], vec![], 0);
    let removed = delete_asset(
        &mut state,
        Del { full_path: "/a".to_string(), token: None },
    )
    .unwrap();
    assert_eq!(removed.key.full_path, "/a");
    assert_eq!(get_len(&state), 0);
    assert_eq!(get_asset(&state, "/a", None).unwrap_err(), BucketError::NotFound);
}

#[test]
fn delete_asset_checks_token() {
    let mut state = State::init();
    commit_asset(&mut state, key("/s", "", Some("secret")), &[b"x"], vec![], 0);
    let r = delete_asset(&mut state, Del { full_path: "/s".to_string(), token: None });
    assert_eq!(r.unwrap_err(), BucketError::NoTokenProvided);
    let r = delete_asset(
        &mut state,
        Del { full_path: "/s".to_string(), token: Some("nope".to_string()) },
    );
    assert_eq!(r.unwrap_err(), BucketError::InvalidToken);
    assert_eq!(get_len(&state), 1);
    let r = delete_asset(
        &mut state,
        Del { full_path: "/s".to_string(), token: Some("secret".to_string()) },
    );
    assert!(r.is_ok());
    assert_eq!(get_len(&state), 0);
}

#[test]
fn get_keys_lists_all_and_filters_by_folder() {
    let mut state = State::init();
    commit_asset(&mut state, key("/img/a", "img", None), &[b"1"], vec![], 0);
    commit_asset(&mut state, key("/doc/b", "doc", None), &[b"2"], vec![], 0);
    commit_asset(&mut state, key("/img/c", "img", None), &[b"3"], vec![], 0);
    let all = get_keys(&state, None);
    assert_eq!(all.len(), 3);
    assert_eq!(all[0].full_path, "/img/a");
    assert_eq!(all[1].full_path, "/doc/b");
    assert_eq!(all[2].full_path, "/img/c");
    let img = get_keys(&state, Some("img".to_string()));
    assert_eq!(img.len(), 2);
    assert_eq!(img[0].full_path, "/img/a");
    assert_eq!(img[1].full_path, "/img/c");
}

#[test]
fn snapshot_and_restore_rebuild_the_tree() {
    let mut state = State::init();
    commit_asset(&mut state, key("/a", "", None), &[b"alpha"], vec![], 0);
    commit_asset(&mut state, key("/b", "", None), &[b"beta"], vec![], 0);
    let root_before = cdn_bucket::cert::update_certified_data_hash(&state.runtime.asset_hashes);
    let snapshot = state.snapshot();
    let restored = State::restore(snapshot);
    assert_eq!(get_len(&restored), 2);
    let root_after =
        cdn_bucket::cert::update_certified_data_hash(&restored.runtime.asset_hashes);
    assert_eq!(root_before, root_after);
    assert!(get_asset(&restored, "/a", None).is_ok());
}

#[test]
fn restore_starts_staging_fresh_but_never_reuses_ids() {
    let mut state = State::init();
    commit_asset(&mut state, key("/a", "", None), &[b"x"], vec![], 0);
    let pending = create_batch(&mut state, key("/pending", "", None), 0);
    assert_eq!(pending, 2);
    let mut restored = State::restore(state.snapshot());
    // the pending batch itself is volatile and gone after a restart
    let r = create_chunk(
        &mut restored,
        Chunk { batch_id: pending, content: b"x".to_vec() },
        0,
    );
    assert_eq!(r, Err(BucketError::BatchNotFound));
    // but its identifier is never handed out again
    assert_eq!(create_batch(&mut restored, key("/c", "", None), 0), 3);
}

#[test]
fn own_snapshots_validate_and_restore() {
    let mut state = State::init();
    commit_asset(&mut state, key("/a", "", None), &[b"alpha"], vec![], 0);
    let snapshot = state.snapshot();
    assert!(snapshot.validate());
    let restored = State::restore_validated(snapshot).expect("own snapshot must restore");
    assert_eq!(get_len(&restored), 1);
}

#[test]
fn corrupted_snapshot_is_rejected() {
    let mut state = State::init();
    commit_asset(&mut state, key("/a", "", None), &[b"alpha"], vec![], 0);
    let mut snapshot = state.snapshot();
    // flip one digest bit: the stored digest no longer matches the content
    snapshot.assets.list[0].encodings[0].1.sha256[0] ^= 1;
    assert!(!snapshot.validate());
    assert!(State::restore_validated(snapshot).is_none());
}

#[test]
fn snapshot_with_duplicate_paths_is_rejected() {
    let mut state = State::init();
    commit_asset(&mut state, key("/a", "", None), &[b"one"], vec![], 0);
    let mut snapshot = state.snapshot();
    let copy = {
        let mut other = State::init();
        commit_asset(&mut other, key("/a", "", None), &[b"two"], vec![], 0);
        other.snapshot().assets.list.remove(0)
    };
    snapshot.assets.list.push(copy);
    assert!(!snapshot.validate());
}

#[test]
fn error_messages_match_the_wire_text() {
    assert_eq!(BucketError::NotFound.message(), "No asset.");
    assert_eq!(BucketError::BatchNotFound.message(), "Batch not found.");
    assert_eq!(BucketError::NoBatch.message(), "No batch to commit.");
    assert_eq!(
        BucketError::BatchExpired.message(),
        "Batch did not complete in time. Chunks cannot be committed."
    );
    assert_eq!(BucketError::ChunkNotFound.message(), "Chunk does not exist.");
    assert_eq!(
        BucketError::ChunkBatchMismatch.message(),
        "Chunk not included in the provided batch."
    );
    assert_eq!(BucketError::EmptyCommit.message(), "No chunk to commit.");
    assert_eq!(BucketError::NoTokenProvided.message(), "No token provided.");
    assert_eq!(BucketError::InvalidToken.message(), "Invalid token.");
    assert_eq!(BucketError::NoAttestation.message(), "No certificate found.");
    assert_eq!(BucketError::BadRequest.message(), "No url provided.");
    assert_eq!(
        BucketError::SerializationFailure.message(),
        "failed to serialize hash tree"
    );
    assert_eq!(
        BucketError::ArithmeticOverflow.message(),
        "Failed to convert chunk length to u128"
    );
}
