use cdn_bucket::cert::{build_asset_certificate_header, update_certified_data_hash};
use cdn_bucket::http::{
    http_request, http_request_streaming_callback, security_headers, HttpRequest,
    StreamingCallbackToken, StreamingStrategy,
};
use cdn_bucket::errors::BucketError;
use cdn_bucket::store::{commit_batch, create_batch, create_chunk, State};
use cdn_bucket::types::{AssetKey, Chunk, CommitBatch, HeaderField};
use base64::Engine;
use ic_certified_map::AsHashTree;
use sha2::Digest;

fn key(full_path: &str, id: Option<&str>) -> AssetKey {
    AssetKey {
        name: full_path.trim_start_matches('/').to_string(),
        created: 0,
        folder: String::new(),
        full_path: full_path.to_string(),
        id: id.map(|s| s.to_string()),
        size: 0,
        preview: None,
    }
}

fn commit_asset(state: &mut State, k: AssetKey, chunks: &[&[u8]], headers: Vec<HeaderField>) {
    let batch_id = create_batch(state, k, 0);
    let mut ids = Vec::new();
    for c in chunks {
        let id = create_chunk(state, Chunk { batch_id, content: c.to_vec() }, 0).unwrap();
        ids.push(id);
    }
    commit_batch(state, CommitBatch { batch_id, headers, chunk_ids: ids }, 0).unwrap();
}

fn get(url: &str) -> HttpRequest {
    HttpRequest {
        url: url.to_string(),
        method: "GET".to_string(),
        headers: vec![],
        body: vec![],
    }
}

fn cert() -> Option<Vec<u8>> {
    Some(b"attestation-blob".to_vec())
}

#[test]
fn scenario_upload_serve_continue() {
    let mut state = State::init();
    let batch_id = create_batch(&mut state, key("/a.txt", None), 0);
    assert_eq!(batch_id, 1);
    let c1 = create_chunk(&mut state, Chunk { batch_id: 1, content: b"hello ".to_vec() }, 0)
        .unwrap();
    assert_eq!(c1, 1);
    let c2 = create_chunk(&mut state, Chunk { batch_id: 1, content: b"world".to_vec() }, 0)
        .unwrap();
    assert_eq!(c2, 2);
    commit_batch(
        &mut state,
        CommitBatch { batch_id: 1, headers: vec![], chunk_ids: vec![1, 2] },
        0,
    )
    .unwrap();
    assert_eq!(cdn_bucket::store::get_len(&state), 1);

    let resp = http_request(&state, cert(), get("/a.txt"));
    assert_eq!(resp.status_code, 200);
    assert_eq!(resp.body, b"hello ".to_vec());
    let token = match resp.streaming_strategy {
        Some(StreamingStrategy::Callback { token }) => token,
        None => panic!("expected a continuation token"),
    };
    assert_eq!(token.index, 1);
    assert_eq!(token.full_path, "/a.txt");

    let cont = http_request_streaming_callback(&state, token).unwrap();
    assert_eq!(cont.body, b"world".to_vec());
    assert!(cont.token.is_none());
}

#[test]
fn round_trip_reassembles_content_in_order() {
    let mut state = State::init();
    let parts: [&[u8]; 4] = [b"alpha-", b"beta-", b"gamma-", b"delta"];
    commit_asset(&mut state, key("/big", None), &parts, vec![]);
    let resp = http_request(&state, cert(), get("/big"));
    assert_eq!(resp.status_code, 200);
    let mut collected = resp.body.clone();
    let mut next = match resp.streaming_strategy {
        Some(StreamingStrategy::Callback { token }) => Some(token),
        None => None,
    };
    while let Some(token) = next {
        let cont = http_request_streaming_callback(&state, token).unwrap();
        collected.extend_from_slice(&cont.body);
        next = cont.token;
    }
    assert_eq!(collected, b"alpha-beta-gamma-delta".to_vec());
}

#[test]
fn serve_reports_content_digest_in_token() {
    let mut state = State::init();
    commit_asset(&mut state, key("/a.txt", None), &[b"hello ", b"world"], vec![]);
    let resp = http_request(&state, cert(), get("/a.txt"));
    let token = match resp.streaming_strategy {
        Some(StreamingStrategy::Callback { token }) => token,
        None => panic!("expected a continuation token"),
    };
    // SHA-256 of "hello world"
    let expected: [u8; 32] = [
        0xb9, 0x4d, 0x27, 0xb9, 0x93, 0x4d, 0x3e, 0x08, 0xa5, 0x2e, 0x52, 0xd7, 0xda, 0x7d,
        0xab, 0xfa, 0xc4, 0x84, 0xef, 0xe3, 0x7a, 0x53, 0x80, 0xee, 0x90, 0x88, 0xf7, 0xac,
        0xe2, 0xef, 0xcd, 0xe9,
    ];
    assert_eq!(token.sha256, Some(expected.to_vec()));
}

#[test]
fn non_get_method_is_rejected() {
    let state = State::init();
    let req = HttpRequest {
        url: "/a".to_string(),
        method: "POST".to_string(),
        headers: vec![],
        body: vec![],
    };
    let resp = http_request(&state, cert(), req);
    assert_eq!(resp.status_code, 405);
    assert_eq!(resp.body, b"Method Not Allowed".to_vec());
    assert!(resp.headers.is_empty());
    assert!(resp.streaming_strategy.is_none());
}

#[test]
fn empty_url_is_a_bad_request() {
    let state = State::init();
    let resp = http_request(&state, cert(), get(""));
    assert_eq!(resp.status_code, 405);
    assert_eq!(
        resp.body,
        b"Permission denied. Could not perform this operation. No url provided.".to_vec()
    );
}

#[test]
fn missing_asset_is_not_found() {
    let state = State::init();
    let resp = http_request(&state, cert(), get("/nope"));
    assert_eq!(resp.status_code, 405);
    assert_eq!(
        resp.body,
        b"Permission denied. Could not perform this operation. No asset.".to_vec()
    );
}

#[test]
fn serve_without_attestation_fails() {
    let mut state = State::init();
    commit_asset(&mut state, key("/a", None), &[b"x"], vec![]);
    let resp = http_request(&state, None, get("/a"));
    assert_eq!(resp.status_code, 405);
    assert_eq!(
        resp.body,
        b"Permission denied. Invalid headers. No certificate found.".to_vec()
    );
}

#[test]
fn protected_asset_requires_url_token() {
    let mut state = State::init();
    commit_asset(&mut state, key("/s.txt", Some("secret")), &[b"hidden"], vec![]);
    let no_token = http_request(&state, cert(), get("/s.txt"));
    assert_eq!(no_token.status_code, 405);
    assert_eq!(
        no_token.body,
        b"Permission denied. Could not perform this operation. No token provided.".to_vec()
    );
    let wrong = http_request(&state, cert(), get("/s.txt?token=nope"));
    assert_eq!(wrong.status_code, 405);
    assert_eq!(
        wrong.body,
        b"Permission denied. Could not perform this operation. Invalid token.".to_vec()
    );
    let right = http_request(&state, cert(), get("/s.txt?token=secret"));
    assert_eq!(right.status_code, 200);
    assert_eq!(right.body, b"hidden".to_vec());
}

#[test]
fn public_asset_ignores_supplied_token() {
    let mut state = State::init();
    commit_asset(&mut state, key("/p.txt", None), &[b"open"], vec![]);
    let resp = http_request(&state, cert(), get("/p.txt?token=whatever"));
    assert_eq!(resp.status_code, 200);
    assert_eq!(resp.body, b"open".to_vec());
}

#[test]
fn index_html_maps_to_root() {
    let mut state = State::init();
    commit_asset(&mut state, key("/", None), &[b"root page"], vec![]);
    let resp = http_request(&state, cert(), get("/index.html"));
    assert_eq!(resp.status_code, 200);
    assert_eq!(resp.body, b"root page".to_vec());
}

#[test]
fn index_html_maps_to_root_also_with_token() {
    let mut state = State::init();
    commit_asset(&mut state, key("/", Some("secret")), &[b"root page"], vec![]);
    let right = http_request(&state, cert(), get("/index.html?token=secret"));
    assert_eq!(right.status_code, 200);
    assert_eq!(right.body, b"root page".to_vec());
    let wrong = http_request(&state, cert(), get("/index.html?token=nope"));
    assert_eq!(wrong.status_code, 405);
    assert_eq!(
        wrong.body,
        b"Permission denied. Could not perform this operation. Invalid token.".to_vec()
    );
}

#[test]
fn leading_slashes_are_normalized() {
    let mut state = State::init();
    commit_asset(&mut state, key("/a.txt", None), &[b"x"], vec![]);
    let resp = http_request(&state, cert(), get("//a.txt"));
    assert_eq!(resp.status_code, 200);
}

#[test]
fn response_headers_keep_caller_cert_security_order() {
    let mut state = State::init();
    let own = HeaderField("Content-Type".to_string(), "text/plain".to_string());
    commit_asset(&mut state, key("/a", None), &[b"x"], vec![own]);
    let resp = http_request(&state, cert(), get("/a"));
    assert_eq!(resp.status_code, 200);
    let names: Vec<&str> = resp.headers.iter().map(|h| h.0.as_str()).collect();
    assert_eq!(
        names,
        vec![
            "Content-Type",
            "IC-Certificate",
            "X-Frame-Options",
            "X-Content-Type-Options",
            "Strict-Transport-Security",
            "Referrer-Policy",
        ]
    );
    assert_eq!(resp.headers[2].1, "DENY");
    assert_eq!(resp.headers[3].1, "nosniff");
    assert_eq!(resp.headers[4].1, "max-age=31536000 ; includeSubDomains");
    assert_eq!(resp.headers[5].1, "same-origin");
}

#[test]
fn security_headers_are_the_owasp_baseline() {
    let hs = security_headers();
    assert_eq!(hs.len(), 4);
    assert_eq!(hs[0].0, "X-Frame-Options");
    assert_eq!(hs[0].1, "DENY");
    assert_eq!(hs[1].0, "X-Content-Type-Options");
    assert_eq!(hs[1].1, "nosniff");
    assert_eq!(hs[2].0, "Strict-Transport-Security");
    assert_eq!(hs[2].1, "max-age=31536000 ; includeSubDomains");
    assert_eq!(hs[3].0, "Referrer-Policy");
    assert_eq!(hs[3].1, "same-origin");
}

#[test]
fn certificate_header_frames_base64_fields() {
    let state = State::init();
    let header =
        build_asset_certificate_header(&state.runtime.asset_hashes, "/x", Some(&b"hello".to_vec()))
            .unwrap();
    assert_eq!(header.0, "IC-Certificate");
    // "hello" in unpadded standard base64
    assert!(header.1.starts_with("certificate=:aGVsbG8:, tree=:"));
    assert!(header.1.ends_with(":"));
    let middle = &header.1["certificate=:aGVsbG8:, tree=:".len()..header.1.len() - 1];
    assert!(!middle.is_empty());
    assert!(!middle.contains('='));
}

#[test]
fn certificate_header_matches_reference_computation() {
    let mut state = State::init();
    commit_asset(&mut state, key("/a", None), &[b"alpha"], vec![]);
    let header = build_asset_certificate_header(
        &state.runtime.asset_hashes,
        "/a",
        Some(&b"cert".to_vec()),
    )
    .unwrap();
    let digest: [u8; 32] = sha2::Sha256::digest(b"alpha").into();
    let mut reference: ic_certified_map::RbTree<String, ic_certified_map::Hash> =
        ic_certified_map::RbTree::new();
    reference.insert("/a".to_string(), digest);
    let witness = reference.witness(b"/a");
    let labeled = ic_certified_map::labeled(b"http_assets", witness);
    let mut blob = Vec::new();
    ciborium::ser::into_writer(&labeled, &mut blob).unwrap();
    let expected = format!(
        "certificate=:{}:, tree=:{}:",
        base64::engine::general_purpose::STANDARD_NO_PAD.encode(b"cert"),
        base64::engine::general_purpose::STANDARD_NO_PAD.encode(&blob),
    );
    assert_eq!(header.1, expected);
}

#[test]
fn certificate_header_without_attestation_fails() {
    let state = State::init();
    let r = build_asset_certificate_header(&state.runtime.asset_hashes, "/x", None);
    assert_eq!(r.unwrap_err(), BucketError::NoAttestation);
}

#[test]
fn certified_root_matches_direct_tree_computation() {
    let mut state = State::init();
    commit_asset(&mut state, key("/a", None), &[b"alpha"], vec![]);
    let ours = update_certified_data_hash(&state.runtime.asset_hashes);
    let digest: [u8; 32] = sha2::Sha256::digest(b"alpha").into();
    let mut reference: ic_certified_map::RbTree<String, ic_certified_map::Hash> =
        ic_certified_map::RbTree::new();
    reference.insert("/a".to_string(), digest);
    let expected = ic_certified_map::labeled_hash(b"http_assets", &reference.root_hash());
    assert_eq!(ours, expected);
}

#[test]
fn certified_root_changes_with_content() {
    let mut state = State::init();
    commit_asset(&mut state, key("/a", None), &[b"one"], vec![]);
    let before = update_certified_data_hash(&state.runtime.asset_hashes);
    commit_asset(&mut state, key("/a", None), &[b"two"], vec![]);
    let after = update_certified_data_hash(&state.runtime.asset_hashes);
    assert_ne!(before, after);
}

#[test]
fn streaming_callback_rechecks_access() {
    let mut state = State::init();
    commit_asset(&mut state, key("/s", Some("secret")), &[b"one", b"two"], vec![]);
    let token = StreamingCallbackToken {
        full_path: "/s".to_string(),
        token: None,
        headers: vec![],
        sha256: None,
        index: 1,
    };
    let r = http_request_streaming_callback(&state, token);
    assert_eq!(r.unwrap_err(), BucketError::NoTokenProvided);
    let good = StreamingCallbackToken {
        full_path: "/s".to_string(),
        token: Some("secret".to_string()),
        headers: vec![],
        sha256: None,
        index: 1,
    };
    let r = http_request_streaming_callback(&state, good).unwrap();
    assert_eq!(r.body, b"two".to_vec());
}

#[test]
fn streaming_callback_out_of_range_index_aborts() {
    let mut state = State::init();
    commit_asset(&mut state, key("/a", None), &[b"one", b"two"], vec![]);
    let token = StreamingCallbackToken {
        full_path: "/a".to_string(),
        token: None,
        headers: vec![],
        sha256: None,
        index: 5,
    };
    let r = http_request_streaming_callback(&state, token);
    assert_eq!(r.unwrap_err(), BucketError::NotFound);
}
