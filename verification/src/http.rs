//! The request server: HTTP-shaped reads against the registry, with a
//! certification header on every successful response and a streaming
//! continuation token when an asset spans more than one chunk.

use crate::cert::{build_asset_certificate_header, cert_header_value};
use crate::errors::BucketError;
use crate::hashtree::{tree_witness_blob_of, AssetHashes, Digest};
use crate::store::{spec_get_asset, spec_resolve_url, State};
use crate::text::str_eq;
use crate::types::{clone_bytes, Asset, AssetEncoding, AssetKey, AssetV, HeaderField};
use ic_certified_map::RbTree;
use vstd::prelude::*;
use vstd::string::StrSliceExecFns;
use vstd::string::StringExecFns;
use vstd::utf8::encode_utf8;

verus! {

/// One HTTP-shaped read request.
pub struct HttpRequest {
    pub url: String,
    pub method: String,
    pub headers: Vec<HeaderField>,
    pub body: Vec<u8>,
}

/// Opaque state letting a client fetch the next chunk of a multi-chunk
/// asset: the path and access token to re-resolve the asset, the full
/// header set of the initial response, the content digest, and the index
/// of the chunk to serve next.
#[derive(Debug)]
pub struct StreamingCallbackToken {
    pub full_path: String,
    pub token: Option<String>,
    pub headers: Vec<HeaderField>,
    pub sha256: Option<Vec<u8>>,
    pub index: usize,
}

/// Mathematical view of a [`StreamingCallbackToken`].
pub struct StreamingCallbackTokenV {
    pub full_path: Seq<char>,
    pub token: Option<Seq<char>>,
    pub headers: Seq<(Seq<char>, Seq<char>)>,
    pub sha256: Option<Seq<u8>>,
    pub index: usize,
}

impl View for StreamingCallbackToken {
    type V = StreamingCallbackTokenV;

    open spec fn view(&self) -> StreamingCallbackTokenV {
        StreamingCallbackTokenV {
            full_path: self.full_path@,
            token: self.token.deep_view(),
            headers: self.headers.deep_view(),
            sha256: self.sha256.deep_view(),
            index: self.index,
        }
    }
}

/// How the rest of a multi-chunk asset is delivered: by query callbacks
/// carrying the continuation token.
pub enum StreamingStrategy {
    Callback { token: StreamingCallbackToken },
}

/// One HTTP-shaped response.
pub struct HttpResponse {
    pub body: Vec<u8>,
    pub headers: Vec<HeaderField>,
    pub status_code: u16,
    pub streaming_strategy: Option<StreamingStrategy>,
}

/// One continuation response: the chunk at the token's index, and the next
/// token unless that chunk was the last.
#[derive(Debug)]
pub struct StreamingCallbackHttpResponse {
    pub body: Vec<u8>,
    pub token: Option<StreamingCallbackToken>,
}

/// The fixed, ordered baseline security headers appended to every
/// successful response, after the asset's own headers and the
/// certification header.
pub open spec fn spec_security_headers() -> Seq<(Seq<char>, Seq<char>)> {
    seq![
        ("X-Frame-Options"@, "DENY"@),
        ("X-Content-Type-Options"@, "nosniff"@),
        ("Strict-Transport-Security"@, "max-age=31536000 ; includeSubDomains"@),
        ("Referrer-Policy"@, "same-origin"@),
    ]
}

/// Recommended security headers; their order is part of the response
/// contract.
pub fn security_headers() -> (r: Vec<HeaderField>)
    ensures
        r.deep_view() == spec_security_headers(),
{
    let mut v: Vec<HeaderField> = Vec::new();
    v.push(HeaderField("X-Frame-Options".to_owned(), "DENY".to_owned()));
    v.push(HeaderField("X-Content-Type-Options".to_owned(), "nosniff".to_owned()));
    v.push(
        HeaderField(
            "Strict-Transport-Security".to_owned(),
            "max-age=31536000 ; includeSubDomains".to_owned(),
        ),
    );
    v.push(HeaderField("Referrer-Policy".to_owned(), "same-origin".to_owned()));
    proof {
        assert(v.deep_view() =~~= spec_security_headers());
    }
    v
}

/// A byte-for-byte copy of a digest.
fn digest_to_vec(d: &Digest) -> (r: Vec<u8>)
    ensures
        r@ == d@,
{
    let mut r: Vec<u8> = Vec::new();
    let mut i: usize = 0;
    while i < 32
        invariant
            i <= 32,
            d@.len() == 32,
            r@ == d@.take(i as int),
        decreases 32 - i,
    {
        r.push(d[i]);
        proof {
            assert(d@.take(i + 1) =~= d@.take(i as int).push(d@[i as int]));
        }
        i = i + 1;
    }
    proof {
        assert(d@.take(32) =~= d@);
    }
    r
}

/// The continuation token for the chunk after `chunk_index`, if one
/// remains; total in the index, as a continuation may name any index.
#[verifier::loop_isolation(false)]
pub fn create_token(
    key: &AssetKey,
    chunk_index: usize,
    encoding: &AssetEncoding,
    headers: &Vec<HeaderField>,
) -> (r: Option<StreamingCallbackToken>)
    ensures
        match r {
            None => chunk_index + 1 >= encoding@.content_chunks.len(),
            Some(t) => chunk_index + 1 < encoding@.content_chunks.len() && t@
                == (StreamingCallbackTokenV {
                full_path: key@.full_path,
                token: key@.id,
                headers: headers.deep_view(),
                sha256: Some(encoding@.sha256),
                index: (chunk_index + 1) as usize,
            }),
        },
{
    let n = encoding.content_chunks.len();
    if n == 0 || chunk_index >= n - 1 {
        return None;
    }
    let mut hs: Vec<HeaderField> = Vec::new();
    let mut i: usize = 0;
    while i < headers.len()
        invariant
            i <= headers@.len(),
            hs@.len() == i,
            forall|j: int| #![auto] 0 <= j < i ==> hs@[j]@ == headers@[j]@,
        decreases headers@.len() - i,
    {
        hs.push(headers[i].duplicate());
        i = i + 1;
    }
    proof {
        assert(hs.deep_view() =~~= headers.deep_view());
    }
    let token = match &key.id {
        Some(s) => Some(s.clone()),
        None => None,
    };
    let sha_vec = digest_to_vec(&encoding.sha256);
    proof {
        assert(sha_vec.deep_view() =~= encoding.sha256@);
    }
    Some(
        StreamingCallbackToken {
            full_path: key.full_path.clone(),
            token,
            headers: hs,
            index: chunk_index + 1,
            sha256: Some(sha_vec),
        },
    )
}

/// The streaming strategy of an initial response: a callback token for
/// chunk 1, when the asset has more than one chunk.
pub fn streaming_strategy(
    key: &AssetKey,
    encoding: &AssetEncoding,
    headers: &Vec<HeaderField>,
) -> (r: Option<StreamingStrategy>)
    ensures
        match r {
            None => encoding@.content_chunks.len() <= 1,
            Some(st) => {
                let StreamingStrategy::Callback { token } = st;
                encoding@.content_chunks.len() > 1 && token@ == (StreamingCallbackTokenV {
                    full_path: key@.full_path,
                    token: key@.id,
                    headers: headers.deep_view(),
                    sha256: Some(encoding@.sha256),
                    index: 1,
                })
            },
        },
{
    match create_token(key, 0, encoding, headers) {
        None => None,
        Some(token) => Some(StreamingStrategy::Callback { token }),
    }
}

/// The full header set of a successful response: the asset's own headers,
/// then the certification header for its path, then the baseline security
/// headers — in exactly that order.
pub open spec fn spec_served_headers(
    tree: RbTree<String, Digest>,
    a: AssetV,
    certificate: Seq<u8>,
) -> Seq<(Seq<char>, Seq<char>)> {
    a.headers + seq![
        (
            "IC-Certificate"@,
            cert_header_value(
                certificate,
                tree_witness_blob_of(tree, "http_assets"@, a.key.full_path),
            ),
        ),
    ] + spec_security_headers()
}

/// Builds the headers served with `asset`: its own, the certification
/// header, and the security baseline.
pub fn build_headers(
    asset: &Asset,
    asset_hashes: &AssetHashes,
    certificate: Option<&Vec<u8>>,
) -> (r: Result<Vec<HeaderField>, BucketError>)
    ensures
        match certificate {
            None => r == Err::<Vec<HeaderField>, BucketError>(BucketError::NoAttestation),
            Some(cert) => r matches Ok(hs) && hs.deep_view() == spec_served_headers(
                asset_hashes.tree,
                asset@,
                cert@,
            ),
        },
{
    match build_asset_certificate_header(asset_hashes, asset.key.full_path.as_str(), certificate) {
        Err(e) => Err(e),
        Ok(certified_header) => {
            let mut headers: Vec<HeaderField> = Vec::new();
            let mut i: usize = 0;
            while i < asset.headers.len()
                invariant
                    i <= asset.headers@.len(),
                    headers@.len() == i,
                    forall|j: int| #![auto] 0 <= j < i ==> headers@[j]@ == asset.headers@[j]@,
                decreases asset.headers@.len() - i,
            {
                headers.push(asset.headers[i].duplicate());
                i = i + 1;
            }
            proof {
                assert(headers.deep_view() =~~= asset.headers.deep_view());
            }
            headers.push(certified_header);
            let mut sec = security_headers();
            headers.append(&mut sec);
            proof {
                match certificate {
                    Some(cert) => {
                        assert(headers.deep_view() =~~= spec_served_headers(
                            asset_hashes.tree,
                            asset@,
                            cert@,
                        ));
                    },
                    None => {},
                }
            }
            Ok(headers)
        },
    }
}

/// A degraded, non-certified error response: a fixed status, the message
/// text as body, no headers, no streaming.
pub open spec fn is_error_response(resp: HttpResponse, body: Seq<u8>) -> bool {
    &&& resp.status_code == 405
    &&& resp.body@ == body
    &&& resp.headers@.len() == 0
    &&& resp.streaming_strategy is None
}

fn error_response(prefix: &str, err: BucketError) -> (r: HttpResponse)
    ensures
        is_error_response(r, encode_utf8(prefix@ + err.spec_message())),
{
    let mut msg = String::new();
    msg.append(prefix);
    msg.append(err.message());
    HttpResponse {
        body: msg.as_str().as_bytes_vec(),
        headers: Vec::new(),
        status_code: 405,
        streaming_strategy: None,
    }
}

/// A successful serve of `a`: status 200, the first content chunk as
/// body, the full header set, and a continuation token for chunk 1 iff
/// more chunks remain.
pub open spec fn is_success_response(
    tree: RbTree<String, Digest>,
    certificate: Seq<u8>,
    a: AssetV,
    resp: HttpResponse,
) -> bool {
    let hs = spec_served_headers(tree, a, certificate);
    let enc = a.raw_encoding().unwrap();
    &&& resp.status_code == 200
    &&& resp.body@ == enc.content_chunks[0]
    &&& resp.headers.deep_view() == hs
    &&& match resp.streaming_strategy {
        None => enc.content_chunks.len() == 1,
        Some(st) => {
            let StreamingStrategy::Callback { token } = st;
            enc.content_chunks.len() > 1 && token@ == (StreamingCallbackTokenV {
                full_path: a.key.full_path,
                token: a.key.id,
                headers: hs,
                sha256: Some(enc.sha256),
                index: 1,
            })
        },
    }
}

/// An asset that a URL resolves to is one committed in the registry.
proof fn lemma_resolved_is_committed(assets: Map<Seq<char>, AssetV>, url: Seq<char>, v: AssetV)
    requires
        spec_resolve_url(assets, url) == Ok::<AssetV, BucketError>(v),
    ensures
        exists|p: Seq<char>| #[trigger] assets.contains_key(p) && assets[p] == v,
{
    let parts = crate::store::spec_url_parts(url);
    let normalized = crate::store::spec_normalize(parts.0);
    let full_path = if normalized == "/index.html"@ {
        "/"@
    } else {
        normalized
    };
    assert(assets.contains_key(full_path) && assets[full_path] == v);
}

/// Serves one read: rejects non-GET methods, resolves the URL (token
/// split, path normalization, access check), and returns the first chunk
/// with certification and security headers, plus a continuation token for
/// multi-chunk assets. Read errors degrade to a well-formed, non-certified
/// error response. When the host supplied no attestation the response is
/// the `NoAttestation` error; with one, the serve succeeds.
pub fn http_request(state: &State, certificate: Option<Vec<u8>>, req: HttpRequest) -> (resp:
    HttpResponse)
    requires
        state.wf(),
    ensures
        ({
            if req.method@ != "GET"@ {
                is_error_response(resp, encode_utf8("Method Not Allowed"@))
            } else {
                match spec_resolve_url(state.assets(), req.url@) {
                    Err(e) => is_error_response(
                        resp,
                        encode_utf8(
                            "Permission denied. Could not perform this operation. "@
                                + e.spec_message(),
                        ),
                    ),
                    Ok(a) => match certificate.deep_view() {
                        None => is_error_response(
                            resp,
                            encode_utf8(
                                "Permission denied. Invalid headers. "@
                                    + BucketError::NoAttestation.spec_message(),
                            ),
                        ),
                        Some(cert) => is_success_response(
                            state.runtime.asset_hashes.tree,
                            cert,
                            a,
                            resp,
                        ),
                    },
                }
            }
        }),
{
    if !str_eq(req.method.as_str(), "GET") {
        return HttpResponse {
            body: "Method Not Allowed".as_bytes_vec(),
            headers: Vec::new(),
            status_code: 405,
            streaming_strategy: None,
        };
    }
    match crate::store::get_asset_for_url(state, req.url.as_str()) {
        Err(err) => error_response("Permission denied. Could not perform this operation. ", err),
        Ok(asset) => {
            proof {
                lemma_resolved_is_committed(state.assets(), req.url@, asset@);
                let p = choose|p: Seq<char>|
                    #[trigger] state.assets().contains_key(p) && state.assets()[p] == asset@;
                assert(state.assets()[p].wf());
            }
            match build_headers(&asset, &state.runtime.asset_hashes, certificate.as_ref()) {
                Err(err) => error_response("Permission denied. Invalid headers. ", err),
                Ok(headers) => {
                    let encoding = asset.encoding_raw();
                    let body = clone_bytes(&encoding.content_chunks[0]);
                    let strategy = streaming_strategy(&asset.key, encoding, &headers);
                    proof {
                        let cert = certificate.deep_view().unwrap();
                        let tree = state.runtime.asset_hashes.tree;
                        assert(certificate.unwrap().deep_view() =~= certificate.unwrap()@);
                        assert(headers.deep_view() == spec_served_headers(tree, asset@, cert));
                        assert(encoding@ == asset@.raw_encoding().unwrap());
                        assert(body@ == asset@.raw_encoding().unwrap().content_chunks[0]);
                    }
                    HttpResponse { body, headers, status_code: 200, streaming_strategy: strategy }
                },
            }
        },
    }
}

/// Resumes a streamed delivery. The asset is re-resolved exactly as in the
/// initial request; a resolution failure is fatal to the delivery and is
/// returned as the error for the caller to abort on. A token index at or
/// beyond the current chunk count (the asset was re-committed smaller in
/// the meantime) is likewise treated as fatal, reported as `NotFound`,
/// rather than served out of bounds.
pub fn http_request_streaming_callback(state: &State, token: StreamingCallbackToken) -> (r: Result<
    StreamingCallbackHttpResponse,
    BucketError,
>)
    requires
        state.wf(),
    ensures
        ({
            match spec_get_asset(state.assets(), token.full_path@, token.token.deep_view()) {
                Err(e) => r == Err::<StreamingCallbackHttpResponse, BucketError>(e),
                Ok(a) => {
                    let enc = a.raw_encoding().unwrap();
                    if token.index < enc.content_chunks.len() {
                        r matches Ok(resp) && resp.body@ == enc.content_chunks[token.index as int]
                            && (match resp.token {
                            None => token.index + 1 >= enc.content_chunks.len(),
                            Some(t2) => token.index + 1 < enc.content_chunks.len() && t2@
                                == (StreamingCallbackTokenV {
                                full_path: a.key.full_path,
                                token: a.key.id,
                                headers: token.headers.deep_view(),
                                sha256: Some(enc.sha256),
                                index: (token.index + 1) as usize,
                            }),
                        })
                    } else {
                        r == Err::<StreamingCallbackHttpResponse, BucketError>(
                            BucketError::NotFound,
                        )
                    }
                },
            }
        }),
{
    let StreamingCallbackToken { full_path, token: tok, headers, index, sha256: _ } = token;
    match crate::store::get_asset(state, full_path.as_str(), tok) {
        Err(e) => Err(e),
        Ok(asset) => {
            proof {
                assert(state.assets().contains_key(full_path@));
                assert(state.assets()[full_path@].wf());
            }
            let encoding = asset.encoding_raw();
            if index >= encoding.content_chunks.len() {
                return Err(BucketError::NotFound);
            }
            let body = clone_bytes(&encoding.content_chunks[index]);
            let next = create_token(&asset.key, index, encoding, &headers);
            Ok(StreamingCallbackHttpResponse { body, token: next })
        },
    }
}

/// The bodies a client collects from one full delivery, starting at chunk
/// `i`: the serve (or continuation) returns chunk `i`, and while chunks
/// remain the token chains to `i + 1`.
pub open spec fn collected_bodies(chunks: Seq<Seq<u8>>, i: int) -> Seq<Seq<u8>>
    decreases chunks.len() - i,
{
    if i < 0 || i >= chunks.len() {
        Seq::empty()
    } else {
        seq![chunks[i]] + collected_bodies(chunks, i + 1)
    }
}

proof fn lemma_collected_is_skip(chunks: Seq<Seq<u8>>, i: int)
    requires
        0 <= i <= chunks.len(),
    ensures
        collected_bodies(chunks, i) == chunks.skip(i),
    decreases chunks.len() - i,
{
    if i < chunks.len() {
        lemma_collected_is_skip(chunks, i + 1);
        assert(collected_bodies(chunks, i) =~= chunks.skip(i));
    } else {
        assert(collected_bodies(chunks, i) =~= chunks.skip(i));
    }
}

/// Round trip: by the contracts of `http_request` (body is chunk 0, token
/// chains to index 1 iff more chunks remain) and of
/// `http_request_streaming_callback` (body at index `i` is chunk `i`,
/// token chains to `i + 1` iff more remain), one serve followed by the
/// chain of continuations yields exactly `collected_bodies(chunks, 0)`;
/// their concatenation is the committed content, in order, with no loss
/// or duplication.
pub proof fn lemma_round_trip(enc: crate::types::AssetEncodingV)
    requires
        enc.wf(),
    ensures
        collected_bodies(enc.content_chunks, 0).flatten() == enc.content(),
{
    lemma_collected_is_skip(enc.content_chunks, 0);
    assert(enc.content_chunks.skip(0) =~= enc.content_chunks);
}

} // verus!
