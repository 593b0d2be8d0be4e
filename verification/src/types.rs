//! The data model: keys, encodings, assets, upload batches and chunks, the
//! request/response shapes, and their mathematical views.

use crate::crypto::sha256_of;
use crate::errors::AssetEncodingError;
use crate::text::str_eq;
use vstd::prelude::*;

verus! {

/// One response header: name and value.
#[derive(Debug)]
pub struct HeaderField(pub String, pub String);

impl View for HeaderField {
    type V = (Seq<char>, Seq<char>);

    open spec fn view(&self) -> (Seq<char>, Seq<char>) {
        (self.0@, self.1@)
    }
}

impl DeepView for HeaderField {
    type V = (Seq<char>, Seq<char>);

    open spec fn deep_view(&self) -> (Seq<char>, Seq<char>) {
        self@
    }
}

impl HeaderField {
    pub fn duplicate(&self) -> (r: Self)
        ensures
            r@ == self@,
    {
        HeaderField(self.0.clone(), self.1.clone())
    }
}

/// The metadata under which an asset is addressed and listed. `full_path`
/// is the unique lookup key; `id`, when present, is the shared-secret access
/// token protecting the asset.
#[derive(Debug)]
pub struct AssetKey {
    pub name: String,
    pub created: u64,
    pub folder: String,
    pub full_path: String,
    pub id: Option<String>,
    pub size: u32,
    pub preview: Option<Vec<u8>>,
}

/// Mathematical view of an [`AssetKey`].
pub struct AssetKeyV {
    pub name: Seq<char>,
    pub created: u64,
    pub folder: Seq<char>,
    pub full_path: Seq<char>,
    pub id: Option<Seq<char>>,
    pub size: u32,
    pub preview: Option<Seq<u8>>,
}

impl View for AssetKey {
    type V = AssetKeyV;

    open spec fn view(&self) -> AssetKeyV {
        AssetKeyV {
            name: self.name@,
            created: self.created,
            folder: self.folder@,
            full_path: self.full_path@,
            id: self.id.deep_view(),
            size: self.size,
            preview: self.preview.deep_view(),
        }
    }
}

impl DeepView for AssetKey {
    type V = AssetKeyV;

    open spec fn deep_view(&self) -> AssetKeyV {
        self@
    }
}

impl AssetKey {
    pub fn duplicate(&self) -> (r: Self)
        ensures
            r@ == self@,
    {
        let id = match &self.id {
            Some(s) => Some(s.clone()),
            None => None,
        };
        let preview = match &self.preview {
            Some(v) => Some(clone_bytes(v)),
            None => None,
        };
        AssetKey {
            name: self.name.clone(),
            created: self.created,
            folder: self.folder.clone(),
            full_path: self.full_path.clone(),
            id,
            size: self.size,
            preview,
        }
    }
}

/// Byte equality of two digests.
pub fn digest_eq(a: &[u8; 32], b: &[u8; 32]) -> (r: bool)
    ensures
        r == (a@ == b@),
{
    let mut i: usize = 0;
    while i < 32
        invariant
            i <= 32,
            forall|j: int| 0 <= j < i ==> a@[j] == b@[j],
        decreases 32 - i,
    {
        if a[i] != b[i] {
            return false;
        }
        i = i + 1;
    }
    proof {
        assert(a@ =~= b@);
    }
    true
}

/// A byte-for-byte copy of a byte buffer.
pub fn clone_bytes(v: &Vec<u8>) -> (r: Vec<u8>)
    ensures
        r@ == v@,
{
    let mut r: Vec<u8> = Vec::new();
    let mut i: usize = 0;
    while i < v.len()
        invariant
            i <= v@.len(),
            r@ == v@.take(i as int),
        decreases v@.len() - i,
    {
        r.push(v[i]);
        proof {
            assert(v@.take(i + 1) =~= v@.take(i as int).push(v@[i as int]));
        }
        i = i + 1;
    }
    proof {
        assert(v@.take(v@.len() as int) =~= v@);
    }
    r
}

/// One concrete representation of an asset's content: its chunks in serving
/// order, their total length, and the SHA-256 digest of their concatenation.
#[derive(Debug)]
pub struct AssetEncoding {
    pub modified: u64,
    pub content_chunks: Vec<Vec<u8>>,
    pub total_length: u128,
    pub sha256: [u8; 32],
}

/// Mathematical view of an [`AssetEncoding`].
pub struct AssetEncodingV {
    pub modified: u64,
    pub content_chunks: Seq<Seq<u8>>,
    pub total_length: u128,
    pub sha256: Seq<u8>,
}

impl View for AssetEncoding {
    type V = AssetEncodingV;

    open spec fn view(&self) -> AssetEncodingV {
        AssetEncodingV {
            modified: self.modified,
            content_chunks: self.content_chunks.deep_view(),
            total_length: self.total_length,
            sha256: self.sha256@,
        }
    }
}

impl DeepView for AssetEncoding {
    type V = AssetEncodingV;

    open spec fn deep_view(&self) -> AssetEncodingV {
        self@
    }
}

impl AssetEncodingV {
    /// The full content: all chunks concatenated in order.
    pub open spec fn content(self) -> Seq<u8> {
        self.content_chunks.flatten()
    }

    /// A committed encoding has at least one chunk, and its digest and total
    /// length are those of the concatenated content.
    pub open spec fn wf(self) -> bool {
        &&& self.content_chunks.len() >= 1
        &&& self.sha256 == sha256_of(self.content())
        &&& self.total_length as nat == self.content().len()
    }
}

impl AssetEncoding {
    /// Assembles an encoding from content chunks: the digest and the total
    /// length are computed over the concatenation, `modified` is set to the
    /// given clock reading. Fails only if the total length cannot be
    /// accumulated in its counter.
    pub fn new(content_chunks: Vec<Vec<u8>>, now: u64) -> (r: Result<
        AssetEncoding,
        AssetEncodingError,
    >)
        ensures
            match r {
                Ok(enc) => {
                    &&& enc@.modified == now
                    &&& enc@.content_chunks == content_chunks.deep_view()
                    &&& enc@.total_length as nat == content_chunks.deep_view().flatten().len()
                    &&& enc@.sha256 == sha256_of(content_chunks.deep_view().flatten())
                    &&& content_chunks.deep_view().flatten().len() <= u128::MAX
                },
                Err(_) => content_chunks.deep_view().flatten().len() > u128::MAX,
            },
    {
        let ghost chunks: Seq<Seq<u8>> = content_chunks.deep_view();
        let mut all: Vec<u8> = Vec::new();
        let mut total_length: u128 = 0;
        let mut i: usize = 0;
        while i < content_chunks.len()
            invariant
                chunks == content_chunks.deep_view(),
                i <= chunks.len(),
                chunks.len() == content_chunks@.len(),
                all@ == chunks.take(i as int).flatten(),
                total_length as nat == chunks.take(i as int).flatten().len(),
            decreases chunks.len() - i,
        {
            let chunk = &content_chunks[i];
            proof {
                assert(chunks[i as int] == content_chunks@[i as int].deep_view());
                assert(chunks.take(i + 1) =~= chunks.take(i as int).push(chunks[i as int]));
                chunks.take(i + 1).lemma_flatten_and_flatten_alt_are_equivalent();
                chunks.take(i as int).lemma_flatten_and_flatten_alt_are_equivalent();
                assert(chunks.take(i + 1).drop_last() =~= chunks.take(i as int));
                assert(chunks.take(i + 1).flatten_alt() == chunks.take(
                    i as int,
                ).flatten_alt().add(chunks[i as int]));
            }
            if total_length > u128::MAX - chunk.len() as u128 {
                proof {
                    lemma_flatten_take_len_monotone(chunks, i + 1);
                }
                return Err(AssetEncodingError::overflow());
            }
            total_length = total_length + chunk.len() as u128;
            let mut j: usize = 0;
            while j < chunk.len()
                invariant
                    j <= chunk@.len(),
                    all@ == chunks.take(i as int).flatten() + chunk@.take(j as int),
                    chunks.take(i + 1).flatten() == chunks.take(i as int).flatten() + chunk@,
                    chunk@ == chunks[i as int],
                    i < chunks.len(),
                decreases chunk@.len() - j,
            {
                all.push(chunk[j]);
                proof {
                    assert(chunk@.take(j + 1) =~= chunk@.take(j as int).push(chunk@[j as int]));
                    assert(chunks.take(i as int).flatten() + chunk@.take(j + 1)
                        =~= (chunks.take(i as int).flatten() + chunk@.take(j as int)).push(
                        chunk@[j as int],
                    ));
                }
                j = j + 1;
            }
            proof {
                assert(chunk@.take(chunk@.len() as int) =~= chunk@);
            }
            i = i + 1;
        }
        proof {
            assert(chunks.take(chunks.len() as int) =~= chunks);
        }
        let sha256 = crate::crypto::sha256(all.as_slice());
        Ok(AssetEncoding { modified: now, content_chunks, total_length, sha256 })
    }
}

/// The flattened length of a prefix never exceeds that of the whole.
pub proof fn lemma_flatten_take_len_monotone(chunks: Seq<Seq<u8>>, i: int)
    requires
        0 <= i <= chunks.len(),
    ensures
        chunks.take(i).flatten().len() <= chunks.flatten().len(),
    decreases chunks.len() - i,
{
    if i < chunks.len() {
        assert(chunks.take(i + 1).drop_last() =~= chunks.take(i));
        chunks.take(i + 1).lemma_flatten_and_flatten_alt_are_equivalent();
        chunks.take(i).lemma_flatten_and_flatten_alt_are_equivalent();
        assert(chunks.take(i + 1).flatten_alt() == chunks.take(i).flatten_alt().add(
            chunks.take(i + 1).last(),
        ));
        lemma_flatten_take_len_monotone(chunks, i + 1);
        assert(chunks.take(chunks.len() as int) =~= chunks);
    } else {
        assert(chunks.take(i) =~= chunks);
    }
}

/// Looks up an encoding by name; first match wins.
pub open spec fn enc_lookup(encodings: Seq<(Seq<char>, AssetEncodingV)>, name: Seq<char>) -> Option<
    AssetEncodingV,
>
    decreases encodings.len(),
{
    if encodings.len() == 0 {
        None
    } else if encodings[0].0 == name {
        Some(encodings[0].1)
    } else {
        enc_lookup(encodings.drop_first(), name)
    }
}

/// A committed, addressable piece of content: its key, the caller-supplied
/// response headers, and its encodings by name. Exactly one encoding,
/// "raw", is populated today; the mapping is kept open for more.
#[derive(Debug)]
pub struct Asset {
    pub key: AssetKey,
    pub headers: Vec<HeaderField>,
    pub encodings: Vec<(String, AssetEncoding)>,
}

/// Mathematical view of an [`Asset`].
pub struct AssetV {
    pub key: AssetKeyV,
    pub headers: Seq<(Seq<char>, Seq<char>)>,
    pub encodings: Seq<(Seq<char>, AssetEncodingV)>,
}

impl View for Asset {
    type V = AssetV;

    open spec fn view(&self) -> AssetV {
        AssetV {
            key: self.key@,
            headers: self.headers.deep_view(),
            encodings: self.encodings.deep_view(),
        }
    }
}

impl DeepView for Asset {
    type V = AssetV;

    open spec fn deep_view(&self) -> AssetV {
        self@
    }
}

impl AssetV {
    /// The encoding named "raw", which every committed asset must carry.
    pub open spec fn raw_encoding(self) -> Option<AssetEncodingV> {
        enc_lookup(self.encodings, "raw"@)
    }

    /// A committed asset carries a well-formed "raw" encoding.
    pub open spec fn wf(self) -> bool {
        &&& self.raw_encoding() is Some
        &&& self.raw_encoding().unwrap().wf()
    }

    /// The digest of the raw content, as bound into the hash tree.
    pub open spec fn raw_sha(self) -> Seq<u8> {
        self.raw_encoding().unwrap().sha256
    }

    /// The raw content itself: all chunks concatenated.
    pub open spec fn raw_content(self) -> Seq<u8> {
        self.raw_encoding().unwrap().content()
    }
}

impl Asset {
    /// The "raw" encoding of a committed asset; it must never be absent.
    pub fn encoding_raw(&self) -> (r: &AssetEncoding)
        requires
            self@.raw_encoding() is Some,
        ensures
            r@ == self@.raw_encoding().unwrap(),
    {
        let mut i: usize = 0;
        proof {
            assert(self@.encodings.skip(0) =~= self@.encodings);
        }
        while i < self.encodings.len()
            invariant
                self@.raw_encoding() is Some,
                i <= self.encodings@.len(),
                enc_lookup(self@.encodings.skip(i as int), "raw"@) == self@.raw_encoding(),
            decreases self.encodings@.len() - i,
        {
            proof {
                assert(self@.encodings.skip(i as int)[0] == self@.encodings[i as int]);
                assert(self@.encodings.skip(i as int).drop_first() =~= self@.encodings.skip(i + 1));
            }
            if str_eq(self.encodings[i].0.as_str(), "raw") {
                return &self.encodings[i].1;
            }
            i = i + 1;
        }
        proof {
            assert(self@.encodings.skip(self.encodings@.len() as int).len() == 0);
            assert(false);
        }
        unreached()
    }

    /// The "raw" encoding, if this asset carries one.
    pub fn encoding_raw_opt(&self) -> (r: Option<&AssetEncoding>)
        ensures
            match r {
                Some(e) => self@.raw_encoding() == Some(e@),
                None => self@.raw_encoding() is None,
            },
    {
        let mut i: usize = 0;
        proof {
            assert(self@.encodings.skip(0) =~= self@.encodings);
        }
        while i < self.encodings.len()
            invariant
                i <= self.encodings@.len(),
                enc_lookup(self@.encodings.skip(i as int), "raw"@) == self@.raw_encoding(),
            decreases self.encodings@.len() - i,
        {
            proof {
                assert(self@.encodings.skip(i as int)[0] == self@.encodings[i as int]);
                assert(self@.encodings.skip(i as int).drop_first() =~= self@.encodings.skip(i + 1));
            }
            if str_eq(self.encodings[i].0.as_str(), "raw") {
                return Some(&self.encodings[i].1);
            }
            i = i + 1;
        }
        proof {
            assert(self@.encodings.skip(self.encodings@.len() as int).len() == 0);
        }
        None
    }

    /// Checks that this asset is a well-formed committed asset: a "raw"
    /// encoding is present and nonempty, and its stored digest and total
    /// length match its concatenated content. Exactly the well-formedness
    /// every committed asset has; meant for snapshots of unknown origin.
    #[verifier::loop_isolation(false)]
    pub fn check_integrity(&self) -> (r: bool)
        ensures
            r == self@.wf(),
    {
        let enc = match self.encoding_raw_opt() {
            None => {
                return false;
            },
            Some(e) => e,
        };
        if enc.content_chunks.len() == 0 {
            return false;
        }
        let ghost chunks: Seq<Seq<u8>> = enc.content_chunks.deep_view();
        let mut all: Vec<u8> = Vec::new();
        let mut total: u128 = 0;
        let mut i: usize = 0;
        while i < enc.content_chunks.len()
            invariant
                i <= chunks.len(),
                all@ == chunks.take(i as int).flatten(),
                total as nat == chunks.take(i as int).flatten().len(),
            decreases chunks.len() - i,
        {
            let chunk = &enc.content_chunks[i];
            proof {
                assert(chunks[i as int] == enc.content_chunks@[i as int].deep_view());
                assert(chunks.take(i + 1) =~= chunks.take(i as int).push(chunks[i as int]));
                chunks.take(i + 1).lemma_flatten_and_flatten_alt_are_equivalent();
                chunks.take(i as int).lemma_flatten_and_flatten_alt_are_equivalent();
                assert(chunks.take(i + 1).drop_last() =~= chunks.take(i as int));
                assert(chunks.take(i + 1).flatten_alt() == chunks.take(
                    i as int,
                ).flatten_alt().add(chunks[i as int]));
            }
            if total > u128::MAX - chunk.len() as u128 {
                proof {
                    lemma_flatten_take_len_monotone(chunks, i + 1);
                }
                return false;
            }
            total = total + chunk.len() as u128;
            let mut j: usize = 0;
            while j < chunk.len()
                invariant
                    j <= chunk@.len(),
                    all@ == chunks.take(i as int).flatten() + chunk@.take(j as int),
                    chunks.take(i + 1).flatten() == chunks.take(i as int).flatten() + chunk@,
                    chunk@ == chunks[i as int],
                    i < chunks.len(),
                decreases chunk@.len() - j,
            {
                all.push(chunk[j]);
                proof {
                    assert(chunk@.take(j + 1) =~= chunk@.take(j as int).push(chunk@[j as int]));
                    assert(chunks.take(i as int).flatten() + chunk@.take(j + 1)
                        =~= (chunks.take(i as int).flatten() + chunk@.take(j as int)).push(
                        chunk@[j as int],
                    ));
                }
                j = j + 1;
            }
            proof {
                assert(chunk@.take(chunk@.len() as int) =~= chunk@);
            }
            i = i + 1;
        }
        proof {
            assert(chunks.take(chunks.len() as int) =~= chunks);
        }
        let digest = crate::crypto::sha256(all.as_slice());
        digest_eq(&digest, &enc.sha256) && total == enc.total_length
    }

    pub fn duplicate(&self) -> (r: Self)
        ensures
            r@ == self@,
    {
        let key = self.key.duplicate();
        let mut headers: Vec<HeaderField> = Vec::new();
        let mut i: usize = 0;
        while i < self.headers.len()
            invariant
                i <= self.headers@.len(),
                headers@.len() == i,
                forall|j: int| 0 <= j < i ==> headers@[j]@ == self.headers@[j]@,
            decreases self.headers@.len() - i,
        {
            headers.push(self.headers[i].duplicate());
            i = i + 1;
        }
        proof {
            assert(headers.deep_view() =~~= self.headers.deep_view());
        }
        let mut encodings: Vec<(String, AssetEncoding)> = Vec::new();
        let mut k: usize = 0;
        while k < self.encodings.len()
            invariant
                k <= self.encodings@.len(),
                encodings@.len() == k,
                forall|j: int|
                    0 <= j < k ==> encodings@[j].0@ == self.encodings@[j].0@ && encodings@[j].1@
                        == self.encodings@[j].1@,
            decreases self.encodings@.len() - k,
        {
            let (name, enc) = &self.encodings[k];
            let mut chunks: Vec<Vec<u8>> = Vec::new();
            let mut c: usize = 0;
            while c < enc.content_chunks.len()
                invariant
                    c <= enc.content_chunks@.len(),
                    chunks@.len() == c,
                    forall|j: int| 0 <= j < c ==> chunks@[j]@ == enc.content_chunks@[j]@,
                decreases enc.content_chunks@.len() - c,
            {
                chunks.push(clone_bytes(&enc.content_chunks[c]));
                c = c + 1;
            }
            proof {
                assert(chunks.deep_view() =~~= enc.content_chunks.deep_view());
            }
            let enc2 = AssetEncoding {
                modified: enc.modified,
                content_chunks: chunks,
                total_length: enc.total_length,
                sha256: enc.sha256,
            };
            encodings.push((name.clone(), enc2));
            k = k + 1;
        }
        proof {
            assert(encodings.deep_view() =~~= self.encodings.deep_view());
        }
        Asset { key, headers, encodings }
    }
}

/// One in-flight upload session: the key the asset will be committed under,
/// and the deadline by which the upload must complete.
pub struct Batch {
    pub key: AssetKey,
    pub expires_at: u64,
}

/// Mathematical view of a [`Batch`].
pub struct BatchV {
    pub key: AssetKeyV,
    pub expires_at: u64,
}

impl View for Batch {
    type V = BatchV;

    open spec fn view(&self) -> BatchV {
        BatchV { key: self.key@, expires_at: self.expires_at }
    }
}

impl DeepView for Batch {
    type V = BatchV;

    open spec fn deep_view(&self) -> BatchV {
        self@
    }
}

/// One staged fragment of content, bound to its upload batch.
pub struct Chunk {
    pub batch_id: u128,
    pub content: Vec<u8>,
}

/// Mathematical view of a [`Chunk`].
pub struct ChunkV {
    pub batch_id: u128,
    pub content: Seq<u8>,
}

impl View for Chunk {
    type V = ChunkV;

    open spec fn view(&self) -> ChunkV {
        ChunkV { batch_id: self.batch_id, content: self.content@ }
    }
}

impl DeepView for Chunk {
    type V = ChunkV;

    open spec fn deep_view(&self) -> ChunkV {
        self@
    }
}

/// Result of starting an upload.
pub struct InitUpload {
    pub batch_id: u128,
}

/// Result of staging one chunk.
pub struct UploadChunk {
    pub chunk_id: u128,
}

/// A commit request: which batch, which chunks in serving order, and the
/// response headers the asset should carry.
pub struct CommitBatch {
    pub batch_id: u128,
    pub headers: Vec<HeaderField>,
    pub chunk_ids: Vec<u128>,
}

/// A deletion request: the exact full path, and the access token if the
/// asset is protected.
pub struct Del {
    pub full_path: String,
    pub token: Option<String>,
}

} // verus!
