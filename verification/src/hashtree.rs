//! The certified hash tree: an ordered map from full path to content digest,
//! kept by `ic_certified_map::RbTree`. Its contents are modelled by the name
//! `tree_entries`; the root hash and the serialized witness are deterministic
//! functions of the tree value and are named too, since a verifying client
//! only ever compares them against each other.

use ic_certified_map::AsHashTree;
use ic_certified_map::RbTree;
use vstd::prelude::*;

verus! {

/// A 32-byte content digest.
pub type Digest = [u8; 32];

#[verifier::external_type_specification]
#[verifier::external_body]
#[verifier::reject_recursive_types(K)]
#[verifier::reject_recursive_types(V)]
pub struct ExRbTree<K, V>(RbTree<K, V>);

/// The entries of the tree: full path (as characters) to 32-byte digest.
/// The tree orders and compares keys by their UTF-8 bytes, which determine
/// the characters uniquely, so the map over character sequences is exact.
pub uninterp spec fn tree_entries(t: RbTree<String, Digest>) -> Map<Seq<char>, Seq<u8>>;

/// The root hash of the tree value. Two trees with equal entries may have
/// been built by different histories and hash differently, so this is a
/// function of the tree value, not of `tree_entries` alone.
pub uninterp spec fn tree_root(t: RbTree<String, Digest>) -> Seq<u8>;

/// The serialized, labeled witness proving presence or absence of `key`
/// against the root hash of `t`.
pub uninterp spec fn tree_witness_blob_of(
    t: RbTree<String, Digest>,
    label: Seq<char>,
    key: Seq<char>,
) -> Seq<u8>;

/// The domain-separated hash binding `label` to a content hash.
pub uninterp spec fn labeled_hash_of(label: Seq<char>, content_hash: Seq<u8>) -> Seq<u8>;

/// Relies on `RbTree::new`: the fresh tree is empty.
#[verifier::external_body]
pub(crate) fn tree_new() -> (r: RbTree<String, Digest>)
    ensures
        forall|p: Seq<char>| !tree_entries(r).contains_key(p),
{
    RbTree::new()
}

/// Relies on `RbTree::insert`: inserts or replaces the value at `key`.
#[verifier::external_body]
pub(crate) fn tree_insert(t: &mut RbTree<String, Digest>, key: String, value: Digest)
    ensures
        tree_entries(*final(t)) == tree_entries(*old(t)).insert(key@, value@),
{
    t.insert(key, value);
}

/// Relies on `RbTree::delete`: removes the entry whose key has the UTF-8
/// bytes of `key`, if present.
#[verifier::external_body]
pub(crate) fn tree_delete(t: &mut RbTree<String, Digest>, key: &str)
    ensures
        tree_entries(*final(t)) == tree_entries(*old(t)).remove(key@),
{
    t.delete(key.as_bytes());
}

/// Relies on `AsHashTree::root_hash` for `RbTree`: a pure function of the
/// tree value.
#[verifier::external_body]
pub(crate) fn tree_root_hash(t: &RbTree<String, Digest>) -> (r: Digest)
    ensures
        r@ == tree_root(*t),
{
    t.root_hash()
}

/// Relies on `ic_certified_map::labeled_hash`: a pure function of the label
/// bytes and the content hash.
#[verifier::external_body]
pub(crate) fn labeled_root_hash(label: &str, content_hash: &Digest) -> (r: Digest)
    ensures
        r@ == labeled_hash_of(label@, content_hash@),
{
    ic_certified_map::labeled_hash(label.as_bytes(), content_hash)
}

/// Relies on `RbTree::witness`, `ic_certified_map::labeled` and
/// `ciborium::ser::into_writer`: the witness for `key` is derived from the
/// tree, wrapped under `label`, and serialized to CBOR; each step is a pure
/// function of its inputs. The serialization always succeeds: the writer is
/// a `Vec`, whose `Write` impl is infallible, and the hash tree's
/// serializer emits only arrays, byte strings and integers, never the
/// tagged values that are `into_writer`'s other error source.
#[verifier::external_body]
pub(crate) fn tree_witness_blob(
    t: &RbTree<String, Digest>,
    label: &str,
    key: &str,
) -> (r: Result<Vec<u8>, ()>)
    ensures
        r is Ok,
        r matches Ok(b) ==> b@ == tree_witness_blob_of(*t, label@, key@),
{
    let witness = t.witness(key.as_bytes());
    let tree = ic_certified_map::labeled(label.as_bytes(), witness);
    let mut writer = Vec::<u8>::new();
    match ciborium::ser::into_writer(&tree, &mut writer) {
        Ok(()) => Ok(writer),
        Err(_) => Err(()),
    }
}

/// The hash tree of all committed assets: one leaf per full path, holding
/// the SHA-256 digest of the asset's raw content.
pub struct AssetHashes {
    pub tree: RbTree<String, Digest>,
}

impl AssetHashes {
    /// The path-to-digest entries of the tree.
    pub open spec fn entries(self) -> Map<Seq<char>, Seq<u8>> {
        tree_entries(self.tree)
    }

    pub fn new() -> (r: Self)
        ensures
            r.entries() == Map::<Seq<char>, Seq<u8>>::empty(),
    {
        let t = tree_new();
        proof {
            assert(tree_entries(t) =~= Map::<Seq<char>, Seq<u8>>::empty());
        }
        AssetHashes { tree: t }
    }

    /// Inserts or replaces the leaf at `full_path`.
    pub fn insert(&mut self, full_path: String, digest: Digest)
        ensures
            final(self).entries() == old(self).entries().insert(full_path@, digest@),
    {
        tree_insert(&mut self.tree, full_path, digest);
    }

    /// Removes the leaf at `full_path`, if present.
    pub fn delete(&mut self, full_path: &str)
        ensures
            final(self).entries() == old(self).entries().remove(full_path@),
    {
        tree_delete(&mut self.tree, full_path);
    }

    /// The root hash of the tree.
    pub fn root_hash(&self) -> (r: Digest)
        ensures
            r@ == tree_root(self.tree),
    {
        tree_root_hash(&self.tree)
    }
}

} // verus!
