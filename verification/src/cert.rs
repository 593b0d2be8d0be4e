//! Certification: the prefixed root hash published to the host attestation
//! facility, and the per-request `IC-Certificate` header binding a served
//! path to the attested root.

use crate::crypto::{base64_nopad, base64_nopad_of};
use crate::errors::BucketError;
use crate::hashtree::{
    labeled_hash_of, tree_root, tree_witness_blob, tree_witness_blob_of, AssetHashes, Digest,
};
use crate::types::HeaderField;
use vstd::prelude::*;
use vstd::string::StringExecFns;

verus! {

/// The root hash to hand to the host attestation mechanism: the tree's
/// root hash under the asset label. Publish it after every mutation,
/// before any read is served as certified.
pub fn update_certified_data_hash(asset_hashes: &AssetHashes) -> (r: Digest)
    ensures
        r@ == labeled_hash_of("http_assets"@, tree_root(asset_hashes.tree)),
{
    let root = asset_hashes.root_hash();
    crate::hashtree::labeled_root_hash("http_assets", &root)
}

/// The value of the `IC-Certificate` header for a given attestation blob
/// and witness blob: exact framing, preserved for client verifiers.
pub open spec fn cert_header_value(certificate: Seq<u8>, witness: Seq<u8>) -> Seq<char> {
    "certificate=:"@ + base64_nopad_of(certificate) + ":, tree=:"@ + base64_nopad_of(witness)
        + ":"@
}

/// Builds the `IC-Certificate` header for `url`: the attested blob and a
/// witness for the path, both base64. Fails only with `NoAttestation`,
/// when the host has no certificate for this context; the witness
/// serialization itself cannot fail, so with an attestation present the
/// header is owed.
pub fn build_asset_certificate_header(
    asset_hashes: &AssetHashes,
    url: &str,
    certificate: Option<&Vec<u8>>,
) -> (r: Result<HeaderField, BucketError>)
    ensures
        match certificate {
            None => r == Err::<HeaderField, BucketError>(BucketError::NoAttestation),
            Some(cert) => r matches Ok(h) && h.0@ == "IC-Certificate"@ && h.1@
                == cert_header_value(
                cert@,
                tree_witness_blob_of(asset_hashes.tree, "http_assets"@, url@),
            ),
        },
{
    match certificate {
        None => Err(BucketError::NoAttestation),
        Some(cert) => build_asset_certificate_header_impl(cert, asset_hashes, url),
    }
}

fn build_asset_certificate_header_impl(
    certificate: &Vec<u8>,
    asset_hashes: &AssetHashes,
    url: &str,
) -> (r: Result<HeaderField, BucketError>)
    ensures
        r matches Ok(h) && h.0@ == "IC-Certificate"@ && h.1@ == cert_header_value(
            certificate@,
            tree_witness_blob_of(asset_hashes.tree, "http_assets"@, url@),
        ),
{
    match tree_witness_blob(&asset_hashes.tree, "http_assets", url) {
        Err(_) => {
            proof {
                assert(false);
            }
            unreached()
        },
        Ok(blob) => {
            let b64cert = base64_nopad(certificate.as_slice());
            let b64tree = base64_nopad(blob.as_slice());
            let mut value = String::new();
            value.append("certificate=:");
            value.append(b64cert.as_str());
            value.append(":, tree=:");
            value.append(b64tree.as_str());
            value.append(":");
            proof {
                assert(value@ =~= cert_header_value(
                    certificate@,
                    tree_witness_blob_of(asset_hashes.tree, "http_assets"@, url@),
                ));
            }
            Ok(HeaderField("IC-Certificate".to_owned(), value))
        },
    }
}

} // verus!
