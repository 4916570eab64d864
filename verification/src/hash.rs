//! SHA-256 digests of bytes, texts and file trees.
use sha2::Digest;
use vstd::bytes::{spec_u64_to_le_bytes, u64_to_le_bytes};
use vstd::prelude::*;
use crate::paths::{files, FileEntry, FileModel};
use crate::text::{hex, hex_has_digest_form, hex_text, is_digest, utf8};

verus! {

/// The SHA-256 digest of bytes, as `sha2::Sha256::digest` computes it.
pub uninterp spec fn sha256(bytes: Seq<u8>) -> Seq<u8>;

/// Calls `sha2::Sha256::digest`, whose result has thirty-two bytes.
#[verifier::external_body]
pub(crate) fn sha256_digest(bytes: &[u8]) -> (r: Vec<u8>)
    ensures
        r@ == sha256(bytes@),
        r@.len() == 32,
{
    sha2::Sha256::digest(bytes).to_vec()
}

/// The SHA-256 digest of bytes in lower-case hexadecimal.
pub open spec fn digest_text(bytes: Seq<u8>) -> Seq<char> {
    hex(sha256(bytes))
}

/// Returns the SHA-256 digest of bytes in lower-case hexadecimal.
pub fn sha256_bytes(bytes: &[u8]) -> (r: String)
    ensures
        r@ == digest_text(bytes@),
        is_digest(r@),
{
    let digest = sha256_digest(bytes);
    proof {
        hex_has_digest_form(digest@);
    }
    hex_text(digest.as_slice())
}

/// Returns the SHA-256 digest of a text in lower-case hexadecimal.
pub fn sha256_text(text: &str) -> (r: String)
    ensures
        r@ == digest_text(utf8(text@)),
        is_digest(r@),
{
    sha256_bytes(text.as_bytes())
}

/// A length as eight little-endian bytes.
pub open spec fn length_prefix(n: int) -> Seq<u8> {
    spec_u64_to_le_bytes(n as u64)
}

/// One file in the material of a tree digest: path and content, each behind its length.
pub open spec fn file_material(file: FileModel) -> Seq<u8> {
    length_prefix(utf8(file.0).len() as int) + utf8(file.0) + length_prefix(file.1.len() as int)
        + file.1
}

/// The material of a tree digest.
pub open spec fn tree_material(tree: Seq<FileModel>) -> Seq<u8>
    decreases tree.len(),
{
    if tree.len() == 0 {
        Seq::empty()
    } else {
        tree_material(tree.drop_last()) + file_material(tree.last())
    }
}

/// The digest of a file tree.
pub open spec fn tree_digest(tree: Seq<FileModel>) -> Seq<char> {
    digest_text(tree_material(tree))
}

fn append_bytes(out: &mut Vec<u8>, bytes: &[u8])
    ensures
        final(out)@ == old(out)@ + bytes@,
{
    out.extend_from_slice(bytes);
    assert(out@ =~= old(out)@ + bytes@);
}

/// Returns the digest of a file tree.
pub fn hash_entries(tree: &[FileEntry]) -> (r: String)
    ensures
        r@ == tree_digest(files(tree@)),
        is_digest(r@),
{
    let mut material: Vec<u8> = Vec::new();
    let ghost all = files(tree@);
    let mut i: usize = 0;
    while i < tree.len()
        invariant
            i <= tree@.len(),
            all == files(tree@),
            material@ == tree_material(all.take(i as int)),
        decreases tree@.len() - i,
    {
        let ghost t = all.take(i + 1);
        assert(t.drop_last() =~= all.take(i as int));
        assert(t.last() == tree@[i as int]@);
        let path = tree[i].path.as_str().as_bytes();
        let ghost before = material@;
        let path_length = u64_to_le_bytes(path.len() as u64);
        append_bytes(&mut material, path_length.as_slice());
        append_bytes(&mut material, path);
        let length = u64_to_le_bytes(tree[i].bytes.len() as u64);
        append_bytes(&mut material, length.as_slice());
        append_bytes(&mut material, tree[i].bytes.as_slice());
        assert(material@ =~= before + file_material(t.last()));
        i += 1;
    }
    assert(all.take(tree@.len() as int) =~= all);
    sha256_bytes(material.as_slice())
}

} // verus!
