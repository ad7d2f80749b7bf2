//! The equality policy: whether a source file and the destination file of the
//! same relative path count as equal, so that the destination is left alone.

use sha1::{Digest, Sha1};
use vstd::prelude::*;

verus! {

/// How hard the planner looks at a pair of files before it decides to
/// replace the destination.
#[derive(Clone, Copy, Debug, PartialEq, Eq, Structural)]
pub enum OverwriteMode {
    /// Every pair counts as different: the destination is replaced each run.
    Always,
    /// A pair is equal when the two byte lengths are.
    FastComp,
    /// A pair is equal when the lengths and the SHA-1 digests are.
    DeepComp,
    /// Every pair counts as equal: an existing destination is never replaced.
    Never,
}

/// The SHA-1 digest of `data`.
pub uninterp spec fn sha1_digest(data: Seq<u8>) -> Seq<u8>;

/// Calls `sha1::Sha1::digest` (the `digest` crate's one-shot
/// `Digest::digest`) on the whole of `data` and copies the output array into
/// a vector. The digest is trusted to be a function of the bytes alone;
/// nothing else is claimed of it.
#[verifier::external_body]
fn sha1_of(data: &[u8]) -> (digest: Vec<u8>)
    ensures
        digest@ == sha1_digest(data@),
{
    Sha1::digest(data).to_vec()
}

/// The verdict of `mode` on a source file holding `src` and a destination
/// file holding `dest`: `true` when they count as equal.
pub open spec fn judged_equal(mode: OverwriteMode, src: Seq<u8>, dest: Seq<u8>) -> bool {
    match mode {
        OverwriteMode::Always => false,
        OverwriteMode::Never => true,
        OverwriteMode::FastComp => src.len() == dest.len(),
        OverwriteMode::DeepComp => src.len() == dest.len() && sha1_digest(src) == sha1_digest(dest),
    }
}

/// What `mode` decides from the two lengths alone: `Some(verdict)` where the
/// contents cannot change it, `None` where they have to be read.
pub open spec fn length_verdict(mode: OverwriteMode, src_len: nat, dest_len: nat) -> Option<bool> {
    match mode {
        OverwriteMode::Always => Some(false),
        OverwriteMode::Never => Some(true),
        OverwriteMode::FastComp => Some(src_len == dest_len),
        OverwriteMode::DeepComp => if src_len == dest_len {
            None
        } else {
            Some(false)
        },
    }
}

/// Whether two digests are the same bytes.
pub fn same_bytes(a: &Vec<u8>, b: &Vec<u8>) -> (same: bool)
    ensures
        same == (a@ == b@),
{
    if a.len() != b.len() {
        return false;
    }
    let mut i: usize = 0;
    while i < a.len()
        invariant
            a.len() == b.len(),
            i <= a.len(),
            forall|j: int| 0 <= j < i ==> a@[j] == b@[j],
        decreases a.len() - i,
    {
        if a[i] != b[i] {
            return false;
        }
        i += 1;
    }
    assert(a@ =~= b@);
    true
}

impl OverwriteMode {
    /// The verdict that needs no look at either file, if the mode has one.
    /// `Always` and `Never` do; the comparing modes return `None`.
    pub fn verdict_without_files(self) -> (verdict: Option<bool>)
        ensures
            verdict == match self {
                OverwriteMode::Always => Some(false),
                OverwriteMode::Never => Some(true),
                _ => None::<bool>,
            },
            verdict matches Some(v) ==> forall|src: Seq<u8>, dest: Seq<u8>|
                #[trigger] judged_equal(self, src, dest) == v,
    {
        match self {
            OverwriteMode::Always => Some(false),
            OverwriteMode::Never => Some(true),
            _ => None,
        }
    }

    /// The verdict as far as the two byte lengths settle it. `None` means
    /// that the mode is `DeepComp` and the lengths agree, so that only the
    /// contents can tell.
    pub fn verdict_from_lengths(self, src_len: u64, dest_len: u64) -> (verdict: Option<bool>)
        ensures
            verdict == length_verdict(self, src_len as nat, dest_len as nat),
            verdict is None <==> self == OverwriteMode::DeepComp && src_len == dest_len,
            verdict matches Some(v) ==> forall|src: Seq<u8>, dest: Seq<u8>|
                src.len() == src_len && dest.len() == dest_len ==> #[trigger] judged_equal(
                    self,
                    src,
                    dest,
                ) == v,
            verdict is None ==> forall|src: Seq<u8>, dest: Seq<u8>|
                src.len() == src_len && dest.len() == dest_len ==> #[trigger] judged_equal(
                    self,
                    src,
                    dest,
                ) == (sha1_digest(src) == sha1_digest(dest)),
    {
        match self {
            OverwriteMode::Always => Some(false),
            OverwriteMode::Never => Some(true),
            OverwriteMode::FastComp => Some(src_len == dest_len),
            OverwriteMode::DeepComp => if src_len == dest_len {
                None
            } else {
                Some(false)
            },
        }
    }
}

/// The digest of a file's whole content. A caller that cannot hold two
/// files at once takes the digest of each in turn and compares the two.
pub fn content_digest(content: &[u8]) -> (digest: Vec<u8>)
    ensures
        digest@ == sha1_digest(content@),
{
    sha1_of(content)
}

/// Whether two byte strings have the same SHA-1 digest.
pub fn same_digest(src: &[u8], dest: &[u8]) -> (same: bool)
    ensures
        same == (sha1_digest(src@) == sha1_digest(dest@)),
{
    let src_digest = content_digest(src);
    let dest_digest = content_digest(dest);
    same_bytes(&src_digest, &dest_digest)
}

/// Decides whether an existing pair of files counts as equal under `mode`,
/// given the full contents of both. The contents are hashed only when the
/// mode is `DeepComp` and the lengths agree.
pub fn files_equal(mode: OverwriteMode, src: &[u8], dest: &[u8]) -> (equal: bool)
    ensures
        equal == judged_equal(mode, src@, dest@),
{
    match mode {
        OverwriteMode::Always => false,
        OverwriteMode::Never => true,
        OverwriteMode::FastComp => src.len() == dest.len(),
        OverwriteMode::DeepComp => {
            if src.len() != dest.len() {
                false
            } else {
                same_digest(src, dest)
            }
        },
    }
}

/// Under `FastComp` two files of one length are equal whatever they hold.
pub proof fn lemma_fast_compare_ignores_content(src: Seq<u8>, dest: Seq<u8>)
    requires
        src.len() == dest.len(),
    ensures
        judged_equal(OverwriteMode::FastComp, src, dest),
{
}

/// Under `DeepComp` two files are equal exactly when both the length and the
/// digest of the whole content agree.
pub proof fn lemma_deep_compare_is_length_and_digest(src: Seq<u8>, dest: Seq<u8>)
    ensures
        judged_equal(OverwriteMode::DeepComp, src, dest) <==> (src.len() == dest.len()
            && sha1_digest(src) == sha1_digest(dest)),
        src == dest ==> judged_equal(OverwriteMode::DeepComp, src, dest),
{
}

} // verus!
