//! What a buffer's file held on disk when the buffer last read or wrote it,
//! and whether the file changed since.
use vstd::prelude::*;

use sha2::Digest;

verus! {

/// A modification time: seconds and nanoseconds since the Unix epoch.
#[derive(Debug, Clone, Copy, PartialEq, Eq, Structural)]
pub struct Stamp {
    pub secs: u64,
    pub nanos: u32,
}

/// What a file held: nothing, or its modification time (when the system
/// reports one) and the SHA-256 fingerprint of its bytes.
#[derive(Debug, Clone)]
pub enum DiskState {
    Missing,
    Present { modified: Option<Stamp>, fingerprint: Vec<u8> },
}

/// A disk state as a value.
pub enum DiskStateView {
    Missing,
    Present { modified: Option<Stamp>, fingerprint: Seq<u8> },
}

impl View for DiskState {
    type V = DiskStateView;

    open spec fn view(&self) -> DiskStateView {
        match self {
            DiskState::Missing => DiskStateView::Missing,
            DiskState::Present { modified, fingerprint } => DiskStateView::Present {
                modified: *modified,
                fingerprint: fingerprint@,
            },
        }
    }
}

/// The SHA-256 digest of `bytes`.
pub uninterp spec fn sha256_digest(bytes: Seq<u8>) -> Seq<u8>;

/// `Digest::digest` of sha2's `Sha256`: the 32-byte SHA-256 digest of
/// `bytes`. Which digest a given input has is left to the name.
#[verifier::external_body]
fn sha256(bytes: &[u8]) -> (d: Vec<u8>)
    ensures
        d@ == sha256_digest(bytes@),
        d@.len() == 32,
{
    sha2::Sha256::digest(bytes).to_vec()
}

/// The state of a file that holds `bytes` and was modified at `modified`.
pub fn present_state(modified: Option<Stamp>, bytes: &[u8]) -> (s: DiskState)
    ensures
        s@ == (DiskStateView::Present { modified, fingerprint: sha256_digest(bytes@) }),
{
    DiskState::Present { modified, fingerprint: sha256(bytes) }
}

fn same_bytes(a: &Vec<u8>, b: &Vec<u8>) -> (r: bool)
    ensures
        r == (a@ == b@),
{
    if a.len() != b.len() {
        return false;
    }
    let mut i: usize = 0;
    while i < a.len()
        invariant
            a@.len() == b@.len(),
            i <= a@.len(),
            forall|j: int| 0 <= j < i ==> a@[j] == b@[j],
        decreases a@.len() - i,
    {
        if a[i] != b[i] {
            return false;
        }
        i += 1;
    }
    assert(a@ =~= b@);
    true
}

/// Whether the file of a buffer that last saw it as `seen` changed on
/// disk: its current state differs, or could not be read (`None`), in
/// which case a save must stay careful.
pub fn changed_on_disk(seen: &DiskState, current: Option<&DiskState>) -> (b: bool)
    ensures
        b == match current {
            None => true,
            Some(c) => seen@ != c@,
        },
{
    match current {
        None => true,
        Some(c) => match (seen, c) {
            (DiskState::Missing, DiskState::Missing) => false,
            (
                DiskState::Present { modified: m1, fingerprint: f1 },
                DiskState::Present { modified: m2, fingerprint: f2 },
            ) => {
                let same_time = match (m1, m2) {
                    (None, None) => true,
                    (Some(t1), Some(t2)) => t1.secs == t2.secs && t1.nanos == t2.nanos,
                    _ => false,
                };
                !(same_time && same_bytes(f1, f2))
            },
            _ => true,
        },
    }
}

} // verus!
