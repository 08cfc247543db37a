//! Content identifiers.

use vstd::prelude::*;

verus! {

/// A 256-bit content digest. Its view is the sequence of its 32 bytes.
#[derive(Clone, Copy, Debug, PartialEq, Eq, PartialOrd, Ord, Hash)]
pub struct Hash256 {
    pub hash: [u8; 32],
}

impl View for Hash256 {
    type V = Seq<u8>;

    open spec fn view(&self) -> Seq<u8> {
        self.hash@
    }
}

impl Hash256 {
    /// Whether the two digests hold the same bytes.
    pub fn same(&self, other: &Hash256) -> (r: bool)
        ensures
            r == (self@ == other@),
    {
        let mut i: usize = 0;
        while i < 32
            invariant
                i <= 32,
                forall|j: int| 0 <= j < i ==> self.hash@[j] == other.hash@[j],
            decreases 32 - i,
        {
            if self.hash[i] != other.hash[i] {
                return false;
            }
            i += 1;
        }
        proof {
            assert(self.hash@ =~= other.hash@);
        }
        true
    }
}

/// Digests are equal exactly when their bytes are.
pub proof fn lemma_hash_view_injective(a: Hash256, b: Hash256)
    ensures
        (a@ == b@) <==> (a == b),
{
    if a@ == b@ {
        assert(a.hash =~= b.hash);
    }
}

/// The identifier of a commit.
pub type CommitHash = Hash256;

/// The name of a branch.
pub type Branch = String;

/// The name of a tag.
pub type Tag = String;

/// The bytes of each digest of a list, in the list's order.
pub open spec fn hashes_of(v: Seq<Hash256>) -> Seq<Seq<u8>> {
    v.map_values(|h: Hash256| h@)
}

/// The characters of each name of a list, in the list's order.
pub open spec fn names_of(v: Seq<String>) -> Seq<Seq<char>> {
    v.map_values(|s: String| s@)
}

} // verus!
