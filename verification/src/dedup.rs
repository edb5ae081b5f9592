//! File identities and the set of identities already visited.

use std::collections::HashSet;
use vstd::prelude::*;

verus! {

/// Where a file's content is stored: the device and the inode on it. Every
/// hard link of a file has the same identity.
#[derive(Clone, Copy, Debug, PartialEq, Eq, Structural, Hash)]
pub struct FileIdentity {
    pub device: u64,
    pub inode: u64,
}

/// The number under which an identity is kept: the device in the upper
/// half, the inode in the lower.
spec fn key_of(identity: FileIdentity) -> u128 {
    (identity.device * 0x1_0000_0000_0000_0000 + identity.inode) as u128
}

/// Different identities are kept under different numbers.
proof fn lemma_key_tells_apart(a: FileIdentity, b: FileIdentity)
    ensures
        key_of(a) == key_of(b) <==> a == b,
{
    if key_of(a) == key_of(b) {
    }
}

fn key(identity: FileIdentity) -> (k: u128)
    ensures
        k == key_of(identity),
{
    (identity.device as u128) * 0x1_0000_0000_0000_0000u128 + (identity.inode as u128)
}

/// The identities of the files visited so far in a run. An identity enters
/// at most once, when its file is about to be handed to the handlers.
pub struct InodeDedupSet {
    keys: HashSet<u128>,
}

impl View for InodeDedupSet {
    type V = Set<FileIdentity>;

    closed spec fn view(&self) -> Set<FileIdentity> {
        Set::new(|identity: FileIdentity| self.keys@.contains(key_of(identity)))
    }
}

impl InodeDedupSet {
    /// The empty set.
    pub fn new() -> (set: InodeDedupSet)
        ensures
            set@ == Set::<FileIdentity>::empty(),
    {
        let set = InodeDedupSet { keys: HashSet::new() };
        set
    }

    /// Whether `identity` was inserted before.
    pub fn contains(&self, identity: FileIdentity) -> (present: bool)
        ensures
            present == self@.contains(identity),
    {
        let k = key(identity);
        self.keys.contains(&k)
    }

    /// Inserts `identity` and says whether it is new to the set.
    pub fn insert(&mut self, identity: FileIdentity) -> (fresh: bool)
        ensures
            final(self)@ == old(self)@.insert(identity),
            fresh == !old(self)@.contains(identity),
    {
        let k = key(identity);
        let fresh = self.keys.insert(k);
        proof {
            assert forall|other: FileIdentity|
                self@.contains(other) == old(self)@.insert(identity).contains(other) by {
                lemma_key_tells_apart(other, identity);
            }
        }
        fresh
    }
}

} // verus!
