use vstd::prelude::*;

verus! {

/// A block identifier: the digest of a header's content.
pub type HashValue = u64;

/// The sentinel that the genesis header names as its parent and that seeds
/// the relations before genesis is committed.
pub const ORIGIN: HashValue = 0;

/// A block header: its identifying hash and its ordered parent hashes.
/// Two headers with the same hash are the same header.
#[derive(Debug, Clone)]
pub struct Header {
    pub hash: HashValue,
    pub parents: Vec<HashValue>,
}

impl View for Header {
    type V = (HashValue, Seq<HashValue>);

    open spec fn view(&self) -> (HashValue, Seq<HashValue>) {
        (self.hash, self.parents@)
    }
}

impl Header {
    pub fn new(hash: HashValue, parents: Vec<HashValue>) -> (r: Header)
        ensures
            r.hash == hash,
            r.parents@ == parents@,
    {
        Header { hash, parents }
    }

    pub fn hash(&self) -> (r: HashValue)
        ensures
            r == self.hash,
    {
        self.hash
    }

    pub fn parents_hash(&self) -> (r: &Vec<HashValue>)
        ensures
            r@ == self.parents@,
    {
        &self.parents
    }

    /// A copy with the same hash and parents.
    pub fn duplicate(&self) -> (r: Header)
        ensures
            r@ == self@,
    {
        let parents = self.parents.clone();
        assert(parents@ =~= self.parents@);
        Header { hash: self.hash, parents }
    }
}

/// Consensus data of one block: its selected parent, the blocks it merges
/// besides the selected parent (blue and red), and its blue score.
#[derive(Debug, Clone)]
pub struct GhostdagData {
    pub selected_parent: HashValue,
    pub blue_score: u64,
    pub mergeset_blues: Vec<HashValue>,
    pub mergeset_reds: Vec<HashValue>,
}

/// The mathematical value of a `GhostdagData`.
pub struct GhostdagModel {
    pub selected_parent: HashValue,
    pub blue_score: u64,
    pub blues: Seq<HashValue>,
    pub reds: Seq<HashValue>,
}

impl View for GhostdagData {
    type V = GhostdagModel;

    open spec fn view(&self) -> GhostdagModel {
        GhostdagModel {
            selected_parent: self.selected_parent,
            blue_score: self.blue_score,
            blues: self.mergeset_blues@,
            reds: self.mergeset_reds@,
        }
    }
}

impl GhostdagData {
    pub fn new(
        selected_parent: HashValue,
        blue_score: u64,
        mergeset_blues: Vec<HashValue>,
        mergeset_reds: Vec<HashValue>,
    ) -> (r: GhostdagData)
        ensures
            r@ == (GhostdagModel {
                selected_parent,
                blue_score,
                blues: mergeset_blues@,
                reds: mergeset_reds@,
            }),
    {
        GhostdagData { selected_parent, blue_score, mergeset_blues, mergeset_reds }
    }

    /// The merge set without the selected parent: the blues, then the reds.
    pub open spec fn mergeset(self) -> Seq<HashValue> {
        self.mergeset_blues@ + self.mergeset_reds@
    }

    pub fn unordered_mergeset_without_selected_parent(&self) -> (r: Vec<HashValue>)
        ensures
            r@ == self.mergeset(),
    {
        let mut r: Vec<HashValue> = Vec::new();
        for i in 0..self.mergeset_blues.len()
            invariant
                r@ == self.mergeset_blues@.subrange(0, i as int),
        {
            r.push(self.mergeset_blues[i]);
            assert(r@ =~= self.mergeset_blues@.subrange(0, i + 1));
        }
        let nb = self.mergeset_blues.len();
        for j in 0..self.mergeset_reds.len()
            invariant
                nb == self.mergeset_blues@.len(),
                r@ == self.mergeset_blues@ + self.mergeset_reds@.subrange(0, j as int),
        {
            r.push(self.mergeset_reds[j]);
            assert(r@ =~= self.mergeset_blues@ + self.mergeset_reds@.subrange(0, j + 1));
        }
        assert(self.mergeset_reds@.subrange(0, self.mergeset_reds@.len() as int)
            =~= self.mergeset_reds@);
        r
    }
}

/// What the header table stores for a block: the header and an auxiliary
/// counter kept for later ordering use.
#[derive(Debug, Clone)]
pub struct HeaderRecord {
    pub header: Header,
    pub counter: u64,
}

impl View for HeaderRecord {
    type V = (HashValue, Seq<HashValue>, u64);

    open spec fn view(&self) -> (HashValue, Seq<HashValue>, u64) {
        (self.header.hash, self.header.parents@, self.counter)
    }
}

/// What the reachability table stores for a block: the selected parent it
/// was indexed under and the merge-set members that were indexed with it.
#[derive(Debug, Clone)]
pub struct ReachabilityEntry {
    pub selected_parent: HashValue,
    pub mergeset: Vec<HashValue>,
}

impl View for ReachabilityEntry {
    type V = (HashValue, Seq<HashValue>);

    open spec fn view(&self) -> (HashValue, Seq<HashValue>) {
        (self.selected_parent, self.mergeset@)
    }
}

} // verus!
