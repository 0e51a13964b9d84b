use crate::types::{GhostdagData, GhostdagModel, HashValue, Header, HeaderRecord, ORIGIN, ReachabilityEntry};
use std::collections::HashMap;
use vstd::prelude::*;

verus! {

broadcast use vstd::std_specs::hash::group_hash_axioms;

/// Parent lists by block hash.
pub struct RelationsStore {
    map: HashMap<HashValue, Vec<HashValue>>,
}

impl View for RelationsStore {
    type V = Map<HashValue, Seq<HashValue>>;

    closed spec fn view(&self) -> Map<HashValue, Seq<HashValue>> {
        self.map@.map_values(|v: Vec<HashValue>| v@)
    }
}

impl RelationsStore {
    pub fn new() -> (r: RelationsStore)
        ensures
            r@ == Map::<HashValue, Seq<HashValue>>::empty(),
    {
        let r = RelationsStore { map: HashMap::new() };
        assert(r@ =~= Map::<HashValue, Seq<HashValue>>::empty());
        r
    }

    pub fn has(&self, hash: HashValue) -> (r: bool)
        ensures
            r == self@.contains_key(hash),
    {
        self.map.contains_key(&hash)
    }

    pub fn get_parents(&self, hash: HashValue) -> (r: Option<&Vec<HashValue>>)
        ensures
            match r {
                Some(p) => self@.contains_key(hash) && p@ == self@[hash],
                None => !self@.contains_key(hash),
            },
    {
        self.map.get(&hash)
    }

    pub fn insert(&mut self, hash: HashValue, parents: Vec<HashValue>)
        ensures
            final(self)@ == old(self)@.insert(hash, parents@),
    {
        let ghost p = parents@;
        self.map.insert(hash, parents);
        assert(self@ =~= old(self)@.insert(hash, p));
    }
}

/// Header records by block hash.
pub struct HeaderStore {
    map: HashMap<HashValue, HeaderRecord>,
}

impl View for HeaderStore {
    type V = Map<HashValue, (HashValue, Seq<HashValue>, u64)>;

    closed spec fn view(&self) -> Map<HashValue, (HashValue, Seq<HashValue>, u64)> {
        self.map@.map_values(|v: HeaderRecord| v@)
    }
}

impl HeaderStore {
    pub fn new() -> (r: HeaderStore)
        ensures
            r@ == Map::<HashValue, (HashValue, Seq<HashValue>, u64)>::empty(),
    {
        let r = HeaderStore { map: HashMap::new() };
        assert(r@ =~= Map::<HashValue, (HashValue, Seq<HashValue>, u64)>::empty());
        r
    }

    pub fn has(&self, hash: HashValue) -> (r: bool)
        ensures
            r == self@.contains_key(hash),
    {
        self.map.contains_key(&hash)
    }

    pub fn get_header(&self, hash: HashValue) -> (r: Option<&HeaderRecord>)
        ensures
            match r {
                Some(h) => self@.contains_key(hash) && h@ == self@[hash],
                None => !self@.contains_key(hash),
            },
    {
        self.map.get(&hash)
    }

    pub fn insert(&mut self, hash: HashValue, header: &Header, counter: u64)
        ensures
            final(self)@ == old(self)@.insert(hash, (header.hash, header.parents@, counter)),
    {
        let record = HeaderRecord { header: header.duplicate(), counter };
        self.map.insert(hash, record);
        assert(self@ =~= old(self)@.insert(hash, (header.hash, header.parents@, counter)));
    }
}

/// Ghostdag data by block hash.
pub struct GhostdagStore {
    map: HashMap<HashValue, GhostdagData>,
}

impl View for GhostdagStore {
    type V = Map<HashValue, GhostdagModel>;

    closed spec fn view(&self) -> Map<HashValue, GhostdagModel> {
        self.map@.map_values(|v: GhostdagData| v@)
    }
}

impl GhostdagStore {
    pub fn new() -> (r: GhostdagStore)
        ensures
            r@ == Map::<HashValue, GhostdagModel>::empty(),
    {
        let r = GhostdagStore { map: HashMap::new() };
        assert(r@ =~= Map::<HashValue, GhostdagModel>::empty());
        r
    }

    pub fn has(&self, hash: HashValue) -> (r: bool)
        ensures
            r == self@.contains_key(hash),
    {
        self.map.contains_key(&hash)
    }

    pub fn get_data(&self, hash: HashValue) -> (r: Option<&GhostdagData>)
        ensures
            match r {
                Some(d) => self@.contains_key(hash) && d@ == self@[hash],
                None => !self@.contains_key(hash),
            },
    {
        self.map.get(&hash)
    }

    pub fn insert(&mut self, hash: HashValue, data: GhostdagData)
        ensures
            final(self)@ == old(self)@.insert(hash, data@),
    {
        let ghost d = data@;
        self.map.insert(hash, data);
        assert(self@ =~= old(self)@.insert(hash, d));
    }
}

/// The reachability index: each indexed block with the selected parent and
/// merge-set members it was indexed under, all of which were indexed first.
pub struct ReachabilityStore {
    map: HashMap<HashValue, ReachabilityEntry>,
}

impl View for ReachabilityStore {
    type V = Map<HashValue, (HashValue, Seq<HashValue>)>;

    closed spec fn view(&self) -> Map<HashValue, (HashValue, Seq<HashValue>)> {
        self.map@.map_values(|v: ReachabilityEntry| v@)
    }
}

impl ReachabilityStore {
    /// Every entry refers only to indexed blocks.
    pub open spec fn wf(&self) -> bool {
        forall|h: HashValue|
            #![trigger self@[h]]
            self@.contains_key(h) ==> {
                &&& self@.contains_key(self@[h].0)
                &&& forall|i: int|
                    0 <= i < self@[h].1.len() ==> self@.contains_key(#[trigger] self@[h].1[i])
            }
    }

    pub fn new() -> (r: ReachabilityStore)
        ensures
            r@ == Map::<HashValue, (HashValue, Seq<HashValue>)>::empty(),
            r.wf(),
    {
        let r = ReachabilityStore { map: HashMap::new() };
        assert(r@ =~= Map::<HashValue, (HashValue, Seq<HashValue>)>::empty());
        r
    }

    pub fn has(&self, hash: HashValue) -> (r: bool)
        ensures
            r == self@.contains_key(hash),
    {
        self.map.contains_key(&hash)
    }

    pub fn get_entry(&self, hash: HashValue) -> (r: Option<&ReachabilityEntry>)
        ensures
            match r {
                Some(e) => self@.contains_key(hash) && e@ == self@[hash],
                None => !self@.contains_key(hash),
            },
    {
        self.map.get(&hash)
    }

    /// Indexes the root `ORIGIN`, unless it is indexed already.
    pub fn init(&mut self)
        requires
            old(self).wf(),
        ensures
            final(self).wf(),
            final(self)@ == if old(self)@.contains_key(ORIGIN) {
                old(self)@
            } else {
                old(self)@.insert(ORIGIN, (ORIGIN, Seq::<HashValue>::empty()))
            },
    {
        if !self.map.contains_key(&ORIGIN) {
            let root = ReachabilityEntry { selected_parent: ORIGIN, mergeset: Vec::new() };
            self.map.insert(ORIGIN, root);
            assert(self@ =~= old(self)@.insert(ORIGIN, (ORIGIN, Seq::<HashValue>::empty())));
        }
    }

    /// Indexes `hash` under its selected parent and merge set, which must be
    /// indexed already.
    pub fn add_block(&mut self, hash: HashValue, selected_parent: HashValue, mergeset: Vec<HashValue>)
        requires
            old(self).wf(),
            !old(self)@.contains_key(hash),
            old(self)@.contains_key(selected_parent),
            forall|i: int| 0 <= i < mergeset@.len() ==> old(self)@.contains_key(#[trigger] mergeset@[i]),
        ensures
            final(self).wf(),
            final(self)@ == old(self)@.insert(hash, (selected_parent, mergeset@)),
    {
        let ghost m = mergeset@;
        self.map.insert(hash, ReachabilityEntry { selected_parent, mergeset });
        assert(self@ =~= old(self)@.insert(hash, (selected_parent, m)));
    }
}

} // verus!
