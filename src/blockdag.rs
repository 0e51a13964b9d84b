use crate::stores::{GhostdagStore, HeaderStore, ReachabilityStore, RelationsStore};
use crate::orphans::{
    all_in, is_duplicate_orphan, lemma_registered_holds, lemma_registered_unchanged,
    missing_and_held, pool_at, pool_has, registered, registered_prefix, waiting_resolved,
};
use crate::types::{GhostdagData, GhostdagModel, HashValue, Header, ORIGIN};
use std::collections::HashMap;
use vstd::prelude::*;

verus! {

broadcast use vstd::std_specs::hash::group_hash_axioms;

/// Why a header was not taken into the DAG.
#[derive(Debug, Clone, Copy, PartialEq, Eq, Structural)]
pub enum DagError {
    /// The header breaks the structural rules or the external validation.
    InvalidHeader,
    /// The block is committed already; its consensus data is computed once.
    AlreadyInDag,
    /// A parent of the block is not committed yet.
    MissingParent,
    /// The scoring engine returned a selected parent that is not one of the
    /// block's parents or is not indexed.
    InvalidGhostdagData,
    /// The same header was registered twice against the same missing parent.
    DuplicateOrphan,
}

/// The collaborators that the DAG consults: the consensus scoring engine and
/// header validation. Neither may write to the stores, which they only read.
pub trait ConsensusRules {
    /// The fixed consensus data of the genesis block.
    fn genesis_ghostdag_data(&self) -> GhostdagData;

    /// The consensus data of a new block with the given parents, computed
    /// from the data already committed for them.
    fn ghostdag(&self, stores: &DagStores, parents: &Vec<HashValue>) -> GhostdagData;

    /// Rules on a header's content outside this library (signature, work,
    /// time stamp).
    fn validate_header(&self, header: &Header) -> bool;
}

/// The four persistent tables of the DAG.
pub struct DagStores {
    pub relations_store: RelationsStore,
    pub header_store: HeaderStore,
    pub ghostdag_store: GhostdagStore,
    pub reachability_store: ReachabilityStore,
}

impl DagStores {
    pub fn new() -> (r: DagStores)
        ensures
            r.relations_store@ == Map::<HashValue, Seq<HashValue>>::empty(),
            r.header_store@ == Map::<HashValue, (HashValue, Seq<HashValue>, u64)>::empty(),
            r.ghostdag_store@ == Map::<HashValue, GhostdagModel>::empty(),
            r.reachability_store@ == Map::<HashValue, (HashValue, Seq<HashValue>)>::empty(),
            r.consistent(),
    {
        let r = DagStores {
            relations_store: RelationsStore::new(),
            header_store: HeaderStore::new(),
            ghostdag_store: GhostdagStore::new(),
            reachability_store: ReachabilityStore::new(),
        };
        assert(r.ghostdag_store@.dom() =~= r.relations_store@.dom().remove(ORIGIN));
        assert(r.header_store@.dom() =~= r.relations_store@.dom().remove(ORIGIN));
        assert(r.reachability_store@.dom().remove(ORIGIN) =~= r.relations_store@.dom().remove(ORIGIN));
        r
    }

    /// The tables agree: every committed block (all but `ORIGIN`) has
    /// consensus data, a header record and an index entry; the parents of
    /// every block are committed.
    pub open spec fn consistent(&self) -> bool {
        let rel = self.relations_store@;
        &&& self.reachability_store.wf()
        &&& self.ghostdag_store@.dom() == rel.dom().remove(ORIGIN)
        &&& self.header_store@.dom() == rel.dom().remove(ORIGIN)
        &&& self.reachability_store@.dom().remove(ORIGIN) == rel.dom().remove(ORIGIN)
        &&& rel.contains_key(ORIGIN) ==> rel[ORIGIN].len() == 0
            && self.reachability_store@.contains_key(ORIGIN)
        &&& forall|h: HashValue|
            #[trigger] self.header_store@.contains_key(h) ==> self.header_store@[h] == (
                h,
                rel[h],
                0u64,
            )
        &&& forall|h: HashValue, i: int|
            rel.contains_key(h) && 0 <= i < rel[h].len() ==> rel.contains_key(#[trigger] rel[h][i])
    }
}

/// The structural rules on a header: it is not the sentinel, names neither
/// itself nor a parent twice, and only genesis may lack parents or name
/// `ORIGIN`.
pub open spec fn header_well_formed(h: Header, genesis: HashValue) -> bool {
    &&& h.hash != ORIGIN
    &&& h.hash != genesis ==> h.parents@.len() > 0 && !h.parents@.contains(ORIGIN)
    &&& !h.parents@.contains(h.hash)
    &&& forall|i: int, j: int|
        #![trigger h.parents@[i], h.parents@[j]]
        0 <= i < j < h.parents@.len() ==> h.parents@[i] != h.parents@[j]
}

/// Whether the block `h` is committed with all its data.
pub open spec fn committed(stores: DagStores, h: HashValue) -> bool {
    &&& stores.relations_store@.contains_key(h)
    &&& stores.ghostdag_store@.contains_key(h)
    &&& stores.header_store@.contains_key(h)
    &&& stores.reachability_store@.contains_key(h)
}

/// `path` starts at a committed block and each next hash is a parent of the
/// one before it.
pub open spec fn is_parent_path(rel: Map<HashValue, Seq<HashValue>>, path: Seq<HashValue>) -> bool {
    &&& path.len() > 0
    &&& rel.contains_key(path[0])
    &&& forall|i: int|
        0 <= i < path.len() - 1 ==> rel.contains_key(path[i]) ==> #[trigger] rel[path[i]].contains(
            path[i + 1],
        )
}

/// Whether `x` occurs in `s`.
fn contains_hash(s: &Vec<HashValue>, x: HashValue) -> (r: bool)
    ensures
        r == s@.contains(x),
{
    for i in 0..s.len()
        invariant
            forall|j: int| 0 <= j < i ==> s@[j] != x,
    {
        if s[i] == x {
            return true;
        }
    }
    false
}

proof fn lemma_path_in_dag(rel: Map<HashValue, Seq<HashValue>>, path: Seq<HashValue>, i: int)
    requires
        is_parent_path(rel, path),
        0 <= i < path.len(),
        forall|h: HashValue, k: int|
            rel.contains_key(h) && 0 <= k < rel[h].len() ==> rel.contains_key(#[trigger] rel[h][k]),
    ensures
        rel.contains_key(path[i]),
    decreases i,
{
    if i > 0 {
        let j = i - 1;
        lemma_path_in_dag(rel, path, j);
        assert(rel[path[j]].contains(path[j + 1]));
        let k = choose|k: int| 0 <= k < rel[path[j]].len() && rel[path[j]][k] == path[j + 1];
        assert(rel.contains_key(rel[path[j]][k]));
    }
}

/// Commit closure: every block reached from a committed block by following
/// parent links is committed too, with its consensus data, header and index
/// entry (all but the `ORIGIN` sentinel, which has only a relation and an
/// index entry).
pub proof fn lemma_commit_closure<R: ConsensusRules>(dag: BlockDAG<R>, path: Seq<HashValue>)
    requires
        dag.wf(),
        is_parent_path(dag.dag(), path),
    ensures
        forall|i: int|
            0 <= i < path.len() ==> dag.dag().contains_key(#[trigger] path[i]) && (path[i] == ORIGIN
                || committed(dag.store_state(), path[i])),
{
    assert forall|i: int| 0 <= i < path.len() implies dag.dag().contains_key(#[trigger] path[i]) && (
    path[i] == ORIGIN || committed(dag.store_state(), path[i])) by {
        lemma_path_in_dag(dag.dag(), path, i);
        if path[i] != ORIGIN {
            assert(dag.store_state().ghostdag_store@.dom().contains(path[i]));
            assert(dag.store_state().header_store@.dom().contains(path[i]));
            assert(dag.store_state().reachability_store@.dom().remove(ORIGIN).contains(path[i]));
        }
    }
}

/// Whether a header with hash `h` is in `v`.
fn contains_header(v: &Vec<Header>, h: HashValue) -> (r: bool)
    ensures
        r == exists|k: int| 0 <= k < v@.len() && #[trigger] v@[k].hash == h,
{
    for i in 0..v.len()
        invariant
            forall|k: int| 0 <= k < i ==> v@[k].hash != h,
    {
        if v[i].hash == h {
            return true;
        }
    }
    false
}

/// `after` keeps every entry of `before` as it was.
pub open spec fn dag_grows<V>(before: Map<HashValue, V>, after: Map<HashValue, V>) -> bool {
    forall|x: HashValue| #[trigger]
        before.contains_key(x) ==> after.contains_key(x) && after[x] == before[x]
}

/// Every block of `after` that is not in `before` is one of the `waiting`
/// headers, with its parents.
pub open spec fn only_waiting_added(
    waiting: Seq<(HashValue, Seq<HashValue>)>,
    before: Map<HashValue, Seq<HashValue>>,
    after: Map<HashValue, Seq<HashValue>>,
) -> bool {
    forall|x: HashValue|
        #[trigger] after.contains_key(x) && !before.contains_key(x) ==> exists|k: int|
            0 <= k < waiting.len() && #[trigger] waiting[k].0 == x && waiting[k].1 == after[x]
}

proof fn lemma_dag_grows_trans<V>(a: Map<HashValue, V>, b: Map<HashValue, V>, c: Map<HashValue, V>)
    requires
        dag_grows(a, b),
        dag_grows(b, c),
    ensures
        dag_grows(a, c),
{
    assert forall|x: HashValue| #[trigger] a.contains_key(x) implies c.contains_key(x) && c[x] == a[x] by {
        assert(b.contains_key(x));
    }
}

/// What the commit asks of the scoring engine's data for `header`: its
/// selected parent is indexed and, but for genesis, one of the parents.
pub open spec fn scoring_valid(
    d: GhostdagModel,
    header: Header,
    genesis: HashValue,
    reach: Map<HashValue, (HashValue, Seq<HashValue>)>,
) -> bool {
    &&& reach.contains_key(d.selected_parent)
    &&& header.hash != genesis ==> header.parents@.contains(d.selected_parent)
}

/// The members of `s` that are indexed, in order.
pub open spec fn indexed_only(
    s: Seq<HashValue>,
    reach: Map<HashValue, (HashValue, Seq<HashValue>)>,
) -> Seq<HashValue> {
    s.filter(|x: HashValue| reach.contains_key(x))
}

/// The DAG of committed blocks, its stores, and the pool of headers that wait
/// for a missing parent.
pub struct BlockDAG<R: ConsensusRules> {
    genesis: Header,
    ghostdag_manager: R,
    stores: DagStores,
    /// Orphan blocks: missing parent hash to the headers that wait for it.
    missing_blocks: HashMap<HashValue, Vec<Header>>,
}

impl<R: ConsensusRules> BlockDAG<R> {
    pub closed spec fn genesis(&self) -> Header {
        self.genesis
    }

    pub closed spec fn store_state(&self) -> DagStores {
        self.stores
    }

    /// Committed blocks and their parents (with the `ORIGIN` sentinel).
    pub open spec fn dag(&self) -> Map<HashValue, Seq<HashValue>> {
        self.store_state().relations_store@
    }

    pub open spec fn headers(&self) -> Map<HashValue, (HashValue, Seq<HashValue>, u64)> {
        self.store_state().header_store@
    }

    pub open spec fn ghostdag(&self) -> Map<HashValue, GhostdagModel> {
        self.store_state().ghostdag_store@
    }

    pub open spec fn reachability(&self) -> Map<HashValue, (HashValue, Seq<HashValue>)> {
        self.store_state().reachability_store@
    }

    /// The orphan pool.
    pub closed spec fn orphans(&self) -> Map<HashValue, Seq<(HashValue, Seq<HashValue>)>> {
        self.missing_blocks@.map_values(|v: Vec<Header>| v@.map_values(|h: Header| h@))
    }

    pub open spec fn orphans_wf(&self) -> bool {
        forall|p: HashValue, i: int, j: int|
            #![trigger self.orphans()[p][i], self.orphans()[p][j]]
            self.orphans().contains_key(p) && 0 <= i < j < self.orphans()[p].len()
                ==> self.orphans()[p][i].0 != self.orphans()[p][j].0
    }

    /// The stores agree, the root is indexed and no pool entry holds a
    /// header twice.
    pub open spec fn stores_wf(&self) -> bool {
        &&& self.store_state().consistent()
        &&& self.reachability().contains_key(ORIGIN)
        &&& self.orphans_wf()
    }

    /// Well-formed and bootstrapped.
    pub open spec fn wf(&self) -> bool {
        &&& self.stores_wf()
        &&& self.dag().contains_key(ORIGIN)
    }

    /// Read-only access to the four tables.
    pub fn stores(&self) -> (r: &DagStores)
        ensures
            *r == self.store_state(),
    {
        &self.stores
    }

    /// Gives the four tables back, to reopen them later.
    pub fn into_stores(self) -> (r: DagStores)
        ensures
            r == self.store_state(),
    {
        self.stores
    }

    pub fn is_in_dag(&self, hash: HashValue) -> (r: bool)
        ensures
            r == self.dag().contains_key(hash),
    {
        self.stores.relations_store.has(hash)
    }

    /// Commits a block whose parents are all committed: asks the scoring
    /// engine for its consensus data (the fixed genesis data for genesis),
    /// then commits it with that data as `commit_header_with` does.
    pub fn commit_header(&mut self, header: &Header) -> (r: Result<(), DagError>)
        requires
            old(self).wf(),
        ensures
            final(self).wf(),
            final(self).genesis() == old(self).genesis(),
            final(self).orphans() == old(self).orphans(),
            old(self).dag().contains_key(header.hash) ==> r == Err::<(), DagError>(
                DagError::AlreadyInDag,
            ),
            !old(self).dag().contains_key(header.hash) && !all_in(header.parents@, old(self).dag())
                ==> r == Err::<(), DagError>(DagError::MissingParent),
            !old(self).dag().contains_key(header.hash) && all_in(header.parents@, old(self).dag())
                ==> r is Ok || r == Err::<(), DagError>(DagError::InvalidGhostdagData),
            r is Err ==> final(self).store_state() == old(self).store_state(),
            r is Ok ==> {
                let h = header.hash;
                let d = final(self).ghostdag()[h];
                &&& final(self).dag() == old(self).dag().insert(h, header.parents@)
                &&& final(self).headers() == old(self).headers().insert(h, (h, header.parents@, 0u64))
                &&& final(self).ghostdag().contains_key(h)
                &&& final(self).ghostdag() == old(self).ghostdag().insert(h, d)
                &&& scoring_valid(d, *header, old(self).genesis().hash, old(self).reachability())
                &&& final(self).reachability() == old(self).reachability().insert(
                    h,
                    (d.selected_parent, indexed_only(d.blues + d.reds, old(self).reachability())),
                )
            },
    {
        let hash = header.hash;
        if self.stores.relations_store.has(hash) {
            return Err(DagError::AlreadyInDag);
        }
        if self.is_orphan(header) {
            return Err(DagError::MissingParent);
        }
        let data = if hash == self.genesis.hash {
            self.ghostdag_manager.genesis_ghostdag_data()
        } else {
            self.ghostdag_manager.ghostdag(&self.stores, &header.parents)
        };
        self.commit_header_with(header, data)
    }

    /// Commits a block whose parents are all committed, with the consensus
    /// data `data` that the scoring engine gave for it: stores the data,
    /// indexes the block under its selected parent and the merge-set members
    /// that are indexed already, then stores its parents and its header.
    /// Nothing is written unless all steps can be taken.
    #[verifier::loop_isolation(false)]
    pub fn commit_header_with(&mut self, header: &Header, data: GhostdagData) -> (r: Result<(), DagError>)
        requires
            old(self).wf(),
        ensures
            final(self).wf(),
            final(self).genesis() == old(self).genesis(),
            final(self).orphans() == old(self).orphans(),
            old(self).dag().contains_key(header.hash) ==> r == Err::<(), DagError>(
                DagError::AlreadyInDag,
            ),
            !old(self).dag().contains_key(header.hash) && !all_in(header.parents@, old(self).dag())
                ==> r == Err::<(), DagError>(DagError::MissingParent),
            !old(self).dag().contains_key(header.hash) && all_in(header.parents@, old(self).dag())
                ==> (r is Ok <==> scoring_valid(
                data@,
                *header,
                old(self).genesis().hash,
                old(self).reachability(),
            )) && (r is Err ==> r == Err::<(), DagError>(DagError::InvalidGhostdagData)),
            r is Err ==> final(self).store_state() == old(self).store_state(),
            r is Ok ==> final(self).ghostdag() == old(self).ghostdag().insert(header.hash, data@)
                && final(self).reachability() == old(self).reachability().insert(
                header.hash,
                (data.selected_parent, indexed_only(data@.blues + data@.reds, old(self).reachability())),
            ),
            r is Ok ==> {
                let h = header.hash;
                &&& final(self).dag() == old(self).dag().insert(h, header.parents@)
                &&& final(self).headers() == old(self).headers().insert(h, (h, header.parents@, 0u64))
                &&& final(self).ghostdag().contains_key(h)
                &&& final(self).ghostdag() == old(self).ghostdag().insert(h, final(self).ghostdag()[h])
                &&& final(self).reachability().contains_key(h)
                &&& final(self).reachability() == old(self).reachability().insert(
                    h,
                    final(self).reachability()[h],
                )
                &&& final(self).reachability()[h].0 == final(self).ghostdag()[h].selected_parent
                &&& h != old(self).genesis().hash ==> header.parents@.contains(
                    final(self).ghostdag()[h].selected_parent,
                )
            },
    {
        let hash = header.hash;
        if self.stores.relations_store.has(hash) {
            return Err(DagError::AlreadyInDag);
        }
        let n = header.parents.len();
        for i in 0..n
            invariant
                n == header.parents@.len(),
                forall|j: int| 0 <= j < i ==> self.dag().contains_key(#[trigger] header.parents@[j]),
        {
            if !self.stores.relations_store.has(header.parents[i]) {
                return Err(DagError::MissingParent);
            }
        }
        let is_genesis = hash == self.genesis.hash;
        let sp = data.selected_parent;
        if !self.stores.reachability_store.has(sp) {
            return Err(DagError::InvalidGhostdagData);
        }
        if !is_genesis && !contains_hash(&header.parents, sp) {
            return Err(DagError::InvalidGhostdagData);
        }
        // Index only the merge-set members that are indexed already.
        let merge = data.unordered_mergeset_without_selected_parent();
        let mut filtered: Vec<HashValue> = Vec::new();
        for i in 0..merge.len()
            invariant
                merge@ == data@.blues + data@.reds,
                filtered@ == indexed_only(merge@.subrange(0, i as int), self.reachability()),
                forall|j: int|
                    0 <= j < filtered@.len() ==> self.reachability().contains_key(
                        #[trigger] filtered@[j],
                    ),
        {
            proof {
                reveal(Seq::filter);
                assert(merge@.subrange(0, i + 1).drop_last() =~= merge@.subrange(0, i as int));
            }
            if self.stores.reachability_store.has(merge[i]) {
                filtered.push(merge[i]);
            }
        }
        proof {
            assert(merge@.subrange(0, merge@.len() as int) =~= merge@);
        }
        let ghost old_stores = self.stores;
        self.stores.ghostdag_store.insert(hash, data);
        self.stores.reachability_store.add_block(hash, sp, filtered);
        let copy = header.duplicate();
        self.stores.relations_store.insert(hash, copy.parents);
        self.stores.header_store.insert(hash, header, 0);
        proof {
            let rel = self.stores.relations_store@;
            assert(self.stores.ghostdag_store@.dom() =~= rel.dom().remove(ORIGIN));
            assert(self.stores.header_store@.dom() =~= rel.dom().remove(ORIGIN));
            assert(self.stores.reachability_store@.dom().remove(ORIGIN) =~= rel.dom().remove(ORIGIN));
            assert forall|h: HashValue, i: int|
                rel.contains_key(h) && 0 <= i < rel[h].len() implies rel.contains_key(
                #[trigger] rel[h][i],
            ) by {
                if h != hash {
                    assert(old_stores.relations_store@.contains_key(h));
                }
            }
            assert(self.store_state().consistent());
            assert(self.orphans() == old(self).orphans());
        }
        Ok(())
    }

    /// Bootstraps the DAG: unless `ORIGIN` is stored already, stores it with
    /// no parents and commits genesis with its fixed consensus data. A second
    /// call changes nothing.
    pub fn init_with_genesis(&mut self) -> (r: Result<(), DagError>)
        requires
            old(self).stores_wf(),
        ensures
            final(self).wf(),
            final(self).genesis() == old(self).genesis(),
            final(self).orphans() == old(self).orphans(),
            old(self).dag().contains_key(ORIGIN) ==> r is Ok && final(self).store_state()
                == old(self).store_state(),
            !old(self).dag().contains_key(ORIGIN) ==> {
                let g = old(self).genesis();
                let seeded = old(self).dag().insert(ORIGIN, Seq::<HashValue>::empty());
                &&& r is Ok ==> {
                    let d = final(self).ghostdag()[g.hash];
                    &&& final(self).dag() == seeded.insert(g.hash, g.parents@)
                    &&& final(self).headers() == old(self).headers().insert(g.hash, (g.hash, g.parents@, 0u64))
                    &&& final(self).ghostdag().contains_key(g.hash)
                    &&& final(self).ghostdag() == old(self).ghostdag().insert(g.hash, d)
                    &&& old(self).reachability().contains_key(d.selected_parent)
                    &&& final(self).reachability() == old(self).reachability().insert(
                        g.hash,
                        (d.selected_parent, indexed_only(d.blues + d.reds, old(self).reachability())),
                    )
                }
                &&& !seeded.contains_key(g.hash) && all_in(g.parents@, seeded) ==> r is Ok || r
                    == Err::<(), DagError>(DagError::InvalidGhostdagData)
            },
    {
        if self.stores.relations_store.has(ORIGIN) {
            return Ok(());
        }
        let ghost old_rel = self.stores.relations_store@;
        self.stores.relations_store.insert(ORIGIN, Vec::new());
        proof {
            let rel = self.stores.relations_store@;
            assert(rel.dom().remove(ORIGIN) =~= old_rel.dom().remove(ORIGIN));
            assert forall|h: HashValue, i: int|
                rel.contains_key(h) && 0 <= i < rel[h].len() implies rel.contains_key(
                #[trigger] rel[h][i],
            ) by {
                if h != ORIGIN {
                    assert(old_rel.contains_key(h));
                }
            }
            assert forall|h: HashValue| #[trigger]
                self.stores.header_store@.contains_key(h) implies self.stores.header_store@[h] == (
                h,
                rel[h],
                0u64,
            ) by {
                assert(h != ORIGIN);
            }
            assert(self.orphans() == old(self).orphans());
        }
        let g = self.genesis.duplicate();
        self.commit_header(&g)
    }

    /// Builds the DAG over `db`: indexes the reachability root, then
    /// bootstraps genesis. `ghostdag_manager` scores blocks and validates
    /// headers (its cluster parameter is its own).
    pub fn new(genesis: Header, ghostdag_manager: R, db: DagStores) -> (r: Result<Self, DagError>)
        requires
            db.consistent(),
        ensures
            r matches Ok(dag) ==> {
                &&& dag.wf()
                &&& dag.genesis()@ == genesis@
                &&& !db.relations_store@.contains_key(ORIGIN) ==> dag.dag().contains_key(genesis.hash)
                &&& db.relations_store@ == Map::<HashValue, Seq<HashValue>>::empty() ==> {
                    &&& dag.dag() == Map::<HashValue, Seq<HashValue>>::empty().insert(
                        ORIGIN,
                        Seq::<HashValue>::empty(),
                    ).insert(genesis.hash, genesis.parents@)
                    &&& dag.headers() == Map::<HashValue, (HashValue, Seq<HashValue>, u64)>::empty().insert(
                        genesis.hash,
                        (genesis.hash, genesis.parents@, 0u64),
                    )
                    &&& dag.ghostdag().dom() == Set::<HashValue>::empty().insert(genesis.hash)
                    &&& dag.ghostdag()[genesis.hash].selected_parent == ORIGIN
                    &&& dag.reachability().dom() == Set::<HashValue>::empty().insert(ORIGIN).insert(
                        genesis.hash,
                    )
                }
                &&& dag.orphans() == Map::<HashValue, Seq<(HashValue, Seq<HashValue>)>>::empty()
            },
            db.relations_store@ == Map::<HashValue, Seq<HashValue>>::empty() && genesis.hash
                != ORIGIN && (genesis.parents@ == Seq::<HashValue>::empty() || genesis.parents@
                == seq![ORIGIN]) ==> r is Ok || r matches Err(DagError::InvalidGhostdagData),
            db.relations_store@.contains_key(ORIGIN) ==> (r matches Ok(dag) && dag.dag()
                == db.relations_store@ && dag.headers() == db.header_store@ && dag.ghostdag()
                == db.ghostdag_store@ && dag.reachability() == db.reachability_store@),
    {
        let mut db = db;
        db.reachability_store.init();
        proof {
            assert(db.reachability_store@.dom().remove(ORIGIN) =~= db.relations_store@.dom().remove(
                ORIGIN,
            ));
        }
        let mut dag = BlockDAG { genesis, ghostdag_manager, stores: db, missing_blocks: HashMap::new() };
        proof {
            assert(dag.orphans() =~= Map::<HashValue, Seq<(HashValue, Seq<HashValue>)>>::empty());
            if genesis.parents@ == seq![ORIGIN] {
                assert(genesis.parents@[0] == ORIGIN);
            }
        }
        match dag.init_with_genesis() {
            Ok(()) => Ok(dag),
            Err(e) => Err(e),
        }
    }

    /// Checks the structural rules on a header, then the external rules.
    pub fn verify_header(&self, header: &Header) -> (r: Result<(), DagError>)
        ensures
            r is Ok ==> header_well_formed(*header, self.genesis().hash),
            r is Ok || r == Err::<(), DagError>(DagError::InvalidHeader),
    {
        match self.check_header(header) {
            Ok(()) => {},
            Err(e) => {
                return Err(e);
            },
        }
        if !self.ghostdag_manager.validate_header(header) {
            return Err(DagError::InvalidHeader);
        }
        Ok(())
    }

    /// Checks the structural rules on a header.
    pub fn check_header(&self, header: &Header) -> (r: Result<(), DagError>)
        ensures
            r is Ok <==> header_well_formed(*header, self.genesis().hash),
            r is Err ==> r == Err::<(), DagError>(DagError::InvalidHeader),
    {
        let hash = header.hash;
        if hash == ORIGIN || contains_hash(&header.parents, hash) {
            return Err(DagError::InvalidHeader);
        }
        if hash != self.genesis.hash && (header.parents.len() == 0 || contains_hash(
            &header.parents,
            ORIGIN,
        )) {
            return Err(DagError::InvalidHeader);
        }
        let n = header.parents.len();
        for i in 0..n
            invariant
                n == header.parents@.len(),
                forall|a: int, b: int|
                    #![trigger header.parents@[a], header.parents@[b]]
                    0 <= a < b < i ==> header.parents@[a] != header.parents@[b],
        {
            for j in 0..i
                invariant
                    i < n,
                    n == header.parents@.len(),
                    forall|a: int| 0 <= a < j ==> header.parents@[a] != header.parents@[i as int],
            {
                if header.parents[j] == header.parents[i] {
                    return Err(DagError::InvalidHeader);
                }
            }
        }
        Ok(())
    }

    /// Whether some parent of `header` is not committed.
    pub fn is_orphan(&self, header: &Header) -> (r: bool)
        ensures
            r == !all_in(header.parents@, self.dag()),
    {
        let n = header.parents.len();
        for i in 0..n
            invariant
                n == header.parents@.len(),
                forall|j: int| 0 <= j < i ==> self.dag().contains_key(#[trigger] header.parents@[j]),
        {
            if !self.is_in_dag(header.parents[i]) {
                return true;
            }
        }
        false
    }

    /// Registers `header` in the pool under each of its parents that is not
    /// committed, and says whether there was one. Registering a header again
    /// under the same missing parent is refused, and then nothing changes.
    #[verifier::loop_isolation(false)]
    fn update_orphans(&mut self, header: &Header) -> (r: Result<bool, DagError>)
        requires
            old(self).wf(),
        ensures
            final(self).wf(),
            final(self).genesis() == old(self).genesis(),
            final(self).store_state() == old(self).store_state(),
            is_duplicate_orphan(old(self).orphans(), old(self).dag(), *header) ==> r == Err::<
                bool,
                DagError,
            >(DagError::DuplicateOrphan) && final(self).orphans() == old(self).orphans(),
            !is_duplicate_orphan(old(self).orphans(), old(self).dag(), *header) ==> r == Ok::<
                bool,
                DagError,
            >(!all_in(header.parents@, old(self).dag())) && final(self).orphans() == registered(
                old(self).orphans(),
                old(self).dag(),
                *header,
            ),
    {
        let hash = header.hash;
        let n = header.parents.len();
        for i in 0..n
            invariant
                n == header.parents@.len(),
                forall|j: int|
                    0 <= j < i ==> !missing_and_held(
                        old(self).orphans(),
                        old(self).dag(),
                        #[trigger] header.parents@[j],
                        hash,
                    ),
        {
            let p = header.parents[i];
            if !self.is_in_dag(p) {
                match self.missing_blocks.get(&p) {
                    Some(v) => {
                        if contains_header(v, hash) {
                            proof {
                                assert(self.orphans()[p] == v@.map_values(|h: Header| h@));
                                let k = choose|k: int| 0 <= k < v@.len() && v@[k].hash == hash;
                                assert(self.orphans()[p][k].0 == hash);
                                assert(missing_and_held(self.orphans(), self.dag(), header.parents@[i as int], hash));
                            }
                            return Err(DagError::DuplicateOrphan);
                        }
                    },
                    None => {},
                }
            }
        }
        let mut orphan = false;
        for i in 0..n
            invariant
                n == header.parents@.len(),
                self.wf(),
                self.genesis() == old(self).genesis(),
                self.store_state() == old(self).store_state(),
                orphan == !all_in(header.parents@.subrange(0, i as int), old(self).dag()),
                self.orphans() == registered_prefix(old(self).orphans(), old(self).dag(), *header, i as int),
        {
            let ghost before = self.orphans();
            let p = header.parents[i];
            proof {
                let dag = old(self).dag();
                let s0 = header.parents@.subrange(0, i as int);
                let s1 = header.parents@.subrange(0, i + 1);
                assert(s1 =~= s0.push(p));
                if all_in(s0, dag) && dag.contains_key(p) {
                    assert forall|j: int| 0 <= j < s1.len() implies dag.contains_key(
                        #[trigger] s1[j],
                    ) by {
                        if j < s0.len() {
                            assert(s1[j] == s0[j]);
                        }
                    }
                }
                if !all_in(s0, dag) {
                    let j = choose|j: int| 0 <= j < s0.len() && !dag.contains_key(#[trigger] s0[j]);
                    assert(s1[j] == s0[j]);
                }
                if all_in(s1, dag) {
                    assert(dag.contains_key(s1[i as int]));
                }
                assert(all_in(s1, dag) == (all_in(s0, dag) && dag.contains_key(p)));
            }
            if !self.is_in_dag(p) {
                orphan = true;
                let mut v = match self.missing_blocks.remove(&p) {
                    Some(v) => v,
                    None => Vec::new(),
                };
                let ghost v0 = v@.map_values(|h: Header| h@);
                proof {
                    assert(v0 =~= pool_at(before, p));
                }
                let held = contains_header(&v, hash);
                let copy = header.duplicate();
                if !held {
                    v.push(copy);
                }
                proof {
                    if held {
                        let k = choose|k: int| 0 <= k < v@.len() && #[trigger] v@[k].hash == hash;
                        assert(v0[k].0 == hash);
                        assert(pool_has(before, p, hash));
                        assert(v@.map_values(|h: Header| h@) =~= v0);
                    } else {
                        assert forall|k: int| 0 <= k < v0.len() implies v0[k].0 != hash by {
                            assert(v@[k].hash != hash);
                        }
                        assert(!pool_has(before, p, hash));
                        assert(v@.map_values(|h: Header| h@) =~= v0.push(header@));
                    }
                }
                self.missing_blocks.insert(p, v);
                proof {
                    let after = if held {
                        before
                    } else {
                        before.insert(p, pool_at(before, p).push(header@))
                    };
                    assert(self.orphans() =~= after);
                    assert forall|q: HashValue, a: int, b: int|
                        #![trigger self.orphans()[q][a], self.orphans()[q][b]]
                        self.orphans().contains_key(q) && 0 <= a < b < self.orphans()[q].len()
                            implies self.orphans()[q][a].0 != self.orphans()[q][b].0 by {
                        if q == p && !held {
                            if b == v0.len() {
                                assert(self.orphans()[q][a] == v0[a]);
                            } else {
                                assert(self.orphans()[q][a] == before[q][a]);
                                assert(self.orphans()[q][b] == before[q][b]);
                            }
                        } else {
                            assert(self.orphans()[q][a] == before[q][a]);
                            assert(self.orphans()[q][b] == before[q][b]);
                        }
                    }
                }
            }
        }
        proof {
            assert(header.parents@.subrange(0, n as int) =~= header.parents@);
        }
        Ok(orphan)
    }

    /// Takes out of the pool the headers that waited for `hash` and commits
    /// each of them whose parents are all committed by then; returns the
    /// hashes it committed.
    #[verifier::loop_isolation(false)]
    fn resolve_waiting(&mut self, hash: HashValue) -> (r: Result<Vec<HashValue>, DagError>)
        requires
            old(self).wf(),
        ensures
            final(self).wf(),
            final(self).genesis() == old(self).genesis(),
            final(self).orphans() == old(self).orphans().remove(hash),
            dag_grows(old(self).dag(), final(self).dag()),
            only_waiting_added(
                pool_at(old(self).orphans(), hash),
                old(self).dag(),
                final(self).dag(),
            ),
            r is Ok ==> waiting_resolved(
                pool_at(old(self).orphans(), hash),
                old(self).dag(),
                final(self).dag(),
            ),
            r matches Ok(v) ==> forall|x: HashValue|
                #[trigger] final(self).dag().contains_key(x) && !old(self).dag().contains_key(x)
                    ==> v@.contains(x),
            r matches Ok(v) ==> !old(self).orphans().contains_key(hash) ==> v@.len() == 0,
            r is Ok || r == Err::<Vec<HashValue>, DagError>(DagError::InvalidGhostdagData),
            dag_grows(old(self).ghostdag(), final(self).ghostdag()),
            dag_grows(old(self).reachability(), final(self).reachability()),
            !old(self).orphans().contains_key(hash) ==> r is Ok && final(self).store_state()
                == old(self).store_state(),
    {
        let ghost waiting = pool_at(self.orphans(), hash);
        let ghost dag0 = self.dag();
        let removed = self.missing_blocks.remove(&hash);
        proof {
            assert(self.orphans() =~= old(self).orphans().remove(hash));
            assert forall|q: HashValue, a: int, b: int|
                #![trigger self.orphans()[q][a], self.orphans()[q][b]]
                self.orphans().contains_key(q) && 0 <= a < b < self.orphans()[q].len()
                    implies self.orphans()[q][a].0 != self.orphans()[q][b].0 by {
                assert(old(self).orphans()[q][a] == self.orphans()[q][a]);
                assert(old(self).orphans()[q][b] == self.orphans()[q][b]);
            }
        }
        match removed {
            None => {
                proof {
                    assert(waiting =~= Seq::<(HashValue, Seq<HashValue>)>::empty());
                }
                Ok(Vec::new())
            },
            Some(orphans) => {
                proof {
                    assert(orphans@.map_values(|x: Header| x@) =~= waiting);
                }
                let mut added: Vec<HashValue> = Vec::new();
                for i in 0..orphans.len()
                    invariant
                        forall|x: HashValue|
                            #[trigger] self.dag().contains_key(x) && !dag0.contains_key(x)
                                ==> added@.contains(x),
                        self.wf(),
                        self.genesis() == old(self).genesis(),
                        self.orphans() == old(self).orphans().remove(hash),
                        orphans@.map_values(|x: Header| x@) == waiting,
                        dag_grows(dag0, self.dag()),
                        dag_grows(old(self).ghostdag(), self.ghostdag()),
                        dag_grows(old(self).reachability(), self.reachability()),
                        only_waiting_added(waiting, dag0, self.dag()),
                        forall|j: int|
                            0 <= j < i ==> all_in(#[trigger] waiting[j].1, dag0)
                                ==> self.dag().contains_key(waiting[j].0),
                {
                    let o = &orphans[i];
                    assert(waiting[i as int] == o@);
                    if !self.is_in_dag(o.hash) && !self.is_orphan(o) {
                        let ghost before = self.dag();
                        let ghost gb = self.ghostdag();
                        let ghost rb = self.reachability();
                        match self.commit_header(o) {
                            Ok(()) => {
                                proof {
                                    assert(!gb.contains_key(o.hash));
                                    assert(!rb.dom().remove(ORIGIN).contains(o.hash));
                                    lemma_dag_grows_trans(old(self).ghostdag(), gb, self.ghostdag());
                                    lemma_dag_grows_trans(old(self).reachability(), rb, self.reachability());
                                }
                                let ghost added0 = added@;
                                added.push(o.hash);
                                proof {
                                    assert forall|x: HashValue|
                                        #[trigger] self.dag().contains_key(x) && !dag0.contains_key(x)
                                            implies added@.contains(x) by {
                                        if x != o.hash {
                                            assert(before.contains_key(x));
                                            let k = choose|k: int| 0 <= k < added0.len() && added0[k] == x;
                                            assert(added@[k] == x);
                                        } else {
                                            assert(added@[added@.len() - 1] == x);
                                        }
                                    }
                                    assert(added@[added@.len() - 1] == o.hash);
                                    assert forall|x: HashValue|
                                        #[trigger] self.dag().contains_key(x) && !dag0.contains_key(
                                            x,
                                        ) implies exists|k: int|
                                        0 <= k < waiting.len() && #[trigger] waiting[k].0 == x
                                            && waiting[k].1 == self.dag()[x] by {
                                        if x == o.hash {
                                            assert(waiting[i as int].0 == x);
                                        } else {
                                            assert(before.contains_key(x));
                                        }
                                    }
                                }
                            },
                            Err(e) => {
                                return Err(e);
                            },
                        }
                    } else {
                        proof {
                            if all_in(o.parents@, dag0) {
                                assert forall|k: int| 0 <= k < o.parents@.len() implies self.dag().contains_key(
                                    #[trigger] o.parents@[k],
                                ) by {
                                    assert(dag0.contains_key(o.parents@[k]));
                                }
                            }
                        }
                    }
                }
                proof {
                    assert(waiting.len() == orphans@.len());
                }
                Ok(added)
            },
        }
    }

    /// Resolves the headers that waited for `header`, then those that
    /// waited for each header so committed, and so on: every block this
    /// commits leaves no headers waiting for it in the pool.
    pub fn check_missing_block(&mut self, header: &Header) -> (r: Result<(), DagError>)
        requires
            old(self).wf(),
        ensures
            final(self).wf(),
            final(self).genesis() == old(self).genesis(),
            dag_grows(old(self).dag(), final(self).dag()),
            !final(self).orphans().contains_key(header.hash),
            r is Ok ==> waiting_resolved(
                pool_at(old(self).orphans(), header.hash),
                old(self).dag(),
                final(self).dag(),
            ),
            r is Ok ==> forall|x: HashValue|
                #[trigger] final(self).dag().contains_key(x) && !old(self).dag().contains_key(x)
                    ==> !final(self).orphans().contains_key(x),
            r is Ok || r == Err::<(), DagError>(DagError::InvalidGhostdagData),
            dag_grows(old(self).ghostdag(), final(self).ghostdag()),
            dag_grows(old(self).reachability(), final(self).reachability()),
            dag_grows(final(self).orphans(), old(self).orphans()),
            !old(self).orphans().contains_key(header.hash) ==> r is Ok && final(self).store_state()
                == old(self).store_state() && final(self).orphans() == old(self).orphans(),
    {
        let ghost dag0 = self.dag();
        let mut work = match self.resolve_waiting(header.hash) {
            Ok(v) => v,
            Err(e) => {
                return Err(e);
            },
        };
        proof {
            self.lemma_orphans_finite();
        }
        if work.len() == 0 {
            return Ok(());
        }
        while work.len() > 0
            invariant
                self.wf(),
                self.genesis() == old(self).genesis(),
                self.orphans().dom().finite(),
                dag0 == old(self).dag(),
                old(self).orphans().contains_key(header.hash),
                dag_grows(dag0, self.dag()),
                dag_grows(old(self).ghostdag(), self.ghostdag()),
                dag_grows(old(self).reachability(), self.reachability()),
                dag_grows(self.orphans(), old(self).orphans()),
                !self.orphans().contains_key(header.hash),
                waiting_resolved(pool_at(old(self).orphans(), header.hash), dag0, self.dag()),
                forall|x: HashValue|
                    #[trigger] self.dag().contains_key(x) && !dag0.contains_key(x) ==> work@.contains(x)
                        || !self.orphans().contains_key(x),
            decreases self.orphans().dom().len(), work@.len(),
        {
            let last = work.len() - 1;
            let h = work[last];
            let ghost work0 = work@;
            let ghost pool0 = self.orphans();
            let ghost dag1 = self.dag();
            let ghost g1 = self.ghostdag();
            let ghost r1 = self.reachability();
            work.truncate(last);
            let more = match self.resolve_waiting(h) {
                Ok(v) => v,
                Err(e) => {
                    proof {
                        lemma_dag_grows_trans(dag0, dag1, self.dag());
                        lemma_dag_grows_trans(old(self).ghostdag(), g1, self.ghostdag());
                        lemma_dag_grows_trans(old(self).reachability(), r1, self.reachability());
                        lemma_dag_grows_trans(self.orphans(), pool0, old(self).orphans());
                    }
                    return Err(e);
                },
            };
            proof {
                lemma_dag_grows_trans(dag0, dag1, self.dag());
                lemma_dag_grows_trans(old(self).ghostdag(), g1, self.ghostdag());
                lemma_dag_grows_trans(old(self).reachability(), r1, self.reachability());
                lemma_dag_grows_trans(self.orphans(), pool0, old(self).orphans());
            }
            let ghost work1 = work@;
            for i in 0..more.len()
                invariant
                    work@ == work1 + more@.subrange(0, i as int),
            {
                work.push(more[i]);
                assert(work@ =~= work1 + more@.subrange(0, i + 1));
            }
            proof {
                assert(more@.subrange(0, more@.len() as int) =~= more@);
                assert(work1 =~= work0.subrange(0, last as int));
                assert(self.orphans().dom() =~= pool0.dom().remove(h));
                assert forall|x: HashValue|
                    #[trigger] self.dag().contains_key(x) && !dag0.contains_key(x) implies work@.contains(x)
                        || !self.orphans().contains_key(x) by {
                    if !dag1.contains_key(x) {
                        assert(more@.contains(x));
                        let k = choose|k: int| 0 <= k < more@.len() && more@[k] == x;
                        assert(work@[work1.len() + k] == x);
                    } else if x != h && work0.contains(x) {
                        let k = choose|k: int| 0 <= k < work0.len() && work0[k] == x;
                        assert(k != last);
                        assert(work@[k] == x);
                    }
                }
                if !pool0.contains_key(h) {
                    assert(self.orphans() =~= pool0);
                }
            }
        }
        Ok(())
    }

    proof fn lemma_orphans_finite(&self)
        ensures
            self.orphans().dom().finite(),
    {
        assert(self.orphans().dom() =~= self.missing_blocks@.dom());
    }

    /// Takes in a header that passed validation: if it waits for a parent
    /// that is not committed, registers it in the pool; otherwise commits it
    /// and then the headers that waited for it. A header that is committed
    /// already changes nothing.
    pub fn connect_checked(&mut self, header: &Header) -> (r: Result<(), DagError>)
        requires
            old(self).wf(),
        ensures
            final(self).wf(),
            final(self).genesis() == old(self).genesis(),
            r != Err::<(), DagError>(DagError::InvalidHeader),
            old(self).dag().contains_key(header.hash) ==> r is Ok && final(self).store_state() == old(self).store_state() && final(self).orphans()
                == old(self).orphans(),
            !old(self).dag().contains_key(header.hash) && !all_in(header.parents@, old(self).dag())
                ==> {
                &&& final(self).store_state() == old(self).store_state()
                &&& !final(self).dag().contains_key(header.hash)
                &&& !final(self).headers().contains_key(header.hash)
                &&& is_duplicate_orphan(old(self).orphans(), old(self).dag(), *header) ==> r
                    == Err::<(), DagError>(DagError::DuplicateOrphan) && final(self).orphans()
                    == old(self).orphans()
                &&& !is_duplicate_orphan(old(self).orphans(), old(self).dag(), *header) ==> r is Ok
                &&& r is Ok ==> final(self).orphans() == registered(
                    old(self).orphans(),
                    old(self).dag(),
                    *header,
                ) && forall|j: int|
                    0 <= j < header.parents@.len() && !old(self).dag().contains_key(
                        #[trigger] header.parents@[j],
                    ) ==> pool_has(final(self).orphans(), header.parents@[j], header.hash)
            },
            !old(self).dag().contains_key(header.hash) && all_in(header.parents@, old(self).dag())
                ==> {
                &&& r is Ok || r == Err::<(), DagError>(DagError::InvalidGhostdagData)
                &&& r is Ok ==> final(self).dag().contains_key(header.hash) && final(self).dag()[header.hash]
                    == header.parents@ && !final(self).orphans().contains_key(header.hash)
                    && waiting_resolved(
                    pool_at(old(self).orphans(), header.hash),
                    old(self).dag().insert(header.hash, header.parents@),
                    final(self).dag(),
                ) && forall|x: HashValue|
                    #[trigger] final(self).dag().contains_key(x) && !old(self).dag().contains_key(x)
                        ==> !final(self).orphans().contains_key(x)
            },
    {
        if self.is_in_dag(header.hash) {
            return Ok(());
        }
        let is_orphan_block = match self.update_orphans(header) {
            Ok(b) => b,
            Err(e) => {
                return Err(e);
            },
        };
        if is_orphan_block {
            proof {
                lemma_registered_holds(old(self).orphans(), old(self).dag(), *header, header.parents@.len() as int);
            }
            return Ok(());
        }
        proof {
            lemma_registered_unchanged(old(self).orphans(), old(self).dag(), *header, header.parents@.len() as int);
        }
        match self.commit_header(header) {
            Ok(()) => {},
            Err(e) => {
                return Err(e);
            },
        }
        let ghost mid = self.dag();
        let res = self.check_missing_block(header);
        proof {
            assert(mid.contains_key(header.hash));
        }
        res
    }

    /// Takes in a newly received header: validates it; if it waits for a
    /// parent that is not committed, registers it in the pool; otherwise
    /// commits it and then the headers that waited for it. A header that is
    /// committed already changes nothing.
    pub fn connect_block(&mut self, header: &Header) -> (r: Result<(), DagError>)
        requires
            old(self).wf(),
        ensures
            final(self).wf(),
            final(self).genesis() == old(self).genesis(),
            r == Err::<(), DagError>(DagError::InvalidHeader) ==> final(self).store_state()
                == old(self).store_state() && final(self).orphans() == old(self).orphans(),
            !header_well_formed(*header, old(self).genesis().hash) ==> r == Err::<(), DagError>(
                DagError::InvalidHeader,
            ),
            old(self).dag().contains_key(header.hash) ==> (r is Ok || r == Err::<(), DagError>(
                DagError::InvalidHeader,
            )) && final(self).store_state() == old(self).store_state() && final(self).orphans()
                == old(self).orphans(),
            !old(self).dag().contains_key(header.hash) && !all_in(header.parents@, old(self).dag())
                ==> {
                &&& final(self).store_state() == old(self).store_state()
                &&& !final(self).dag().contains_key(header.hash)
                &&& !final(self).headers().contains_key(header.hash)
                &&& is_duplicate_orphan(old(self).orphans(), old(self).dag(), *header) ==> (r
                    == Err::<(), DagError>(DagError::DuplicateOrphan) || r == Err::<(), DagError>(
                    DagError::InvalidHeader,
                )) && final(self).orphans() == old(self).orphans()
                &&& !is_duplicate_orphan(old(self).orphans(), old(self).dag(), *header) ==> r is Ok
                    || r == Err::<(), DagError>(DagError::InvalidHeader)
                &&& r is Ok ==> final(self).orphans() == registered(
                    old(self).orphans(),
                    old(self).dag(),
                    *header,
                ) && forall|j: int|
                    0 <= j < header.parents@.len() && !old(self).dag().contains_key(
                        #[trigger] header.parents@[j],
                    ) ==> pool_has(final(self).orphans(), header.parents@[j], header.hash)
            },
            !old(self).dag().contains_key(header.hash) && all_in(header.parents@, old(self).dag())
                ==> {
                &&& r is Ok || r == Err::<(), DagError>(DagError::InvalidHeader) || r == Err::<
                    (),
                    DagError,
                >(DagError::InvalidGhostdagData)
                &&& r is Ok ==> final(self).dag().contains_key(header.hash) && final(self).dag()[header.hash]
                    == header.parents@ && !final(self).orphans().contains_key(header.hash)
                    && waiting_resolved(
                    pool_at(old(self).orphans(), header.hash),
                    old(self).dag().insert(header.hash, header.parents@),
                    final(self).dag(),
                ) && forall|x: HashValue|
                    #[trigger] final(self).dag().contains_key(x) && !old(self).dag().contains_key(x)
                        ==> !final(self).orphans().contains_key(x)
            },
    {
        match self.verify_header(header) {
            Ok(()) => {},
            Err(e) => {
                return Err(e);
            },
        }
        self.connect_checked(header)
    }
}

} // verus!
