use blockdag::blockdag::{BlockDAG, ConsensusRules, DagError, DagStores};
use blockdag::schema::ValueCodec;
use blockdag::tables::{GhostdagSchema, HeadersSchema, ReachabilitySchema, RelationsSchema};
use blockdag::types::{GhostdagData, HashValue, Header, HeaderRecord, ORIGIN, ReachabilityEntry};

/// Picks the parent with the highest blue score (the larger hash on a tie)
/// and counts every other parent as blue.
struct SimpleRules {
    k: u64,
    reject: Vec<HashValue>,
    bogus_parent: bool,
}

impl SimpleRules {
    fn new(k: u64) -> SimpleRules {
        SimpleRules { k, reject: vec![], bogus_parent: false }
    }
}

impl ConsensusRules for SimpleRules {
    fn genesis_ghostdag_data(&self) -> GhostdagData {
        GhostdagData::new(ORIGIN, 0, vec![], vec![])
    }

    fn ghostdag(&self, stores: &DagStores, parents: &Vec<HashValue>) -> GhostdagData {
        let mut best = parents[0];
        let mut best_score = 0u64;
        for p in parents {
            let score = stores.ghostdag_store.get_data(*p).map(|d| d.blue_score).unwrap_or(0);
            if score > best_score || (score == best_score && *p > best) {
                best = *p;
                best_score = score;
            }
        }
        let blues: Vec<HashValue> =
            parents.iter().copied().filter(|p| *p != best).take(self.k as usize).collect();
        let score = best_score + 1 + blues.len() as u64;
        let selected = if self.bogus_parent { 999_999 } else { best };
        GhostdagData::new(selected, score, blues, vec![])
    }

    fn validate_header(&self, header: &Header) -> bool {
        !self.reject.contains(&header.hash)
    }
}

fn dag_with(genesis: HashValue, rules: SimpleRules) -> BlockDAG<SimpleRules> {
    let g = Header::new(genesis, vec![ORIGIN]);
    BlockDAG::new(g, rules, DagStores::new()).expect("genesis is committed")
}

fn committed(dag: &BlockDAG<SimpleRules>, h: HashValue) -> bool {
    let s = dag.stores();
    dag.is_in_dag(h) && s.header_store.has(h) && s.ghostdag_store.has(h) && s.reachability_store.has(h)
}

#[test]
fn base_test() {
    let genesis_hash: HashValue = 1;
    let genesis = Header::new(genesis_hash, vec![ORIGIN]);
    let k = 16;
    let mut dag = BlockDAG::new(genesis, SimpleRules::new(k), DagStores::new()).unwrap();
    let block = Header::new(2, vec![genesis_hash]);
    assert_eq!(dag.commit_header(&block), Ok(()));
    assert!(committed(&dag, 2));
}

#[test]
fn genesis_is_committed_on_construction() {
    let dag = dag_with(1, SimpleRules::new(16));
    assert!(committed(&dag, 1));
    assert!(dag.is_in_dag(ORIGIN));
    assert_eq!(dag.stores().relations_store.get_parents(ORIGIN).unwrap().len(), 0);
    let data = dag.stores().ghostdag_store.get_data(1).unwrap();
    assert_eq!(data.selected_parent, ORIGIN);
    assert_eq!(data.blue_score, 0);
    let record = dag.stores().header_store.get_header(1).unwrap();
    assert_eq!(record.header.parents, vec![ORIGIN]);
    assert_eq!(record.counter, 0);
}

#[test]
fn bootstrap_twice_changes_nothing() {
    let mut dag = dag_with(1, SimpleRules::new(16));
    assert_eq!(dag.init_with_genesis(), Ok(()));
    assert_eq!(dag.init_with_genesis(), Ok(()));
    assert!(committed(&dag, 1));
    assert_eq!(dag.stores().ghostdag_store.get_data(1).unwrap().blue_score, 0);
    assert_eq!(dag.stores().relations_store.get_parents(1).unwrap(), &vec![ORIGIN]);
}

#[test]
fn genesis_with_empty_parents() {
    let g = Header::new(1, vec![]);
    let mut dag = BlockDAG::new(g, SimpleRules::new(16), DagStores::new()).unwrap();
    assert!(committed(&dag, 1));
    assert_eq!(dag.connect_block(&Header::new(1, vec![])), Ok(()));
    assert_eq!(dag.init_with_genesis(), Ok(()));
}

#[test]
fn connect_commits_child_of_genesis() {
    let mut dag = dag_with(1, SimpleRules::new(16));
    assert_eq!(dag.connect_block(&Header::new(2, vec![1])), Ok(()));
    assert!(committed(&dag, 2));
    let data = dag.stores().ghostdag_store.get_data(2).unwrap();
    assert_eq!(data.selected_parent, 1);
    assert_eq!(data.blue_score, 1);
    let entry_has_parent = dag.stores().reachability_store.has(1);
    assert!(entry_has_parent);
}

#[test]
fn orphan_is_held_and_not_committed() {
    let mut dag = dag_with(1, SimpleRules::new(16));
    let h = Header::new(3, vec![1, 2]);
    assert_eq!(dag.connect_block(&h), Ok(()));
    assert!(!dag.is_in_dag(3));
    assert!(!dag.stores().header_store.has(3));
    assert!(!dag.stores().ghostdag_store.has(3));
    assert!(dag.is_orphan(&h));
}

#[test]
fn orphan_resolves_when_parent_arrives() {
    let mut dag = dag_with(1, SimpleRules::new(16));
    let h = Header::new(3, vec![1, 2]);
    assert_eq!(dag.connect_block(&h), Ok(()));
    assert!(!dag.is_in_dag(3));
    assert_eq!(dag.connect_block(&Header::new(2, vec![1])), Ok(()));
    assert!(committed(&dag, 2));
    assert!(committed(&dag, 3));
    assert_eq!(dag.stores().ghostdag_store.get_data(3).unwrap().selected_parent, 2);
    // the pool no longer holds it: connecting it again is a no-op
    assert_eq!(dag.connect_block(&h), Ok(()));
}

#[test]
fn orphan_waits_for_every_missing_parent() {
    let mut dag = dag_with(1, SimpleRules::new(16));
    let h = Header::new(4, vec![2, 3]);
    assert_eq!(dag.connect_block(&h), Ok(()));
    assert_eq!(dag.connect_block(&Header::new(2, vec![1])), Ok(()));
    assert!(!dag.is_in_dag(4));
    assert_eq!(dag.connect_block(&Header::new(3, vec![1])), Ok(()));
    assert!(committed(&dag, 4));
}

#[test]
fn duplicate_orphan_is_rejected() {
    let mut dag = dag_with(1, SimpleRules::new(16));
    let h = Header::new(3, vec![2]);
    assert_eq!(dag.connect_block(&h), Ok(()));
    assert_eq!(dag.connect_block(&h), Err(DagError::DuplicateOrphan));
    assert!(!dag.is_in_dag(3));
    // the first registration still stands and resolves
    assert_eq!(dag.connect_block(&Header::new(2, vec![1])), Ok(()));
    assert!(committed(&dag, 3));
}

#[test]
fn end_to_end_scenario() {
    let g = Header::new(10, vec![]);
    let mut dag = BlockDAG::new(g, SimpleRules::new(16), DagStores::new()).unwrap();
    assert_eq!(dag.connect_block(&Header::new(10, vec![])), Ok(()));
    assert_eq!(dag.init_with_genesis(), Ok(()));
    assert!(committed(&dag, 10));

    let a = Header::new(11, vec![10]);
    assert_eq!(dag.connect_block(&a), Ok(()));
    assert!(committed(&dag, 11));
    assert_eq!(dag.stores().ghostdag_store.get_data(11).unwrap().selected_parent, 10);

    let b = Header::new(13, vec![11, 12]);
    assert_eq!(dag.connect_block(&b), Ok(()));
    assert!(!dag.stores().header_store.has(13));
    assert!(!dag.is_in_dag(13));

    let x = Header::new(12, vec![10]);
    assert_eq!(dag.connect_block(&x), Ok(()));
    assert!(committed(&dag, 12));
    assert!(committed(&dag, 13));
    let sp = dag.stores().ghostdag_store.get_data(13).unwrap().selected_parent;
    assert!(sp == 11 || sp == 12);
    assert_eq!(sp, 12);
    assert_eq!(dag.stores().relations_store.get_parents(13).unwrap(), &vec![11, 12]);
}

#[test]
fn invalid_headers_are_rejected() {
    let mut rules = SimpleRules::new(16);
    rules.reject = vec![7];
    let mut dag = dag_with(1, rules);
    // no parents
    assert_eq!(dag.connect_block(&Header::new(2, vec![])), Err(DagError::InvalidHeader));
    // names itself
    assert_eq!(dag.connect_block(&Header::new(2, vec![1, 2])), Err(DagError::InvalidHeader));
    // a parent twice
    assert_eq!(dag.connect_block(&Header::new(2, vec![1, 1])), Err(DagError::InvalidHeader));
    // the sentinel as a block or as a parent
    assert_eq!(dag.connect_block(&Header::new(ORIGIN, vec![1])), Err(DagError::InvalidHeader));
    assert_eq!(dag.connect_block(&Header::new(2, vec![ORIGIN])), Err(DagError::InvalidHeader));
    // refused by the external rules
    assert_eq!(dag.connect_block(&Header::new(7, vec![1])), Err(DagError::InvalidHeader));
    assert!(!dag.is_in_dag(2));
    assert!(!dag.is_in_dag(7));
    assert_eq!(dag.verify_header(&Header::new(2, vec![1])), Ok(()));
}

#[test]
fn commit_errors() {
    let mut dag = dag_with(1, SimpleRules::new(16));
    assert_eq!(dag.commit_header(&Header::new(1, vec![ORIGIN])), Err(DagError::AlreadyInDag));
    assert_eq!(dag.commit_header(&Header::new(3, vec![2])), Err(DagError::MissingParent));
    assert!(!dag.is_in_dag(3));
}

#[test]
fn bad_ghostdag_data_is_refused() {
    let mut rules = SimpleRules::new(16);
    rules.bogus_parent = true;
    let mut dag = dag_with(1, rules);
    assert_eq!(dag.connect_block(&Header::new(2, vec![1])), Err(DagError::InvalidGhostdagData));
    assert!(!dag.is_in_dag(2));
    assert!(!dag.stores().ghostdag_store.has(2));
}

#[test]
fn check_missing_block_without_waiting_headers() {
    let mut dag = dag_with(1, SimpleRules::new(16));
    assert_eq!(dag.check_missing_block(&Header::new(1, vec![ORIGIN])), Ok(()));
    assert!(committed(&dag, 1));
}

#[test]
fn mergeset_lists_blues_then_reds() {
    let d = GhostdagData::new(1, 5, vec![2, 3], vec![4]);
    assert_eq!(d.unordered_mergeset_without_selected_parent(), vec![2, 3, 4]);
    let h = Header::new(9, vec![1, 2]);
    assert_eq!(h.hash(), 9);
    assert_eq!(h.parents_hash(), &vec![1, 2]);
    assert_eq!(h.duplicate().parents, vec![1, 2]);
}

#[test]
fn orphan_chain_resolves() {
    let mut dag = dag_with(1, SimpleRules::new(16));
    let c = Header::new(4, vec![3]);
    let b = Header::new(3, vec![2]);
    assert_eq!(dag.connect_block(&c), Ok(()));
    assert_eq!(dag.connect_block(&b), Ok(()));
    assert!(!dag.is_in_dag(3));
    assert!(!dag.is_in_dag(4));
    assert_eq!(dag.connect_block(&Header::new(2, vec![1])), Ok(()));
    assert!(committed(&dag, 2));
    assert!(committed(&dag, 3));
    assert!(committed(&dag, 4));
    assert_eq!(dag.stores().ghostdag_store.get_data(4).unwrap().blue_score, 3);
}

#[test]
fn commit_with_given_data_filters_the_merge_set() {
    let mut dag = dag_with(1, SimpleRules::new(16));
    assert_eq!(dag.connect_block(&Header::new(2, vec![1])), Ok(()));
    // 2 is indexed, 77 is not: only 2 goes into the index entry
    let data = GhostdagData::new(1, 3, vec![2, 77], vec![]);
    assert_eq!(dag.commit_header_with(&Header::new(3, vec![1, 2]), data), Ok(()));
    let entry = dag.stores().reachability_store.get_entry(3).unwrap();
    assert_eq!(entry.selected_parent, 1);
    assert_eq!(entry.mergeset, vec![2]);
    let stored = dag.stores().ghostdag_store.get_data(3).unwrap();
    assert_eq!(stored.mergeset_blues, vec![2, 77]);
    assert_eq!(stored.blue_score, 3);
}

#[test]
fn commit_with_bad_data_writes_nothing() {
    let mut dag = dag_with(1, SimpleRules::new(16));
    assert_eq!(dag.connect_block(&Header::new(2, vec![1])), Ok(()));
    // selected parent not among the parents
    let data = GhostdagData::new(2, 1, vec![], vec![]);
    assert_eq!(
        dag.commit_header_with(&Header::new(3, vec![1]), data),
        Err(DagError::InvalidGhostdagData)
    );
    // selected parent not indexed
    let data = GhostdagData::new(9, 1, vec![], vec![]);
    assert_eq!(
        dag.commit_header_with(&Header::new(3, vec![1]), data),
        Err(DagError::InvalidGhostdagData)
    );
    assert!(!dag.is_in_dag(3));
    assert!(!dag.stores().reachability_store.has(3));
}

#[test]
fn check_header_applies_structural_rules_only() {
    let mut rules = SimpleRules::new(16);
    rules.reject = vec![7];
    let dag = dag_with(1, rules);
    assert_eq!(dag.check_header(&Header::new(7, vec![1])), Ok(()));
    assert_eq!(dag.verify_header(&Header::new(7, vec![1])), Err(DagError::InvalidHeader));
    assert_eq!(dag.check_header(&Header::new(7, vec![])), Err(DagError::InvalidHeader));
    assert_eq!(dag.check_header(&Header::new(1, vec![ORIGIN])), Ok(()));
}

#[test]
fn connect_checked_skips_validation() {
    let mut rules = SimpleRules::new(16);
    rules.reject = vec![2];
    let mut dag = dag_with(1, rules);
    assert_eq!(dag.connect_block(&Header::new(2, vec![1])), Err(DagError::InvalidHeader));
    assert_eq!(dag.connect_checked(&Header::new(2, vec![1])), Ok(()));
    assert!(committed(&dag, 2));
    assert_eq!(dag.connect_checked(&Header::new(4, vec![3])), Ok(()));
    assert_eq!(dag.connect_checked(&Header::new(4, vec![3])), Err(DagError::DuplicateOrphan));
}

#[test]
fn reopening_bootstrapped_stores_keeps_them() {
    let mut dag = dag_with(1, SimpleRules::new(16));
    assert_eq!(dag.connect_block(&Header::new(2, vec![1])), Ok(()));
    let stores = dag.into_stores();
    let dag = BlockDAG::new(Header::new(1, vec![ORIGIN]), SimpleRules::new(16), stores).unwrap();
    assert!(committed(&dag, 1));
    assert!(committed(&dag, 2));
    assert_eq!(dag.stores().ghostdag_store.get_data(2).unwrap().blue_score, 1);
    assert_eq!(dag.stores().relations_store.get_parents(2).unwrap(), &vec![1]);
}

#[test]
fn stored_values_read_back_through_codecs() {
    let mut dag = dag_with(1, SimpleRules::new(16));
    assert_eq!(dag.connect_block(&Header::new(2, vec![1])), Ok(()));
    let s = dag.stores();
    let parents = s.relations_store.get_parents(2).unwrap();
    let bytes = <Vec<u64> as ValueCodec<RelationsSchema>>::encode_value(parents).unwrap();
    assert_eq!(<Vec<u64> as ValueCodec<RelationsSchema>>::decode_value(&bytes).unwrap(), vec![1]);
    let origin = s.relations_store.get_parents(ORIGIN).unwrap();
    let bytes = <Vec<u64> as ValueCodec<RelationsSchema>>::encode_value(origin).unwrap();
    assert!(<Vec<u64> as ValueCodec<RelationsSchema>>::decode_value(&bytes).unwrap().is_empty());
    let record = s.header_store.get_header(2).unwrap();
    let bytes = <HeaderRecord as ValueCodec<HeadersSchema>>::encode_value(record).unwrap();
    let back = <HeaderRecord as ValueCodec<HeadersSchema>>::decode_value(&bytes).unwrap();
    assert_eq!((back.header.hash, back.header.parents, back.counter), (2, vec![1], 0));
    let data = s.ghostdag_store.get_data(2).unwrap();
    let bytes = <GhostdagData as ValueCodec<GhostdagSchema>>::encode_value(data).unwrap();
    let back = <GhostdagData as ValueCodec<GhostdagSchema>>::decode_value(&bytes).unwrap();
    assert_eq!((back.selected_parent, back.blue_score), (1, 1));
    let entry = s.reachability_store.get_entry(2).unwrap();
    let bytes = <ReachabilityEntry as ValueCodec<ReachabilitySchema>>::encode_value(entry).unwrap();
    let back = <ReachabilityEntry as ValueCodec<ReachabilitySchema>>::decode_value(&bytes).unwrap();
    assert_eq!(back.selected_parent, 1);
}
