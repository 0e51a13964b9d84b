//! The orphan pool as a map from a missing parent to the headers that wait
//! for it, with what registering and resolving headers does to it.
use crate::types::{HashValue, Header};
use vstd::prelude::*;

verus! {

/// Whether every hash of `s` is a key of `m`.
pub open spec fn all_in(s: Seq<HashValue>, m: Map<HashValue, Seq<HashValue>>) -> bool {
    forall|i: int| 0 <= i < s.len() ==> m.contains_key(#[trigger] s[i])
}

/// Whether the pool holds a header with hash `h` under the missing parent `p`.
pub open spec fn pool_has(
    pool: Map<HashValue, Seq<(HashValue, Seq<HashValue>)>>,
    p: HashValue,
    h: HashValue,
) -> bool {
    pool.contains_key(p) && exists|i: int| 0 <= i < pool[p].len() && #[trigger] pool[p][i].0 == h
}

/// What the pool holds under `p`, empty when it holds nothing.
pub open spec fn pool_at(
    pool: Map<HashValue, Seq<(HashValue, Seq<HashValue>)>>,
    p: HashValue,
) -> Seq<(HashValue, Seq<HashValue>)> {
    if pool.contains_key(p) {
        pool[p]
    } else {
        Seq::empty()
    }
}

/// `p` is not committed and the pool holds a header with hash `h` under it.
pub open spec fn missing_and_held(
    pool: Map<HashValue, Seq<(HashValue, Seq<HashValue>)>>,
    dag: Map<HashValue, Seq<HashValue>>,
    p: HashValue,
    h: HashValue,
) -> bool {
    !dag.contains_key(p) && pool_has(pool, p, h)
}

/// `header` is held already under one of its parents that is not committed.
pub open spec fn is_duplicate_orphan(
    pool: Map<HashValue, Seq<(HashValue, Seq<HashValue>)>>,
    dag: Map<HashValue, Seq<HashValue>>,
    header: Header,
) -> bool {
    exists|i: int|
        0 <= i < header.parents@.len() && missing_and_held(
            pool,
            dag,
            #[trigger] header.parents@[i],
            header.hash,
        )
}

/// The pool after `header` is registered under each of its first `n`
/// parents that is not committed.
pub open spec fn registered_prefix(
    pool: Map<HashValue, Seq<(HashValue, Seq<HashValue>)>>,
    dag: Map<HashValue, Seq<HashValue>>,
    header: Header,
    n: int,
) -> Map<HashValue, Seq<(HashValue, Seq<HashValue>)>>
    decreases n,
{
    if n <= 0 {
        pool
    } else {
        let before = registered_prefix(pool, dag, header, n - 1);
        let p = header.parents@[n - 1];
        if dag.contains_key(p) || pool_has(before, p, header.hash) {
            before
        } else {
            before.insert(p, pool_at(before, p).push(header@))
        }
    }
}

/// The pool after `header` is registered under each of its parents that is
/// not committed.
pub open spec fn registered(
    pool: Map<HashValue, Seq<(HashValue, Seq<HashValue>)>>,
    dag: Map<HashValue, Seq<HashValue>>,
    header: Header,
) -> Map<HashValue, Seq<(HashValue, Seq<HashValue>)>> {
    registered_prefix(pool, dag, header, header.parents@.len() as int)
}

/// Every `waiting` header whose parents were all in `before` is in `after`.
pub open spec fn waiting_resolved(
    waiting: Seq<(HashValue, Seq<HashValue>)>,
    before: Map<HashValue, Seq<HashValue>>,
    after: Map<HashValue, Seq<HashValue>>,
) -> bool {
    forall|i: int|
        0 <= i < waiting.len() && all_in(#[trigger] waiting[i].1, before) ==> after.contains_key(
            waiting[i].0,
        )
}

pub(crate) proof fn lemma_registered_unchanged(
    pool: Map<HashValue, Seq<(HashValue, Seq<HashValue>)>>,
    dag: Map<HashValue, Seq<HashValue>>,
    header: Header,
    n: int,
)
    requires
        n <= header.parents@.len(),
        all_in(header.parents@, dag),
    ensures
        registered_prefix(pool, dag, header, n) == pool,
    decreases n,
{
    if n > 0 {
        lemma_registered_unchanged(pool, dag, header, n - 1);
        assert(dag.contains_key(header.parents@[n - 1]));
    }
}

pub(crate) proof fn lemma_registered_holds(
    pool: Map<HashValue, Seq<(HashValue, Seq<HashValue>)>>,
    dag: Map<HashValue, Seq<HashValue>>,
    header: Header,
    n: int,
)
    requires
        0 <= n <= header.parents@.len(),
    ensures
        forall|j: int|
            0 <= j < n && !dag.contains_key(#[trigger] header.parents@[j]) ==> pool_has(
                registered_prefix(pool, dag, header, n),
                header.parents@[j],
                header.hash,
            ),
    decreases n,
{
    if n > 0 {
        lemma_registered_holds(pool, dag, header, n - 1);
        let before = registered_prefix(pool, dag, header, n - 1);
        let after = registered_prefix(pool, dag, header, n);
        let p = header.parents@[n - 1];
        assert forall|j: int|
            0 <= j < n && !dag.contains_key(#[trigger] header.parents@[j]) implies pool_has(
            after,
            header.parents@[j],
            header.hash,
        ) by {
            let q = header.parents@[j];
            if !(dag.contains_key(p) || pool_has(before, p, header.hash)) {
                if q == p {
                    let s = pool_at(before, p).push(header@);
                    assert(after[q] == s);
                    assert(s[s.len() - 1].0 == header.hash);
                } else {
                    let k = choose|k: int| 0 <= k < before[q].len() && #[trigger] before[q][k].0 == header.hash;
                    assert(after[q][k].0 == header.hash);
                }
            }
        }
    }
}

proof fn lemma_registered_entries(
    pool: Map<HashValue, Seq<(HashValue, Seq<HashValue>)>>,
    dag: Map<HashValue, Seq<HashValue>>,
    header: Header,
    n: int,
)
    requires
        0 <= n <= header.parents@.len(),
        !is_duplicate_orphan(pool, dag, header),
    ensures
        forall|q: HashValue|
            !header.parents@.subrange(0, n).contains(q) ==> #[trigger] pool_at(
                registered_prefix(pool, dag, header, n),
                q,
            ) == pool_at(pool, q),
        forall|j: int|
            0 <= j < n && !dag.contains_key(#[trigger] header.parents@[j]) ==> pool_at(
                registered_prefix(pool, dag, header, n),
                header.parents@[j],
            ).contains(header@),
    decreases n,
{
    if n > 0 {
        lemma_registered_entries(pool, dag, header, n - 1);
        let before = registered_prefix(pool, dag, header, n - 1);
        let after = registered_prefix(pool, dag, header, n);
        let p = header.parents@[n - 1];
        let pre = header.parents@.subrange(0, n - 1);
        assert(header.parents@.subrange(0, n) =~= pre.push(p));
        assert forall|q: HashValue| !header.parents@.subrange(0, n).contains(q) implies #[trigger] pool_at(
            after,
            q,
        ) == pool_at(pool, q) by {
            let full = header.parents@.subrange(0, n);
            assert(full[n - 1] == p);
            if pre.contains(q) {
                let j = choose|j: int| 0 <= j < pre.len() && pre[j] == q;
                assert(full[j] == q);
            }
            assert(q != p);
            assert(pool_at(after, q) == pool_at(before, q));
        }
        let pushes = !(dag.contains_key(p) || pool_has(before, p, header.hash));
        if !dag.contains_key(p) && !pushes {
            // `p` already holds the header, so it was registered under `p` earlier in this call
            if !pre.contains(p) {
                assert(pool_at(before, p) == pool_at(pool, p));
                assert(missing_and_held(pool, dag, header.parents@[n - 1], header.hash));
                assert(false);
            }
            let j = choose|j: int| 0 <= j < pre.len() && pre[j] == p;
            assert(header.parents@[j] == p);
        }
        assert forall|j: int|
            0 <= j < n && !dag.contains_key(#[trigger] header.parents@[j]) implies pool_at(
            after,
            header.parents@[j],
        ).contains(header@) by {
            let q = header.parents@[j];
            if pushes {
                if q == p {
                    let s = pool_at(before, p).push(header@);
                    assert(pool_at(after, q) == s);
                    assert(s[s.len() - 1] == header@);
                } else {
                    assert(pool_at(after, q) == pool_at(before, q));
                }
            }
        }
    }
}

/// Duplicate rejection: once a header is registered under a missing parent,
/// registering it again finds it held, so the second registration is
/// refused and leaves the pool as the first one left it.
pub proof fn lemma_second_registration_is_duplicate(
    pool: Map<HashValue, Seq<(HashValue, Seq<HashValue>)>>,
    dag: Map<HashValue, Seq<HashValue>>,
    header: Header,
)
    requires
        !all_in(header.parents@, dag),
    ensures
        is_duplicate_orphan(registered(pool, dag, header), dag, header),
{
    let n = header.parents@.len() as int;
    lemma_registered_holds(pool, dag, header, n);
    let j = choose|j: int| 0 <= j < n && !dag.contains_key(#[trigger] header.parents@[j]);
    assert(missing_and_held(registered(pool, dag, header), dag, header.parents@[j], header.hash));
}

/// Orphan resolution: a header registered while its parent `p` is missing
/// waits under `p` with its parents; when `p` is committed and the headers
/// that waited for it are resolved against a DAG that holds all the
/// header's parents, the header is committed.
pub proof fn lemma_orphan_resolution(
    pool: Map<HashValue, Seq<(HashValue, Seq<HashValue>)>>,
    dag: Map<HashValue, Seq<HashValue>>,
    header: Header,
    p: HashValue,
    dag_with_p: Map<HashValue, Seq<HashValue>>,
    after: Map<HashValue, Seq<HashValue>>,
)
    requires
        header.parents@.contains(p),
        !dag.contains_key(p),
        !is_duplicate_orphan(pool, dag, header),
        waiting_resolved(pool_at(registered(pool, dag, header), p), dag_with_p, after),
        all_in(header.parents@, dag_with_p),
    ensures
        after.contains_key(header.hash),
{
    let n = header.parents@.len() as int;
    lemma_registered_entries(pool, dag, header, n);
    let j = choose|j: int| 0 <= j < n && header.parents@[j] == p;
    assert(!dag.contains_key(header.parents@[j]));
    let w = pool_at(registered(pool, dag, header), p);
    assert(w.contains(header@));
    let k = choose|k: int| 0 <= k < w.len() && w[k] == header@;
    assert(all_in(w[k].1, dag_with_p));
}

} // verus!
