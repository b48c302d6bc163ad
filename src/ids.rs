//! Facts about task ids across the registry: the status partition (each id
//! carried by at most one task) and counting tasks by id.
use crate::internal_state::{
    has_key, is_addition_of, is_update_of, lacks_key, lemma_lacking_has_none, moved_from,
    moved_tasks, updated_bucket, InternalState,
};
use crate::task::Task;
use crate::Status;
use vstd::prelude::*;

verus! {

/// The order of two filters does not matter.
proof fn lemma_filter_commute(s: Seq<Task>, p: spec_fn(Task) -> bool, q: spec_fn(Task) -> bool)
    ensures
        s.filter(p).filter(q) == s.filter(q).filter(p),
    decreases s.len(),
{
    reveal(Seq::filter);
    if s.len() > 0 {
        lemma_filter_commute(s.drop_last(), p, q);
        let x = s.last();
        let fp = s.drop_last().filter(p);
        let fq = s.drop_last().filter(q);
        assert(fp.push(x).drop_last() =~= fp);
        assert(fq.push(x).drop_last() =~= fq);
    }
}

/// Filtering by another test first leaves no more tasks with id `k`.
proof fn lemma_prefilter_fewer(s: Seq<Task>, p: spec_fn(Task) -> bool, k: i32)
    ensures
        s.filter(p).filter(has_key(k)).len() <= s.filter(has_key(k)).len(),
{
    broadcast use vstd::seq_lib::group_filter_ensures;

    lemma_filter_commute(s, p, has_key(k));
    s.filter(has_key(k)).lemma_filter_len(p);
}

/// Two sequences whose tasks carry the same ids, position by position, have
/// as many tasks with id `k`.
proof fn lemma_same_ids_same_count(a: Seq<Task>, b: Seq<Task>, k: i32)
    requires
        a.len() == b.len(),
        forall|i: int| 0 <= i < a.len() ==> #[trigger] a[i].key == b[i].key,
    ensures
        a.filter(has_key(k)).len() == b.filter(has_key(k)).len(),
    decreases a.len(),
{
    reveal(Seq::filter);
    if a.len() > 0 {
        lemma_same_ids_same_count(a.drop_last(), b.drop_last(), k);
    }
}

/// A sequence all of whose tasks pass a test is its own filter.
pub(crate) proof fn lemma_filter_all(s: Seq<Task>, p: spec_fn(Task) -> bool)
    requires
        forall|i: int| 0 <= i < s.len() ==> p(#[trigger] s[i]),
    ensures
        s.filter(p) == s,
    decreases s.len(),
{
    reveal(Seq::filter);
    if s.len() > 0 {
        lemma_filter_all(s.drop_last(), p);
        assert(s.drop_last().push(s.last()) =~= s);
    }
}

/// What moving `key` takes out of a status carries id `key` only.
proof fn lemma_moved_ids(st: InternalState, key: i32, target: Status, now: u64, s: Status, k: i32)
    ensures
        k == key ==> moved_from(st, key, target, now, s).filter(has_key(k)) == moved_from(
            st,
            key,
            target,
            now,
            s,
        ),
        k != key ==> moved_from(st, key, target, now, s).filter(has_key(k)).len() == 0,
        moved_from(st, key, target, now, s).len() == if s == target {
            0
        } else {
            st.bucket(s).filter(has_key(key)).len()
        },
{
    broadcast use vstd::seq_lib::group_filter_ensures;

    let m = moved_from(st, key, target, now, s);
    if s != target {
        let f = st.bucket(s).filter(has_key(key));
        assert forall|i: int| 0 <= i < m.len() implies #[trigger] m[i].key == key by {
            assert(has_key(key)(f[i]));
        }
    }
    if k == key {
        lemma_filter_all(m, has_key(k));
    } else {
        assert forall|i: int| 0 <= i < m.len() implies !has_key(k)(#[trigger] m[i]) by {}
        m.lemma_all_neg_filter_empty(has_key(k));
    }
}

/// An empty registry carries every id at most once.
pub proof fn lemma_empty_ids_unique(st: InternalState)
    requires
        st.is_empty_spec(),
    ensures
        st.ids_unique(),
{
    reveal(Seq::filter);
    assert forall|k: i32| #[trigger] st.occurrences(k) <= 1 by {
        assert(st.bucket(Status::Queued).len() == 0);
        assert(st.bucket(Status::Started).len() == 0);
        assert(st.bucket(Status::Finished).len() == 0);
        assert(st.bucket(Status::Error).len() == 0);
        assert(st.bucket(Status::Info).len() == 0);
    }
}

/// Moving a task between statuses keeps ids unique.
pub(crate) proof fn lemma_ids_stay_unique_on_update(
    before: InternalState,
    after: InternalState,
    key: i32,
    target: Status,
    now: u64,
)
    requires
        before.ids_unique(),
        is_update_of(after, before, key, target, now),
    ensures
        after.ids_unique(),
{
    broadcast use vstd::seq_lib::group_filter_ensures;

    assert forall|k: i32| #[trigger] after.occurrences(k) <= 1 by {
        assert forall|s: Status| s != target implies #[trigger] after.bucket(s).filter(
            has_key(k),
        ).len() <= before.bucket(s).filter(has_key(k)).len() && (k == key ==> after.bucket(
            s,
        ).filter(has_key(k)).len() == 0) by {
            assert(after.bucket(s) == updated_bucket(before, key, target, now, s));
            lemma_prefilter_fewer(before.bucket(s), lacks_key(key), k);
            if k == key {
                lemma_lacking_has_none(before.bucket(s), key);
            }
        }
        let m = moved_tasks(before, key, target, now);
        lemma_moved_ids(before, key, target, now, Status::Queued, k);
        lemma_moved_ids(before, key, target, now, Status::Started, k);
        lemma_moved_ids(before, key, target, now, Status::Finished, k);
        lemma_moved_ids(before, key, target, now, Status::Error, k);
        lemma_moved_ids(before, key, target, now, Status::Info, k);
        assert(after.bucket(target) == before.bucket(target) + m);
        assert(after.bucket(target).filter(has_key(k)).len() == before.bucket(target).filter(
            has_key(k),
        ).len() + m.filter(has_key(k)).len());
        assert(before.occurrences(k) <= 1);
    }
}

/// Adding a task under an id not yet on the board keeps ids unique.
pub(crate) proof fn lemma_ids_stay_unique_on_add(
    before: InternalState,
    after: InternalState,
    key: i32,
    name: Option<String>,
    status: Status,
    now: u64,
)
    requires
        before.ids_unique(),
        before.occurrences(key) == 0,
        is_addition_of(after, before, key, name, status, now),
    ensures
        after.ids_unique(),
{
    reveal(Seq::filter);
    assert forall|k: i32| #[trigger] after.occurrences(k) <= 1 by {
        assert(after.bucket(status).drop_last() == before.bucket(status));
        assert(before.occurrences(k) <= 1);
    }
}

/// Changing tasks in place without touching their ids keeps ids unique.
pub(crate) proof fn lemma_ids_stay_unique_in_place(before: InternalState, after: InternalState)
    requires
        before.ids_unique(),
        forall|s: Status| #[trigger] after.bucket(s).len() == before.bucket(s).len(),
        forall|s: Status, i: int|
            0 <= i < before.bucket(s).len() ==> #[trigger] after.bucket(s)[i].key == before.bucket(
                s,
            )[i].key,
    ensures
        after.ids_unique(),
{
    assert forall|k: i32| #[trigger] after.occurrences(k) <= 1 by {
        assert forall|s: Status| #[trigger] after.bucket(s).filter(has_key(k)).len()
            == before.bucket(s).filter(has_key(k)).len() by {
            assert forall|i: int| 0 <= i < after.bucket(s).len() implies #[trigger] after.bucket(
                s,
            )[i].key == before.bucket(s)[i].key by {}
            lemma_same_ids_same_count(after.bucket(s), before.bucket(s), k);
        }
        assert(before.occurrences(k) <= 1);
    }
}

/// Filtering some statuses keeps ids unique.
pub(crate) proof fn lemma_ids_stay_unique_when_filtered(
    before: InternalState,
    after: InternalState,
    pick: spec_fn(Status) -> spec_fn(Task) -> bool,
)
    requires
        before.ids_unique(),
        forall|s: Status| #[trigger] after.bucket(s) == before.bucket(s).filter(pick(s)),
    ensures
        after.ids_unique(),
{
    assert forall|k: i32| #[trigger] after.occurrences(k) <= 1 by {
        assert forall|s: Status| #[trigger] after.bucket(s).filter(has_key(k)).len()
            <= before.bucket(s).filter(has_key(k)).len() by {
            lemma_prefilter_fewer(before.bucket(s), pick(s), k);
        }
        assert(before.occurrences(k) <= 1);
    }
}

/// Every task on `st`, in any status, carries one of `ids`.
pub(crate) open spec fn keys_within(st: InternalState, ids: Seq<i32>) -> bool {
    forall|s: Status, i: int|
        0 <= i < st.bucket(s).len() ==> ids.contains(#[trigger] st.bucket(s)[i].key)
}

/// Adding a task under id `key` leaves the tasks with any other id as they
/// were, and adds one with id `key` to the status it is added to.
pub(crate) proof fn lemma_add_counts(
    before: InternalState,
    after: InternalState,
    key: i32,
    name: Option<String>,
    status: Status,
    now: u64,
    k: i32,
)
    requires
        is_addition_of(after, before, key, name, status, now),
    ensures
        forall|s: Status|
            #![trigger after.bucket(s)]
            (s != status || k != key) ==> after.bucket(s).filter(has_key(k)).len()
                == before.bucket(s).filter(has_key(k)).len(),
        k == key ==> after.bucket(status).filter(has_key(k)).len() == before.bucket(
            status,
        ).filter(has_key(k)).len() + 1,
{
    reveal(Seq::filter);
    assert(after.bucket(status).drop_last() == before.bucket(status));
}

/// Moving the task `key` leaves the tasks with any other id, status by
/// status, as many as they were; the tasks with id `key` all end up in the
/// target status.
pub(crate) proof fn lemma_update_counts(
    before: InternalState,
    after: InternalState,
    key: i32,
    target: Status,
    now: u64,
    k: i32,
)
    requires
        is_update_of(after, before, key, target, now),
    ensures
        k != key ==> forall|s: Status| #[trigger]
            after.bucket(s).filter(has_key(k)).len() == before.bucket(s).filter(has_key(k)).len(),
        k == key ==> forall|s: Status| s != target ==> #[trigger]
            after.bucket(s).filter(has_key(k)).len() == 0,
        k == key ==> after.bucket(target).filter(has_key(k)).len() == before.occurrences(k),
{
    broadcast use vstd::seq_lib::group_filter_ensures;

    lemma_moved_ids(before, key, target, now, Status::Queued, k);
    lemma_moved_ids(before, key, target, now, Status::Started, k);
    lemma_moved_ids(before, key, target, now, Status::Finished, k);
    lemma_moved_ids(before, key, target, now, Status::Error, k);
    lemma_moved_ids(before, key, target, now, Status::Info, k);
    let m = moved_tasks(before, key, target, now);
    assert(after.bucket(target) == before.bucket(target) + m);
    assert(after.bucket(target).filter(has_key(k)).len() == before.bucket(target).filter(
        has_key(k),
    ).len() + m.filter(has_key(k)).len());
    assert forall|s: Status| s != target implies #[trigger] after.bucket(s).filter(has_key(k)).len()
        == if k == key {
        0
    } else {
        before.bucket(s).filter(has_key(k)).len()
    } by {
        assert(after.bucket(s) == before.bucket(s).filter(lacks_key(key)));
        if k == key {
            lemma_lacking_has_none(before.bucket(s), key);
        } else {
            lemma_filter_commute(before.bucket(s), lacks_key(key), has_key(k));
            let f = before.bucket(s).filter(has_key(k));
            assert forall|i: int| 0 <= i < f.len() implies lacks_key(key)(#[trigger] f[i]) by {
                assert(has_key(k)(f[i]));
            }
            lemma_filter_all(f, lacks_key(key));
        }
    }
}

/// Adding a task under one of `ids` keeps every task's id among `ids`.
pub(crate) proof fn lemma_add_keeps_keys_within(
    before: InternalState,
    after: InternalState,
    key: i32,
    name: Option<String>,
    status: Status,
    now: u64,
    ids: Seq<i32>,
)
    requires
        keys_within(before, ids),
        ids.contains(key),
        is_addition_of(after, before, key, name, status, now),
    ensures
        keys_within(after, ids),
{
    assert forall|s: Status, i: int| 0 <= i < after.bucket(s).len() implies ids.contains(
        #[trigger] after.bucket(s)[i].key,
    ) by {
        if s == status && i < before.bucket(s).len() {
            assert(after.bucket(s)[i] == after.bucket(s).drop_last()[i]);
        }
    }
}

/// Moving a task keeps every task's id among `ids`.
pub(crate) proof fn lemma_update_keeps_keys_within(
    before: InternalState,
    after: InternalState,
    key: i32,
    target: Status,
    now: u64,
    ids: Seq<i32>,
)
    requires
        keys_within(before, ids),
        ids.contains(key),
        is_update_of(after, before, key, target, now),
    ensures
        keys_within(after, ids),
{
    broadcast use vstd::seq_lib::group_filter_ensures;

    assert forall|s: Status, i: int| 0 <= i < after.bucket(s).len() implies ids.contains(
        #[trigger] after.bucket(s)[i].key,
    ) by {
        if s == target {
            let b = before.bucket(target);
            if i >= b.len() {
                let m = moved_tasks(before, key, target, now);
                lemma_moved_ids(before, key, target, now, Status::Queued, key);
                lemma_moved_ids(before, key, target, now, Status::Started, key);
                lemma_moved_ids(before, key, target, now, Status::Finished, key);
                lemma_moved_ids(before, key, target, now, Status::Error, key);
                lemma_moved_ids(before, key, target, now, Status::Info, key);
                assert(m.filter(has_key(key)) == m);
                assert(has_key(key)(m.filter(has_key(key))[i - b.len()]));
                assert(after.bucket(s)[i] == m[i - b.len()]);
            } else {
                assert(after.bucket(s)[i] == b[i]);
            }
        } else {
            let x = after.bucket(s)[i];
            assert(before.bucket(s).filter(lacks_key(key)).contains(x));
            before.bucket(s).lemma_filter_contains_rev(lacks_key(key), x);
        }
    }
}

/// How many tasks of `s` carry each of `ids`, summed.
pub(crate) open spec fn count_by_ids(s: Seq<Task>, ids: Seq<i32>) -> nat
    decreases ids.len(),
{
    if ids.len() == 0 {
        0
    } else {
        s.filter(has_key(ids.last())).len() + count_by_ids(s, ids.drop_last())
    }
}

proof fn lemma_filter_split_len(s: Seq<Task>, k: i32)
    ensures
        s.len() == s.filter(has_key(k)).len() + s.filter(lacks_key(k)).len(),
    decreases s.len(),
{
    reveal(Seq::filter);
    if s.len() > 0 {
        lemma_filter_split_len(s.drop_last(), k);
    }
}

proof fn lemma_count_after_removing(s: Seq<Task>, ids: Seq<i32>, k: i32)
    requires
        !ids.contains(k),
    ensures
        count_by_ids(s.filter(lacks_key(k)), ids) == count_by_ids(s, ids),
    decreases ids.len(),
{
    broadcast use vstd::seq_lib::group_filter_ensures;

    if ids.len() > 0 {
        let k2 = ids.last();
        assert(ids.drop_last().contains(k) ==> ids.contains(k));
        lemma_count_after_removing(s, ids.drop_last(), k);
        lemma_filter_commute(s, lacks_key(k), has_key(k2));
        let f = s.filter(has_key(k2));
        assert(k2 != k) by {
            assert(ids.contains(ids.last()));
        }
        assert forall|i: int| 0 <= i < f.len() implies lacks_key(k)(#[trigger] f[i]) by {
            assert(has_key(k2)(f[i]));
        }
        lemma_filter_all(f, lacks_key(k));
    }
}

/// A sequence whose tasks all carry one of `ids`, none twice in `ids`, has
/// as many tasks as it has tasks with each of the ids, summed.
pub(crate) proof fn lemma_count_by_ids(s: Seq<Task>, ids: Seq<i32>)
    requires
        ids.no_duplicates(),
        forall|i: int| 0 <= i < s.len() ==> ids.contains(#[trigger] s[i].key),
    ensures
        s.len() == count_by_ids(s, ids),
    decreases ids.len(),
{
    broadcast use vstd::seq_lib::group_filter_ensures;

    if ids.len() == 0 {
        if s.len() > 0 {
            assert(ids.contains(s[0].key));
        }
    } else {
        let k = ids.last();
        let rest = ids.drop_last();
        let t = s.filter(lacks_key(k));
        lemma_filter_split_len(s, k);
        assert(!rest.contains(k)) by {
            if rest.contains(k) {
                let j = choose|j: int| 0 <= j < rest.len() && rest[j] == k;
                assert(ids[j] == ids[ids.len() - 1]);
            }
        }
        assert(rest.no_duplicates()) by {
            assert forall|a: int, b: int| 0 <= a < b < rest.len() implies rest[a] != rest[b] by {
                assert(ids[a] != ids[b]);
            }
        }
        assert forall|i: int| 0 <= i < t.len() implies rest.contains(#[trigger] t[i].key) by {
            assert(lacks_key(k)(t[i]));
            assert(s.contains(t[i])) by {
                assert(t.contains(t[i]));
                s.lemma_filter_contains_rev(lacks_key(k), t[i]);
            }
            let j = choose|j: int| 0 <= j < s.len() && s[j] == t[i];
            assert(ids.contains(s[j].key));
            let m = choose|m: int| 0 <= m < ids.len() && ids[m] == t[i].key;
            assert(m != ids.len() - 1);
            assert(rest[m] == t[i].key);
        }
        lemma_count_by_ids(t, rest);
        lemma_count_after_removing(s, rest, k);
    }
}

/// When each of `ids` is carried by `c` tasks of `s`, the sum is `c` times
/// the number of ids.
pub(crate) proof fn lemma_count_uniform(s: Seq<Task>, ids: Seq<i32>, c: nat)
    requires
        forall|k: i32| ids.contains(k) ==> #[trigger] s.filter(has_key(k)).len() == c,
    ensures
        count_by_ids(s, ids) == c * ids.len(),
    decreases ids.len(),
{
    if ids.len() > 0 {
        assert(ids.contains(ids.last()));
        assert forall|k: i32| ids.drop_last().contains(k) implies #[trigger] s.filter(
            has_key(k),
        ).len() == c by {
            let j = choose|j: int| 0 <= j < ids.drop_last().len() && ids.drop_last()[j] == k;
            assert(ids[j] == k);
        }
        lemma_count_uniform(s, ids.drop_last(), c);
        let n = ids.len();
        assert(c * n == c + c * (n - 1)) by (nonlinear_arith);
    }
}

} // verus!
