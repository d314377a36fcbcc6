//! Ranking queries: the leaderboard of a category, its best run, a runner's
//! best run, and the rank of a run.
//!
//! The leaderboard of a category spans both regions. The rank of a run is
//! counted within the run's own region.

use vstd::prelude::*;
use crate::category::Category;
use crate::error::Error;
use crate::record::{Record, RecordView};
use crate::store::reconcile::outcome_view;
use crate::search::{first_index_of, lemma_first_is_found, lemma_none_is_found};
use crate::store::{record_views, Store, StoreView};

verus! {

/// How many runs a leaderboard shows.
pub const TOP_LIMIT: usize = 10;

/// The number of elements of `s` that satisfy `p`.
pub open spec fn count_of<T>(s: Seq<T>, p: spec_fn(T) -> bool) -> nat
    decreases s.len(),
{
    if s.len() == 0 {
        0
    } else {
        count_of(s.drop_last(), p) + if p(s.last()) {
            1nat
        } else {
            0nat
        }
    }
}

/// A sequence in which exactly one element satisfies `p` counts 1.
pub proof fn lemma_count_single<T>(s: Seq<T>, p: spec_fn(T) -> bool, i: int)
    requires
        0 <= i < s.len(),
        p(s[i]),
        forall|j: int| 0 <= j < s.len() && j != i ==> !p(#[trigger] s[j]),
    ensures
        count_of(s, p) == 1,
    decreases s.len(),
{
    let shorter = s.drop_last();
    assert forall|j: int| 0 <= j < shorter.len() implies shorter[j] == s[j] by {}
    if i == s.len() - 1 {
        lemma_count_none(shorter, p);
    } else {
        lemma_count_single(shorter, p, i);
    }
}

/// A sequence in which no element satisfies `p` counts 0.
pub proof fn lemma_count_none<T>(s: Seq<T>, p: spec_fn(T) -> bool)
    requires
        forall|j: int| 0 <= j < s.len() ==> !p(#[trigger] s[j]),
    ensures
        count_of(s, p) == 0,
    decreases s.len(),
{
    if s.len() > 0 {
        let shorter = s.drop_last();
        assert forall|j: int| 0 <= j < shorter.len() implies shorter[j] == s[j] by {}
        lemma_count_none(shorter, p);
    }
}

/// A sequence with an element that satisfies `p` counts at least 1.
pub proof fn lemma_count_positive<T>(s: Seq<T>, p: spec_fn(T) -> bool, i: int)
    requires
        0 <= i < s.len(),
        p(s[i]),
    ensures
        count_of(s, p) >= 1,
    decreases s.len(),
{
    if i < s.len() - 1 {
        assert(s.drop_last()[i] == s[i]);
        lemma_count_positive(s.drop_last(), p, i);
    }
}

impl RecordView {
    /// Whether the run is on the leaderboard of `category`.
    pub open spec fn on_board(self, category: Category) -> bool {
        self.category == category && self.ranked()
    }

    /// Whether this run stands before `other` on a leaderboard: it is
    /// faster, or as fast and stored earlier.
    pub open spec fn before(self, other: RecordView) -> bool {
        self.realtime < other.realtime || (self.realtime == other.realtime && self.id < other.id)
    }

    /// Whether this run counts towards the rank of `other`: it is ranked, in
    /// the same category and region, and not slower.
    pub open spec fn counts_towards(self, other: RecordView) -> bool {
        self.ranked() && self.same_board(other) && self.realtime <= other.realtime
    }

    /// Whether this is a best run of `runner_id` in `category`, with a known
    /// time.
    pub open spec fn is_best_of(self, runner_id: int, category: Category) -> bool {
        self.runner_id == runner_id && self.on_board(category)
    }

    /// Whether this is a ranked run of `runner_id`.
    pub open spec fn is_ranked_of(self, runner_id: int) -> bool {
        self.runner_id == runner_id && self.ranked()
    }

    /// Whether this run stands before `other` in a runner's list of records:
    /// its category has the lower code, or the same and it was stored
    /// earlier.
    pub open spec fn listed_before(self, other: RecordView) -> bool {
        self.category.code() < other.category.code() || (self.category.code()
            == other.category.code() && self.id < other.id)
    }
}

impl StoreView {
    /// The rank of `record`: the number of ranked runs of its category and
    /// region that are not slower. Runs that are as fast all count, so runs
    /// that tie share the rank of the last of them.
    pub open spec fn rank_of(self, record: RecordView) -> nat {
        count_of(self.records, |s: RecordView| s.counts_towards(record))
    }

    /// Whether `record` is the best run of `category`: on its leaderboard,
    /// with no run of the leaderboard standing before it.
    pub open spec fn leads(self, record: RecordView, category: Category) -> bool {
        &&& self.records.contains(record)
        &&& record.on_board(category)
        &&& forall|j: int|
            0 <= j < self.records.len() && (#[trigger] self.records[j]).on_board(category)
                ==> !self.records[j].before(record)
    }

    /// Whether `top` is the head of the leaderboard of `category`, of at
    /// most `limit` runs: runs of the leaderboard in its order, and every
    /// run of the leaderboard that `top` leaves out stands behind `limit`
    /// runs of `top`.
    pub open spec fn is_top(self, category: Category, top: Seq<RecordView>, limit: nat) -> bool {
        &&& top.len() <= limit
        &&& forall|k: int|
            0 <= k < top.len() ==> self.records.contains(#[trigger] top[k]) && top[k].on_board(
                category,
            )
        &&& forall|k: int, l: int|
            0 <= k < l < top.len() ==> (#[trigger] top[k]).before(#[trigger] top[l])
        &&& forall|j: int|
            0 <= j < self.records.len() && (#[trigger] self.records[j]).on_board(category)
                ==> top.contains(self.records[j]) || (top.len() == limit && limit > 0
                && top.last().before(self.records[j]))
    }

    /// Whether `list` holds the ranked runs of `runner_id`, all of them, by
    /// category and within a category in the order in which they were
    /// stored.
    pub open spec fn is_list_of(self, runner_id: int, list: Seq<RecordView>) -> bool {
        &&& forall|k: int|
            0 <= k < list.len() ==> self.records.contains(#[trigger] list[k])
                && list[k].is_ranked_of(runner_id)
        &&& forall|k: int, l: int|
            0 <= k < l < list.len() ==> (#[trigger] list[k]).listed_before(#[trigger] list[l])
        &&& forall|j: int|
            0 <= j < self.records.len() && (#[trigger] self.records[j]).is_ranked_of(runner_id)
                ==> list.contains(self.records[j])
    }

    /// The row of the first best run of `runner_id` in `category`, whatever
    /// its region.
    pub open spec fn personal_best(self, runner_id: int, category: Category) -> Option<int> {
        first_index_of(self.records, |s: RecordView| s.is_best_of(runner_id, category))
    }
}

/// A store that keeps its rules has fewer rows than there are identifiers.
pub proof fn lemma_record_count(store: StoreView)
    requires
        store.wf(),
    ensures
        store.records.len() <= i32::MAX,
{
    if store.records.len() > 0 {
        lemma_ids_outgrow_rows(store, store.records.len() - 1);
    }
}

proof fn lemma_ids_outgrow_rows(store: StoreView, i: int)
    requires
        store.wf(),
        0 <= i < store.records.len(),
    ensures
        store.records[i].id > i,
    decreases i,
{
    if i > 0 {
        lemma_ids_outgrow_rows(store, i - 1);
        assert(store.records[i - 1].id < store.records[i].id);
    }
}

/// A stored run that is ranked counts towards its own rank, so its rank is at
/// least 1.
pub proof fn lemma_ranked_run_has_a_rank(store: StoreView, i: int)
    requires
        0 <= i < store.records.len(),
        store.records[i].ranked(),
    ensures
        store.rank_of(store.records[i]) >= 1,
{
    lemma_count_positive(
        store.records,
        |s: RecordView| s.counts_towards(store.records[i]),
        i,
    );
}

/// The head of a leaderboard starts with the best run of the category.
pub proof fn lemma_top_starts_with_the_best(
    store: StoreView,
    category: Category,
    top: Seq<RecordView>,
    limit: nat,
)
    requires
        store.is_top(category, top, limit),
        top.len() > 0,
    ensures
        store.leads(top[0], category),
{
    let first = top[0];
    assert forall|j: int|
        0 <= j < store.records.len() && (#[trigger] store.records[j]).on_board(
            category,
        ) implies !store.records[j].before(first) by {
        let s = store.records[j];
        if top.contains(s) {
            let k = choose|k: int| 0 <= k < top.len() && top[k] == s;
            if k > 0 {
                assert(top[0].before(top[k]));
            }
        } else {
            if top.len() > 1 {
                assert(top[0].before(top[top.len() - 1]));
            }
        }
    }
}

/// The best run of a category has rank 1, unless another ranked run of its
/// category and region is exactly as fast.
pub proof fn lemma_world_record_ranks_first(
    store: StoreView,
    category: Category,
    best: RecordView,
)
    requires
        store.wf(),
        store.leads(best, category),
        forall|j: int|
            0 <= j < store.records.len() && (#[trigger] store.records[j]).counts_towards(best)
                && store.records[j].realtime == best.realtime ==> store.records[j].id == best.id,
    ensures
        store.rank_of(best) == 1,
{
    let i = choose|i: int| 0 <= i < store.records.len() && store.records[i] == best;
    let counts = |s: RecordView| s.counts_towards(best);
    assert forall|j: int| 0 <= j < store.records.len() && j != i implies !counts(
        #[trigger] store.records[j],
    ) by {
        let s = store.records[j];
        if s.counts_towards(best) {
            assert(s.on_board(category));
            assert(!s.before(best));
            if j < i {
                assert(store.records[j].id < store.records[i].id);
            } else {
                assert(store.records[i].id < store.records[j].id);
            }
        }
    }
    lemma_count_single(store.records, counts, i);
}

impl Record {
    fn on_board(&self, category: Category) -> (on: bool)
        ensures
            on == self@.on_board(category),
    {
        self.category == category && self.active == 1 && self.realtime != 0
    }

    fn before(&self, other: &Record) -> (before: bool)
        ensures
            before == self@.before(other@),
    {
        self.realtime < other.realtime || (self.realtime == other.realtime && self.id < other.id)
    }

    /// The rank of this run among the ranked runs of its category and
    /// region: how many of them are not slower.
    pub fn get_rank(&self, store: &Store) -> (rank: i32)
        requires
            store.wf(),
        ensures
            rank == store@.rank_of(self@),
    {
        let ghost counts = |s: RecordView| s.counts_towards(self@);
        let mut rank: i32 = 0;
        let mut i: usize = 0;
        proof {
            lemma_record_count(store@);
            assert(store@.records.take(0) =~= Seq::<RecordView>::empty());
        }
        while i < store.records.len()
            invariant
                i <= store.records.len(),
                store.records.len() <= i32::MAX,
                counts == |s: RecordView| s.counts_towards(self@),
                rank == count_of(store@.records.take(i as int), counts),
                0 <= rank <= i,
            decreases store.records.len() - i,
        {
            let s = &store.records[i];
            proof {
                let longer = store@.records.take(i + 1);
                assert(longer.drop_last() =~= store@.records.take(i as int));
                assert(longer.last() == s@);
            }
            if s.active == 1 && s.realtime != 0 && s.category == self.category && s.region
                == self.region && s.realtime <= self.realtime {
                rank += 1;
            }
            i += 1;
        }
        assert(store@.records.take(i as int) =~= store@.records);
        rank
    }

    /// The head of the leaderboard of `category`: its ranked runs of either
    /// region, fastest first, at most ten of them.
    pub fn get_top(store: &Store, category: Category) -> (top: Vec<Record>)
        requires
            store.wf(),
        ensures
            store@.is_top(category, record_views(top@), TOP_LIMIT as nat),
    {
        let mut top: Vec<Record> = Vec::new();
        let n = store.records.len();
        while top.len() < TOP_LIMIT
            invariant
                store.wf(),
                n == store.records.len(),
                top.len() <= TOP_LIMIT,
                forall|k: int|
                    0 <= k < top.len() ==> store@.records.contains(#[trigger] top[k]@)
                        && top[k]@.on_board(category),
                forall|k: int, l: int|
                    0 <= k < l < top.len() ==> (#[trigger] top[k]@).before(#[trigger] top[l]@),
                forall|j: int|
                    0 <= j < n && (#[trigger] store@.records[j]).on_board(category) && top.len() > 0
                        ==> record_views(top@).contains(store@.records[j]) || top[top.len()
                        - 1]@.before(store@.records[j]),
            ensures
                top.len() <= TOP_LIMIT,
                forall|k: int|
                    0 <= k < top.len() ==> store@.records.contains(#[trigger] top[k]@)
                        && top[k]@.on_board(category),
                forall|k: int, l: int|
                    0 <= k < l < top.len() ==> (#[trigger] top[k]@).before(#[trigger] top[l]@),
                forall|j: int|
                    0 <= j < n && (#[trigger] store@.records[j]).on_board(category)
                        ==> record_views(top@).contains(store@.records[j]) || (top.len()
                        == TOP_LIMIT && top[top.len() - 1]@.before(store@.records[j])),
            decreases TOP_LIMIT - top.len(),
        {
            let mut next: Option<usize> = None;
            let mut i: usize = 0;
            while i < n
                invariant
                    i <= n,
                    n == store.records.len(),
                    next matches Some(b) ==> b < i && store@.records[b as int].on_board(category)
                        && (top.len() > 0 ==> top[top.len() - 1]@.before(store@.records[b as int])),
                    forall|j: int|
                        0 <= j < i && (#[trigger] store@.records[j]).on_board(category) && (
                        top.len() > 0 ==> top[top.len() - 1]@.before(store@.records[j]))
                            ==> next is Some && !store@.records[j].before(
                            store@.records[next->0 as int],
                        ),
                decreases n - i,
            {
                let s = &store.records[i];
                let follows = top.len() == 0 || top[top.len() - 1].before(s);
                if s.on_board(category) && follows {
                    let better = match next {
                        Some(b) => s.before(&store.records[b]),
                        None => true,
                    };
                    if better {
                        next = Some(i);
                    }
                }
                i += 1;
            }
            match next {
                Some(b) => {
                    let ghost shown = record_views(top@);
                    let chosen = store.records[b].clone();
                    proof {
                        assert(store@.records[b as int] == chosen@);
                        assert forall|k: int| 0 <= k < top.len() implies (#[trigger] top[k]@).before(
                            chosen@,
                        ) by {
                            if k < top.len() - 1 {
                                assert(top[k]@.before(top[top.len() - 1]@));
                            }
                        }
                    }
                    top.push(chosen);
                    proof {
                        assert forall|j: int|
                            0 <= j < n && (#[trigger] store@.records[j]).on_board(
                                category,
                            ) implies record_views(top@).contains(store@.records[j]) || top[top.len()
                            - 1]@.before(store@.records[j]) by {
                            let s = store@.records[j];
                            if shown.len() > 0 && shown.contains(s) {
                                let k = choose|k: int| 0 <= k < shown.len() && shown[k] == s;
                                assert(record_views(top@)[k] == s);
                            } else if j == b {
                                assert(record_views(top@)[top.len() - 1] == s);
                            } else {
                                assert(!s.before(store@.records[b as int]));
                                if j < b {
                                    assert(store@.records[j].id < store@.records[b as int].id);
                                } else {
                                    assert(store@.records[b as int].id < store@.records[j].id);
                                }
                            }
                        }
                    }
                },
                None => {
                    break ;
                },
            }
        }
        proof {
            let shown = record_views(top@);
            assert forall|k: int| 0 <= k < shown.len() implies store@.records.contains(
                #[trigger] shown[k],
            ) && shown[k].on_board(category) by {
                assert(shown[k] == top[k]@);
            }
            assert forall|k: int, l: int| 0 <= k < l < shown.len() implies (
            #[trigger] shown[k]).before(#[trigger] shown[l]) by {
                assert(top[k]@.before(top[l]@));
            }
            if shown.len() > 0 {
                assert(shown.last() == top[top.len() - 1]@);
            }
        }
        top
    }

    /// The ranked runs of the runner `runner_id`, by category.
    pub fn get_records(store: &Store, runner_id: i32) -> (list: Vec<Record>)
        requires
            store.wf(),
        ensures
            store@.is_list_of(runner_id as int, record_views(list@)),
    {
        let mut list: Vec<Record> = Vec::new();
        let ghost mut rows: Seq<int> = Seq::empty();
        let n = store.records.len();
        let mut code: i32 = 0;
        while code < 20
            invariant
                store.wf(),
                n == store.records.len(),
                0 <= code <= 20,
                rows.len() == list.len(),
                forall|k: int|
                    0 <= k < list.len() ==> 0 <= #[trigger] rows[k] < n && list[k]@
                        == store@.records[rows[k]] && list[k]@.is_ranked_of(runner_id as int)
                        && list[k]@.category.code() < code,
                forall|k: int, l: int|
                    0 <= k < l < list.len() ==> (#[trigger] list[k]@).listed_before(
                        #[trigger] list[l]@,
                    ),
                forall|j: int|
                    0 <= j < n && (#[trigger] store@.records[j]).is_ranked_of(runner_id as int)
                        && store@.records[j].category.code() < code ==> rows.contains(j),
            decreases 20 - code,
        {
            let mut i: usize = 0;
            while i < n
                invariant
                    store.wf(),
                    n == store.records.len(),
                    i <= n,
                    0 <= code < 20,
                    rows.len() == list.len(),
                    forall|k: int|
                        0 <= k < list.len() ==> 0 <= #[trigger] rows[k] < n && list[k]@
                            == store@.records[rows[k]] && list[k]@.is_ranked_of(runner_id as int)
                            && (list[k]@.category.code() < code || (list[k]@.category.code()
                            == code && rows[k] < i)),
                    forall|k: int, l: int|
                        0 <= k < l < list.len() ==> (#[trigger] list[k]@).listed_before(
                            #[trigger] list[l]@,
                        ),
                    forall|j: int|
                        0 <= j < n && (#[trigger] store@.records[j]).is_ranked_of(runner_id as int)
                            && (store@.records[j].category.code() < code || (
                        store@.records[j].category.code() == code && j < i)) ==> rows.contains(j),
                decreases n - i,
            {
                let s = &store.records[i];
                if s.runner_id == runner_id && s.active == 1 && s.realtime != 0
                    && s.category.to_code() == code {
                    let ghost listed = rows;
                    let found = s.clone();
                    proof {
                        assert(found@ == store@.records[i as int]);
                        assert forall|k: int| 0 <= k < list.len() implies (
                        #[trigger] list[k]@).listed_before(found@) by {
                            if list[k]@.category.code() == code {
                                assert(store@.records[rows[k]].id < store@.records[i as int].id);
                            }
                        }
                        rows = rows.push(i as int);
                    }
                    list.push(found);
                    proof {
                        assert(rows[rows.len() - 1] == i);
                        assert forall|j: int| listed.contains(j) implies rows.contains(j) by {
                            let k = choose|k: int| 0 <= k < listed.len() && listed[k] == j;
                            assert(rows[k] == j);
                        }
                    }
                }
                i += 1;
            }
            code += 1;
        }
        proof {
            let listed = record_views(list@);
            assert forall|k: int| 0 <= k < listed.len() implies store@.records.contains(
                #[trigger] listed[k],
            ) && listed[k].is_ranked_of(runner_id as int) by {
                assert(listed[k] == list[k]@);
                assert(store@.records[rows[k]] == listed[k]);
            }
            assert forall|k: int, l: int| 0 <= k < l < listed.len() implies (
            #[trigger] listed[k]).listed_before(#[trigger] listed[l]) by {
                assert(list[k]@.listed_before(list[l]@));
            }
            assert forall|j: int|
                0 <= j < n && (#[trigger] store@.records[j]).is_ranked_of(
                    runner_id as int,
                ) implies listed.contains(store@.records[j]) by {
                assert(rows.contains(j));
                let k = choose|k: int| 0 <= k < rows.len() && rows[k] == j;
                assert(listed[k] == store@.records[j]);
            }
        }
        list
    }

    /// The best run of `category`: the first of its leaderboard.
    pub fn get_wr(store: &Store, category: Category) -> (outcome: Result<Record, Error>)
        requires
            store.wf(),
        ensures
            match outcome {
                Ok(best) => store@.leads(best@, category),
                Err(e) => e == Error::NotFound && forall|j: int|
                    0 <= j < store@.records.len() ==> !(#[trigger] store@.records[j]).on_board(
                        category,
                    ),
            },
    {
        let mut best: Option<usize> = None;
        let mut i: usize = 0;
        while i < store.records.len()
            invariant
                i <= store.records.len(),
                best matches Some(b) ==> b < i && store@.records[b as int].on_board(category),
                forall|j: int|
                    0 <= j < i && (#[trigger] store@.records[j]).on_board(category) ==> best is Some
                        && !store@.records[j].before(store@.records[best->0 as int]),
            decreases store.records.len() - i,
        {
            let s = &store.records[i];
            if s.on_board(category) {
                let better = match best {
                    Some(b) => s.before(&store.records[b]),
                    None => true,
                };
                if better {
                    best = Some(i);
                }
            }
            i += 1;
        }
        match best {
            Some(b) => {
                assert(store@.records[b as int] == store.records[b as int]@);
                Ok(store.records[b].clone())
            },
            None => Err(Error::NotFound),
        }
    }

    /// The best run of the runner `runner_id` in `category`, in whichever
    /// region; the one stored first where both regions have one. Runs
    /// without a known time are passed over.
    pub fn get_pb(store: &Store, runner_id: i32, category: Category) -> (outcome: Result<
        Record,
        Error,
    >)
        ensures
            outcome_view(outcome) == store@.record_at(
                store@.personal_best(runner_id as int, category),
            ),
    {
        let mut i: usize = 0;
        while i < store.records.len()
            invariant
                i <= store.records.len(),
                forall|j: int|
                    0 <= j < i ==> !store@.records[j].is_best_of(runner_id as int, category),
            decreases store.records.len() - i,
        {
            let s = &store.records[i];
            if s.runner_id == runner_id && s.on_board(category) {
                proof {
                    lemma_first_is_found(
                        store@.records,
                        |s: RecordView| s.is_best_of(runner_id as int, category),
                        i as int,
                    );
                }
                return store.record_at(Some(i));
            }
            i += 1;
        }
        proof {
            lemma_none_is_found(
                store@.records,
                |s: RecordView| s.is_best_of(runner_id as int, category),
            );
        }
        Err(Error::NotFound)
    }
}

} // verus!
