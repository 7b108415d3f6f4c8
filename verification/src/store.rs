//! The store: an in-memory realization of the trips table, the model of
//! what seeding, schema creation and reset do to it, and the laws that
//! hold of them.

use vstd::prelude::*;
use vstd::map::*;
use crate::trip::{stored_row, to_row, ITrip, Row, RowView, TripView};

verus! {

/// The table contents that a sequence of rows describes: keyed by id, a
/// later row replacing an earlier one with the same id.
pub open spec fn table_map(rs: Seq<RowView>) -> Map<Seq<char>, RowView>
    decreases rs.len(),
{
    if rs.len() == 0 {
        Map::empty()
    } else {
        table_map(rs.drop_last()).insert(rs.last().id, rs.last())
    }
}

/// Whether some row of `rs` carries the id `k`.
pub open spec fn has_id(rs: Seq<RowView>, k: Seq<char>) -> bool {
    exists|i: int| 0 <= i < rs.len() && rs[i].id == k
}

/// Pairwise distinct ids.
pub open spec fn distinct_ids(rs: Seq<RowView>) -> bool {
    forall|i: int, j: int| 0 <= i < j < rs.len() ==> rs[i].id != rs[j].id
}

/// The map of a row sequence holds exactly the ids of its rows, and is
/// finite.
pub proof fn lemma_table_map_keys(rs: Seq<RowView>, k: Seq<char>)
    ensures
        table_map(rs).contains_key(k) <==> has_id(rs, k),
        table_map(rs).dom().finite(),
    decreases rs.len(),
{
    if rs.len() == 0 {
        assert(!has_id(rs, k));
    } else {
        let front = rs.drop_last();
        lemma_table_map_keys(front, k);
        if rs.last().id == k {
            assert(rs[rs.len() - 1].id == k);
            assert(has_id(rs, k));
        } else {
            if has_id(rs, k) {
                let i = choose|i: int| 0 <= i < rs.len() && rs[i].id == k;
                assert(i < rs.len() - 1);
                assert(front[i] == rs[i]);
                assert(has_id(front, k));
            }
            if has_id(front, k) {
                let i = choose|i: int| 0 <= i < front.len() && front[i].id == k;
                assert(rs[i] == front[i]);
                assert(has_id(rs, k));
            }
        }
    }
}

/// With distinct ids, each row is the one the map holds under its id.
pub proof fn lemma_table_map_row(rs: Seq<RowView>, i: int)
    requires
        distinct_ids(rs),
        0 <= i < rs.len(),
    ensures
        table_map(rs).contains_key(rs[i].id),
        table_map(rs)[rs[i].id] == rs[i],
    decreases rs.len(),
{
    let front = rs.drop_last();
    if i == rs.len() - 1 {
    } else {
        assert(rs[i].id != rs.last().id);
        assert(front[i] == rs[i]);
        assert(distinct_ids(front)) by {
            assert(forall|a: int, b: int|
                0 <= a < b < front.len() ==> front[a] == rs[a] && front[b] == rs[b]);
        }
        lemma_table_map_row(front, i);
    }
}

/// With distinct ids, the map holds exactly one entry per row.
pub proof fn lemma_table_map_card(rs: Seq<RowView>)
    requires
        distinct_ids(rs),
    ensures
        table_map(rs).dom().finite(),
        table_map(rs).dom().len() == rs.len(),
    decreases rs.len(),
{
    if rs.len() == 0 {
        lemma_table_map_keys(rs, Seq::empty());
        assert(table_map(rs).dom() =~= Set::<Seq<char>>::empty());
    } else {
        let front = rs.drop_last();
        assert(distinct_ids(front)) by {
            assert(forall|a: int, b: int|
                0 <= a < b < front.len() ==> front[a] == rs[a] && front[b] == rs[b]);
        }
        lemma_table_map_card(front);
        lemma_table_map_keys(front, rs.last().id);
        assert(!has_id(front, rs.last().id)) by {
            if has_id(front, rs.last().id) {
                let i = choose|i: int| 0 <= i < front.len() && front[i].id == rs.last().id;
                assert(rs[i] == front[i]);
                assert(rs[i].id == rs[rs.len() - 1].id);
                assert(false);
            }
        }
        assert(table_map(rs).dom() =~= table_map(front).dom().insert(rs.last().id));
    }
}

/// The trips table held in memory: its rows carry pairwise distinct ids,
/// as the store's primary key enforces.
pub struct Table {
    rows: Vec<Row>,
}

impl Table {
    /// The rows as mathematical values, in their stored order.
    pub closed spec fn rows_seq(&self) -> Seq<RowView> {
        Seq::new(self.rows@.len(), |i: int| self.rows@[i]@)
    }

    /// The id uniqueness that every operation preserves.
    pub closed spec fn inv(&self) -> bool {
        distinct_ids(self.rows_seq())
    }

    /// An empty table.
    pub fn new() -> (r: Table)
        ensures
            r.inv(),
            r@ == Map::<Seq<char>, RowView>::empty(),
            r.rows_seq() == Seq::<RowView>::empty(),
    {
        let r = Table { rows: Vec::new() };
        proof {
            assert(r.rows_seq() =~= Seq::<RowView>::empty());
        }
        r
    }

    /// Writes the row: one with the same id is replaced in place, any
    /// other is inserted at the end.
    pub fn upsert(&mut self, row: Row)
        requires
            old(self).inv(),
        ensures
            final(self).inv(),
            final(self)@ == old(self)@.insert(row@.id, row@),
    {
        let ghost olds = self.rows_seq();
        let mut i: usize = 0;
        while i < self.rows.len()
            invariant
                self == old(self),
                olds == self.rows_seq(),
                distinct_ids(olds),
                old(self)@ == table_map(olds),
                i <= self.rows@.len(),
                forall|k: int| 0 <= k < i ==> olds[k].id != row@.id,
            decreases self.rows@.len() - i,
        {
            if self.rows[i].id == row.id {
                self.rows.set(i, row);
                proof {
                    let news = self.rows_seq();
                    assert(news =~= olds.update(i as int, row@));
                    assert(distinct_ids(news)) by {
                        assert(forall|a: int, b: int|
                            0 <= a < b < news.len() && a != i && b != i ==> news[a] == olds[a]
                                && news[b] == olds[b]);
                        assert(forall|a: int|
                            0 <= a < news.len() && a != i ==> news[a] == olds[a] && olds[a].id
                                != olds[i as int].id);
                    }
                    let m1 = table_map(news);
                    let m2 = old(self)@.insert(row@.id, row@);
                    assert_maps_equal!(m1, m2, k => {
                        lemma_table_map_keys(news, k);
                        lemma_table_map_keys(olds, k);
                        if k == row@.id {
                            lemma_table_map_row(news, i as int);
                        } else {
                            if has_id(news, k) {
                                let a = choose|a: int| 0 <= a < news.len() && news[a].id == k;
                                assert(a != i);
                                assert(olds[a] == news[a]);
                                assert(has_id(olds, k));
                                lemma_table_map_row(news, a);
                                lemma_table_map_row(olds, a);
                            }
                            if has_id(olds, k) {
                                let a = choose|a: int| 0 <= a < olds.len() && olds[a].id == k;
                                assert(a != i);
                                assert(news[a] == olds[a]);
                                assert(has_id(news, k));
                            }
                        }
                    });
                }
                return ;
            }
            i = i + 1;
        }
        self.rows.push(row);
        proof {
            let news = self.rows_seq();
            assert(news =~= olds.push(row@));
            assert(news.drop_last() =~= olds);
            assert(news.last() == row@);
            assert(self@ == old(self)@.insert(row@.id, row@));
            assert(distinct_ids(news)) by {
                assert(forall|a: int|
                    0 <= a < olds.len() ==> news[a] == olds[a] && olds[a].id != row@.id);
            }
        }
    }

    /// The row stored under the given id, where there is one.
    pub fn get(&self, id: &String) -> (r: Option<&Row>)
        requires
            self.inv(),
        ensures
            match r {
                Some(row) => self@.contains_key(id@) && row@ == self@[id@],
                None => !self@.contains_key(id@),
            },
    {
        let mut i: usize = 0;
        while i < self.rows.len()
            invariant
                self.inv(),
                i <= self.rows@.len(),
                forall|k: int| 0 <= k < i ==> self.rows_seq()[k].id != id@,
            decreases self.rows@.len() - i,
        {
            if self.rows[i].id == *id {
                proof {
                    lemma_table_map_row(self.rows_seq(), i as int);
                }
                return Some(&self.rows[i]);
            }
            i = i + 1;
        }
        proof {
            lemma_table_map_keys(self.rows_seq(), id@);
            if has_id(self.rows_seq(), id@) {
                let a = choose|a: int|
                    0 <= a < self.rows_seq().len() && self.rows_seq()[a].id == id@;
                assert(false);
            }
        }
        None
    }

    /// How many rows the table holds: one per distinct id.
    pub fn count(&self) -> (r: usize)
        requires
            self.inv(),
        ensures
            r == self@.dom().len(),
    {
        proof {
            lemma_table_map_card(self.rows_seq());
        }
        self.rows.len()
    }
}

impl View for Table {
    type V = Map<Seq<char>, RowView>;

    /// The table as a map from id to the row stored under it.
    closed spec fn view(&self) -> Map<Seq<char>, RowView> {
        table_map(self.rows_seq())
    }
}

/// The table after the rows of the records `ts` are upserted in order
/// into `m`.
pub open spec fn seeded(m: Map<Seq<char>, RowView>, ts: Seq<TripView>) -> Map<Seq<char>, RowView>
    decreases ts.len(),
{
    if ts.len() == 0 {
        m
    } else {
        seeded(m, ts.drop_last()).insert(stored_row(ts.last()).id, stored_row(ts.last()))
    }
}

/// Whether some record of `ts` writes a row with id `k`.
pub open spec fn writes_id(ts: Seq<TripView>, k: Seq<char>) -> bool {
    exists|i: int| 0 <= i < ts.len() && stored_row(ts[i]).id == k
}

/// The row written by the last record of `ts` whose id is `k`.
pub open spec fn last_row(ts: Seq<TripView>, k: Seq<char>) -> RowView
    recommends
        writes_id(ts, k),
    decreases ts.len(),
{
    if ts.len() == 0 {
        arbitrary()
    } else if stored_row(ts.last()).id == k {
        stored_row(ts.last())
    } else {
        last_row(ts.drop_last(), k)
    }
}

/// What seeding leaves at each id: the rows already held stay unless a
/// record overwrites them; each id written by some record holds the row
/// of its last record — one row per distinct id, with the latest values.
pub proof fn lemma_seeded_at(m: Map<Seq<char>, RowView>, ts: Seq<TripView>, k: Seq<char>)
    ensures
        seeded(m, ts).contains_key(k) <==> m.contains_key(k) || writes_id(ts, k),
        writes_id(ts, k) ==> seeded(m, ts)[k] == last_row(ts, k),
        !writes_id(ts, k) && m.contains_key(k) ==> seeded(m, ts)[k] == m[k],
    decreases ts.len(),
{
    if ts.len() == 0 {
        assert(!writes_id(ts, k));
    } else {
        let front = ts.drop_last();
        lemma_seeded_at(m, front, k);
        if stored_row(ts.last()).id == k {
            assert(stored_row(ts[ts.len() - 1]).id == k);
            assert(writes_id(ts, k));
        } else {
            if writes_id(ts, k) {
                let i = choose|i: int| 0 <= i < ts.len() && stored_row(ts[i]).id == k;
                assert(i < ts.len() - 1);
                assert(front[i] == ts[i]);
                assert(writes_id(front, k));
            }
            if writes_id(front, k) {
                let i = choose|i: int| 0 <= i < front.len() && stored_row(front[i]).id == k;
                assert(ts[i] == front[i]);
                assert(writes_id(ts, k));
            }
        }
    }
}

/// Seeding the same fixture sequence twice in succession leaves the store
/// exactly as seeding it once does.
pub proof fn lemma_seed_idempotent(m: Map<Seq<char>, RowView>, ts: Seq<TripView>)
    ensures
        seeded(seeded(m, ts), ts) == seeded(m, ts),
{
    let m1 = seeded(m, ts);
    let m2 = seeded(m1, ts);
    assert forall|k: Seq<char>| #[trigger] m2.contains_key(k) implies m1.contains_key(k) && m2[k]
        == m1[k] by {
        lemma_seeded_at(m, ts, k);
        lemma_seeded_at(m1, ts, k);
    }
    assert forall|k: Seq<char>| #[trigger] m1.contains_key(k) implies m2.contains_key(k) by {
        lemma_seeded_at(m1, ts, k);
    }
    assert(m2 =~= m1);
}

/// A run that stops at its first rejected record leaves exactly the
/// effect of the records before it: each of those is stored, and an id
/// neither held before nor written by them — the rejected record's own,
/// or a later record's — is absent.
pub proof fn lemma_partial_seed(m: Map<Seq<char>, RowView>, ts: Seq<TripView>, j: int)
    requires
        0 <= j <= ts.len(),
    ensures
        forall|i: int|
            0 <= i < j ==> #[trigger] seeded(m, ts.take(j)).contains_key(
                stored_row(ts[i]).id,
            ),
        forall|k: Seq<char>|
            !m.contains_key(k) && !writes_id(ts.take(j), k) ==> !seeded(
                m,
                ts.take(j),
            ).contains_key(k),
{
    let pre = ts.take(j);
    assert forall|i: int| 0 <= i < j implies #[trigger] seeded(m, pre).contains_key(
        stored_row(ts[i]).id,
    ) by {
        assert(pre[i] == ts[i]);
        assert(writes_id(pre, stored_row(ts[i]).id));
        lemma_seeded_at(m, pre, stored_row(ts[i]).id);
    }
    assert forall|k: Seq<char>| !m.contains_key(k) && !writes_id(pre, k) implies !seeded(
        m,
        pre,
    ).contains_key(k) by {
        lemma_seeded_at(m, pre, k);
    }
}

/// The state of the whole store as a value: the backing file may be
/// absent; once it is present, the trips table exists only after schema
/// creation.
pub enum StoreView {
    Absent,
    Present { trips: Option<Map<Seq<char>, RowView>> },
}

/// The store after schema creation: the file and the table exist, and
/// rows already stored are kept.
pub open spec fn with_schema(s: StoreView) -> StoreView {
    match s {
        StoreView::Absent => StoreView::Present { trips: Some(Map::empty()) },
        StoreView::Present { trips: None } => StoreView::Present { trips: Some(Map::empty()) },
        StoreView::Present { trips: Some(m) } => StoreView::Present { trips: Some(m) },
    }
}

/// The store after reset: the backing file is gone, whatever stood
/// before.
pub open spec fn after_reset(s: StoreView) -> StoreView {
    StoreView::Absent
}

/// The mathematical values of a fixture sequence.
pub open spec fn trip_views(ts: Seq<ITrip>) -> Seq<TripView> {
    Seq::new(ts.len(), |i: int| ts[i]@)
}

/// The store after a seed run: schema creation, then every record of the
/// fixture upserted in order.
pub open spec fn after_seed(s: StoreView, ts: Seq<TripView>) -> StoreView {
    match with_schema(s) {
        StoreView::Present { trips: Some(m) } => StoreView::Present { trips: Some(seeded(m, ts)) },
        _ => with_schema(s),
    }
}

/// Creating the schema twice never errors and never duplicates the table:
/// the second creation changes nothing.
pub proof fn lemma_schema_idempotent(s: StoreView)
    ensures
        with_schema(with_schema(s)) == with_schema(s),
{
}

/// Reset always succeeds — on an absent file it is a no-op — and resetting
/// twice in a row leaves what resetting once leaves.
pub proof fn lemma_reset_idempotent(s: StoreView)
    ensures
        after_reset(s) is Absent,
        after_reset(after_reset(s)) == after_reset(s),
{
}

/// The store held in memory.
pub struct Store {
    present: bool,
    has_table: bool,
    table: Table,
}

impl Store {
    /// The table's id uniqueness, kept by every operation.
    pub closed spec fn inv(&self) -> bool {
        self.table.inv() && (self.has_table ==> self.present)
    }

    /// A store whose backing file does not exist yet.
    pub fn new_absent() -> (r: Store)
        ensures
            r.inv(),
            r@ == StoreView::Absent,
    {
        Store { present: false, has_table: false, table: Table::new() }
    }

    /// Creates the backing file and the table where they are absent;
    /// tolerates an already-initialized store with no effect and no
    /// error.
    pub fn ensure_schema(&mut self)
        requires
            old(self).inv(),
        ensures
            final(self).inv(),
            final(self)@ == with_schema(old(self)@),
    {
        if !self.present || !self.has_table {
            self.present = true;
            self.has_table = true;
            self.table = Table::new();
        }
    }

    /// Upserts the first `n` records of the fixture, in order, after
    /// ensuring the schema: the state a run leaves when it stops before
    /// the rest.
    pub fn seed_prefix(&mut self, trips: &Vec<ITrip>, n: usize)
        requires
            old(self).inv(),
            n <= trips@.len(),
        ensures
            final(self).inv(),
            final(self)@ == after_seed(old(self)@, trip_views(trips@).take(n as int)),
    {
        self.ensure_schema();
        let ghost m0 = match self@ {
            StoreView::Present { trips: Some(m) } => m,
            _ => Map::empty(),
        };
        let ghost views = trip_views(trips@);
        proof {
            assert(views.take(0) =~= Seq::<TripView>::empty());
        }
        let mut i: usize = 0;
        while i < n
            invariant
                self.inv(),
                self.present && self.has_table,
                n <= trips@.len(),
                views == trip_views(trips@),
                i <= n,
                self.table@ == seeded(m0, views.take(i as int)),
            decreases n - i,
        {
            let row = to_row(&trips[i]);
            self.table.upsert(row);
            proof {
                assert(views.take(i + 1).drop_last() =~= views.take(i as int));
                assert(views.take(i + 1).last() == views[i as int]);
                assert(views[i as int] == trips@[i as int]@);
            }
            i = i + 1;
        }
        proof {
            assert(self@ == StoreView::Present { trips: Some(self.table@) });
        }
    }

    /// Seeds the whole fixture: schema creation, then one upsert per
    /// record, each record independently.
    pub fn seed(&mut self, trips: &Vec<ITrip>)
        requires
            old(self).inv(),
        ensures
            final(self).inv(),
            final(self)@ == after_seed(old(self)@, trip_views(trips@)),
    {
        let n = trips.len();
        self.seed_prefix(trips, n);
        proof {
            assert(trip_views(trips@).take(trips@.len() as int) =~= trip_views(trips@));
        }
    }

    /// Deletes the backing file; where it is already absent this is a
    /// no-op, not an error.
    pub fn reset(&mut self)
        requires
            old(self).inv(),
        ensures
            final(self).inv(),
            final(self)@ == after_reset(old(self)@),
            final(self)@ is Absent,
    {
        self.present = false;
        self.has_table = false;
        self.table = Table::new();
    }

    /// Whether the backing file exists.
    pub fn is_present(&self) -> (r: bool)
        ensures
            r == !(self@ is Absent),
    {
        self.present
    }

    /// The row stored under the given id, where the table exists and
    /// holds one.
    pub fn get_row(&self, id: &String) -> (r: Option<&Row>)
        requires
            self.inv(),
        ensures
            match r {
                Some(row) => (match self@ {
                    StoreView::Present { trips: Some(m) } => m.contains_key(id@) && row@
                        == m[id@],
                    _ => false,
                }),
                None => (match self@ {
                    StoreView::Present { trips: Some(m) } => !m.contains_key(id@),
                    _ => true,
                }),
            },
    {
        if self.present && self.has_table {
            self.table.get(id)
        } else {
            None
        }
    }

    /// How many rows the table holds: zero where it does not exist.
    pub fn row_count(&self) -> (r: usize)
        requires
            self.inv(),
        ensures
            r == (match self@ {
                StoreView::Present { trips: Some(m) } => m.dom().len(),
                _ => 0,
            }),
    {
        if self.present && self.has_table {
            self.table.count()
        } else {
            0
        }
    }
}

impl View for Store {
    type V = StoreView;

    /// The store as a value.
    closed spec fn view(&self) -> StoreView {
        if !self.present {
            StoreView::Absent
        } else if !self.has_table {
            StoreView::Present { trips: None }
        } else {
            StoreView::Present { trips: Some(self.table@) }
        }
    }
}

} // verus!
