//! A database's views: each view orders the database's rows. New rows go after a given
//! row in every view (or first); rows move within one view and leave all views together.
use vstd::prelude::*;

use crate::row::{random_uuid_string, timestamp, CreateRowParams, DatabaseError, Row, RowId};

verus! {

/// A row's place in a view.
pub struct RowOrder {
    pub id: RowId,
    pub height: i32,
}

impl RowOrder {
    pub fn new(id: RowId, height: i32) -> (r: Self)
        ensures
            r.id == id,
            r.height == height,
    {
        RowOrder { id, height }
    }

    /// A copy of this row order.
    pub fn copy(&self) -> (r: Self)
        ensures
            r == *self,
    {
        RowOrder { id: self.id.clone(), height: self.height }
    }
}

/// A view of a database: the order in which it shows the rows.
pub struct DatabaseView {
    pub id: String,
    pub database_id: String,
    pub row_orders: Vec<RowOrder>,
}

/// What a new linked view is made of.
pub struct CreateViewParams {
    pub database_id: String,
    pub view_id: String,
}

/// The row ids of a row order sequence.
pub open spec fn order_ids(v: Seq<RowOrder>) -> Seq<Seq<char>> {
    v.map_values(|r: RowOrder| r.id@)
}

/// The first position of `x` in `s` at or after `i`, or -1.
pub open spec fn find_from(s: Seq<Seq<char>>, x: Seq<char>, i: int) -> int
    decreases s.len() - i,
{
    if i < 0 || i >= s.len() {
        -1
    } else if s[i] == x {
        i
    } else {
        find_from(s, x, i + 1)
    }
}

/// Where a new row goes in a view: first when there is no previous row, right after the
/// previous row when the view has it, last otherwise.
pub open spec fn insert_pos(s: Seq<Seq<char>>, prev: Option<Seq<char>>) -> int {
    match prev {
        None => 0,
        Some(p) => if find_from(s, p, 0) < 0 {
            s.len() as int
        } else {
            find_from(s, p, 0) + 1
        },
    }
}

/// The view of an optional row id.
pub open spec fn opt_view(o: Option<RowId>) -> Option<Seq<char>> {
    match o {
        Some(p) => Some(p@),
        None => None,
    }
}

/// `s` with every occurrence of `x` taken out.
pub open spec fn remove_all(s: Seq<Seq<char>>, x: Seq<char>) -> Seq<Seq<char>>
    decreases s.len(),
{
    if s.len() == 0 {
        s
    } else {
        let p = remove_all(s.drop_last(), x);
        if s.last() == x {
            p
        } else {
            p.push(s.last())
        }
    }
}

/// The view ids and, for each view, its row ids in order.
pub open spec fn views_spec(v: Seq<DatabaseView>) -> Seq<(Seq<char>, Seq<Seq<char>>)> {
    v.map_values(|d: DatabaseView| (d.id@, order_ids(d.row_orders@)))
}

fn position_for(s: &Vec<RowOrder>, prev: &Option<RowId>) -> (r: usize)
    ensures
        r as int == insert_pos(order_ids(s@), opt_view(*prev)),
        r <= s@.len(),
{
    let n = s.len();
    let ghost ids = order_ids(s@);
    match prev {
        None => 0,
        Some(p) => {
            let mut i: usize = 0;
            while i < n
                invariant
                    n == s@.len(),
                    ids == order_ids(s@),
                    i <= n,
                    find_from(ids, p@, 0) == find_from(ids, p@, i as int),
                    opt_view(*prev) == Some(p@),
                decreases n - i,
            {
                if s[i].id == *p {
                    assert(ids[i as int] == p@);
                    assert(find_from(ids, p@, i as int) == i);
                    assert(find_from(ids, p@, 0) == i);
                    assert(opt_view(*prev) == Some(p@));
                    assert(insert_pos(ids, Some(p@)) == i + 1);
                    return i + 1;
                }
                assert(ids[i as int] != p@);
                i = i + 1;
            }
            assert(find_from(ids, p@, n as int) == -1);
            n
        },
    }
}

/// A database: its rows and its views.
pub struct Database {
    pub id: String,
    rows: Vec<Row>,
    views: Vec<DatabaseView>,
}

impl Database {
    /// The ids of the database's rows, in creation order.
    pub closed spec fn row_ids(&self) -> Seq<Seq<char>> {
        self.rows@.map_values(|r: Row| r.id@)
    }

    /// The views, each with its row ids in order.
    pub closed spec fn views(&self) -> Seq<(Seq<char>, Seq<Seq<char>>)> {
        views_spec(self.views@)
    }

    /// A database with one view and no rows.
    pub fn new(database_id: String, view_id: String) -> (r: Self)
        ensures
            r.row_ids().len() == 0,
            r.views() == seq![(view_id@, Seq::<Seq<char>>::empty())],
    {
        let mut views: Vec<DatabaseView> = Vec::new();
        views.push(DatabaseView { id: view_id, database_id: database_id.clone(), row_orders: Vec::new() });
        let r = Database { id: database_id, rows: Vec::new(), views };
        assert(order_ids(r.views@[0].row_orders@) =~= Seq::<Seq<char>>::empty());
        assert(r.views() =~= seq![(view_id@, Seq::<Seq<char>>::empty())]);
        assert(r.row_ids() =~= Seq::<Seq<char>>::empty());
        r
    }

    fn find_view(&self, view_id: &str) -> (r: Option<usize>)
        ensures
            match r {
                Some(i) => i < self.views@.len() && self.views@[i as int].id@ == view_id@ && forall|j: int|
                    0 <= j < i ==> self.views@[j].id@ != view_id@,
                None => forall|j: int| 0 <= j < self.views@.len() ==> self.views@[j].id@ != view_id@,
            },
    {
        let target = view_id.to_string();
        let mut i: usize = 0;
        while i < self.views.len()
            invariant
                i <= self.views@.len(),
                target@ == view_id@,
                forall|j: int| 0 <= j < i ==> self.views@[j].id@ != view_id@,
            decreases self.views@.len() - i,
        {
            if self.views[i].id == target {
                return Some(i);
            }
            i = i + 1;
        }
        None
    }

    /// The view with this id.
    pub fn get_view(&self, view_id: &str) -> (r: Option<&DatabaseView>)
        ensures
            match r {
                Some(v) => v.id@ == view_id@ && exists|i: int|
                    0 <= i < self.views().len() && #[trigger] self.views()[i] == (v.id@, order_ids(v.row_orders@)),
                None => forall|j: int| 0 <= j < self.views().len() ==> self.views()[j].0 != view_id@,
            },
    {
        match self.find_view(view_id) {
            Some(i) => {
                assert(self.views()[i as int] == (self.views@[i as int].id@, order_ids(self.views@[i as int].row_orders@)));
                Some(&self.views[i])
            },
            None => {
                assert forall|j: int| 0 <= j < self.views().len() implies self.views()[j].0 != view_id@ by {
                    assert(self.views()[j].0 == self.views@[j].id@);
                }
                None
            },
        }
    }

    /// Adds a view that shows every row of the database, in creation order. Fails when a
    /// view with that id exists.
    pub fn create_linked_view(&mut self, params: CreateViewParams) -> (r: Result<(), DatabaseError>)
        ensures
            final(self).row_ids() == old(self).row_ids(),
            (exists|i: int| 0 <= i < old(self).views().len() && old(self).views()[i].0 == params.view_id@)
                ==> r == Err::<(), DatabaseError>(DatabaseError::ViewAlreadyExists) && final(self).views()
                == old(self).views(),
            (forall|i: int| 0 <= i < old(self).views().len() ==> old(self).views()[i].0 != params.view_id@)
                ==> r is Ok && final(self).views() == old(self).views().push(
                (params.view_id@, old(self).row_ids()),
            ),
    {
        if let Some(i) = self.find_view(params.view_id.as_str()) {
            assert(self.views()[i as int].0 == params.view_id@);
            return Err(DatabaseError::ViewAlreadyExists);
        }
        assert forall|i: int| 0 <= i < old(self).views().len() implies old(self).views()[i].0 != params.view_id@ by {
            assert(old(self).views()[i].0 == old(self).views@[i].id@);
        }
        let mut orders: Vec<RowOrder> = Vec::new();
        let mut i: usize = 0;
        while i < self.rows.len()
            invariant
                i <= self.rows@.len(),
                order_ids(orders@) == self.row_ids().take(i as int),
            decreases self.rows@.len() - i,
        {
            let ghost ob = orders@;
            orders.push(RowOrder { id: self.rows[i].id.clone(), height: self.rows[i].height });
            assert(order_ids(orders@) =~= order_ids(ob).push(self.rows@[i as int].id@));
            assert(self.row_ids().take(i + 1) =~= self.row_ids().take(i as int).push(self.row_ids()[i as int]));
            i = i + 1;
        }
        assert(self.row_ids().take(i as int) =~= self.row_ids());
        self.views.push(DatabaseView { id: params.view_id, database_id: params.database_id, row_orders: orders });
        assert(self.views() =~= old(self).views().push((params.view_id@, old(self).row_ids())));
        Ok(())
    }

    /// Inserts `order` into every view, where `insert_pos` says.
    fn insert_in_views(&mut self, order: &RowOrder, prev: &Option<RowId>)
        ensures
            final(self).rows == old(self).rows,
            final(self).id == old(self).id,
            final(self).views@.len() == old(self).views@.len(),
            forall|i: int|
                0 <= i < old(self).views().len() ==> #[trigger] final(self).views()[i] == (
                old(self).views()[i].0,
                old(self).views()[i].1.insert(
                    insert_pos(old(self).views()[i].1, opt_view(*prev)),
                    order.id@,
                ),
            ),
    {
        let ghost p = opt_view(*prev);
        let mut old_views: Vec<DatabaseView> = Vec::new();
        core::mem::swap(&mut self.views, &mut old_views);
        let ghost ov = old_views@;
        let n = old_views.len();
        let mut done: Vec<DatabaseView> = Vec::new();
        let mut i: usize = 0;
        while i < n
            invariant
                n == ov.len(),
                i <= ov.len(),
                old_views@ == ov.subrange(i as int, ov.len() as int),
                ov == old(self).views@,
                done@.len() == i,
                forall|j: int|
                    0 <= j < i ==> #[trigger] views_spec(done@)[j] == (
                        views_spec(ov)[j].0,
                        views_spec(ov)[j].1.insert(insert_pos(views_spec(ov)[j].1, p), order.id@),
                    ),
                self.rows == old(self).rows,
                self.id == old(self).id,
                p == opt_view(*prev),
            decreases ov.len() - i,
        {
            let mut v = old_views.remove(0);
            assert(v == ov[i as int]);
            let ghost v0 = v;
            let pos = position_for(&v.row_orders, prev);
            let ghost before = v.row_orders@;
            v.row_orders.insert(pos, order.copy());
            assert(order_ids(v.row_orders@) =~= order_ids(before).insert(pos as int, order.id@));
            assert(views_spec(ov)[i as int] == (v0.id@, order_ids(v0.row_orders@)));
            let ghost dv = done@;
            done.push(v);
            assert(views_spec(done@)[i as int] == (v.id@, order_ids(v.row_orders@)));
            assert forall|j: int| 0 <= j < i + 1 implies #[trigger] views_spec(done@)[j] == (
                views_spec(ov)[j].0,
                views_spec(ov)[j].1.insert(insert_pos(views_spec(ov)[j].1, p), order.id@),
            ) by {
                if j < i {
                    assert(views_spec(done@)[j] == views_spec(dv)[j]);
                }
            }
            i = i + 1;
            assert(old_views@ =~= ov.subrange(i as int, ov.len() as int));
        }
        self.views = done;
    }

    /// Creates the row that `params` describe and places it in every view: after
    /// `prev_row_id` where a view has that row, first when there is none, last otherwise.
    /// `None` when the parameters do not validate.
    pub fn create_row(&mut self, params: CreateRowParams) -> (r: Option<RowOrder>)
        ensures
            params.id@.len() == 0 || (params.prev_row_id is Some && params.prev_row_id->Some_0@.len()
                == 0) ==> r is None && final(self).views() == old(self).views() && final(self).row_ids()
                == old(self).row_ids(),
            r is Some ==> r->Some_0.id@ == params.id@ && final(self).row_ids() == old(self).row_ids().push(
                params.id@,
            ) && final(self).views().len() == old(self).views().len() && forall|i: int|
                0 <= i < old(self).views().len() ==> #[trigger] final(self).views()[i] == (
                    old(self).views()[i].0,
                    old(self).views()[i].1.insert(
                        insert_pos(old(self).views()[i].1, opt_view(params.prev_row_id)),
                        params.id@,
                    ),
                ),
            params.id@.len() > 0 && (params.prev_row_id is None || params.prev_row_id->Some_0@.len() > 0)
                ==> r is Some,
    {
        let ghost given = params;
        let valid = match params.validate() {
            Ok(p) => p,
            Err(_) => return None,
        };
        let prev = match &valid.prev_row_id {
            Some(p) => Some(p.clone()),
            None => None,
        };
        assert(opt_view(prev) == opt_view(given.prev_row_id));
        let order = RowOrder { id: valid.id.clone(), height: valid.height };
        let row = Row::from_params(valid);
        self.insert_in_views(&order, &prev);
        let ghost vafter = self.views();
        assert(forall|i: int| 0 <= i < old(self).views().len() ==> #[trigger] vafter[i] == (
            old(self).views()[i].0,
            old(self).views()[i].1.insert(insert_pos(old(self).views()[i].1, opt_view(prev)), order.id@),
        ));
        self.rows.push(row);
        assert(self.views() == vafter);
        assert(self.row_ids() =~= old(self).row_ids().push(order.id@));
        assert(self.views().len() == old(self).views().len());
        assert(order.id@ == given.id@);
        assert forall|i: int| 0 <= i < old(self).views().len() implies #[trigger] self.views()[i] == (
            old(self).views()[i].0,
            old(self).views()[i].1.insert(insert_pos(old(self).views()[i].1, opt_view(given.prev_row_id)), given.id@),
        ) by {
            assert(self.views()[i] == (
                old(self).views()[i].0,
                old(self).views()[i].1.insert(insert_pos(old(self).views()[i].1, opt_view(prev)), order.id@),
            ));
        }
        Some(order)
    }

    /// Like `create_row`; also returns the row's position in view `view_id`. `None`, and
    /// nothing created, when that view does not exist or the parameters do not validate.
    pub fn create_row_in_view(&mut self, view_id: &str, params: CreateRowParams) -> (r: Option<(usize, RowOrder)>)
        ensures
            r is Some ==> exists|i: int|
                0 <= i < final(self).views().len() && final(self).views()[i].0 == view_id@
                    && final(self).views()[i].1[r->Some_0.0 as int] == params.id@
                    && r->Some_0.0 == insert_pos(old(self).views()[i].1, opt_view(params.prev_row_id)),
            r is Some ==> r->Some_0.1.id@ == params.id@ && final(self).row_ids() == old(self).row_ids().push(params.id@),
            r is None ==> final(self).views() == old(self).views() && final(self).row_ids() == old(self).row_ids(),
            (exists|i: int| 0 <= i < old(self).views().len() && old(self).views()[i].0 == view_id@)
                && params.id@.len() > 0 && (params.prev_row_id is None || params.prev_row_id->Some_0@.len() > 0)
                ==> r is Some,
    {
        let vi = match self.find_view(view_id) {
            Some(vi) => vi,
            None => {
                assert forall|i: int| 0 <= i < old(self).views().len() implies old(self).views()[i].0 != view_id@ by {
                    assert(old(self).views()[i].0 == old(self).views@[i].id@);
                }
                return None;
            },
        };
        let pos = position_for(&self.views[vi].row_orders, &params.prev_row_id);
        let ghost ids = old(self).views()[vi as int].1;
        assert(ids == order_ids(self.views@[vi as int].row_orders@));
        match self.create_row(params) {
            None => None,
            Some(order) => {
                assert(self.views()[vi as int].1 == ids.insert(pos as int, order.id@));
                Some((pos, order))
            },
        }
    }

    /// The rows that view `view_id` shows, in its order; empty for an unknown view.
    pub fn get_rows_for_view(&self, view_id: &str) -> (r: Vec<Row>)
        ensures
            forall|j: int| 0 <= j < r@.len() ==> self.row_ids().contains(#[trigger] r@[j].id@),
            forall|i: int|
                0 <= i < self.views().len() && self.views()[i].0 == view_id@ && (forall|k: int|
                    0 <= k < self.views()[i].1.len() ==> self.row_ids().contains(
                        #[trigger] self.views()[i].1[k],
                    )) && (forall|a: int|
                    0 <= a < i ==> self.views()[a].0 != view_id@) ==> r@.map_values(|x: Row| x.id@)
                    == self.views()[i].1,
    {
        let vi = match self.find_view(view_id) {
            Some(vi) => vi,
            None => {
                assert forall|i: int| 0 <= i < self.views().len() implies self.views()[i].0 != view_id@ by {
                    assert(self.views()[i].0 == self.views@[i].id@);
                }
                return Vec::new();
            },
        };
        let orders = &self.views[vi].row_orders;
        let ghost ids = order_ids(orders@);
        assert(self.views()[vi as int] == (view_id@, ids));
        let mut out: Vec<Row> = Vec::new();
        let mut all_found = true;
        let mut k: usize = 0;
        while k < orders.len()
            invariant
                k <= orders@.len(),
                ids == order_ids(orders@),
                forall|j: int| 0 <= j < out@.len() ==> self.row_ids().contains(#[trigger] out@[j].id@),
                all_found ==> out@.map_values(|x: Row| x.id@) == ids.take(k as int),
                !all_found ==> exists|t: int| 0 <= t < k && !self.row_ids().contains(#[trigger] ids[t]),
            decreases orders@.len() - k,
        {
            let target = &orders[k].id;
            let mut j: usize = 0;
            let mut found = false;
            while j < self.rows.len() && !found
                invariant
                    j <= self.rows@.len(),
                    found ==> j < self.rows@.len() && self.row_ids()[j as int] == target@,
                    !found ==> forall|t: int| 0 <= t < j ==> self.row_ids()[t] != target@,
                decreases (self.rows@.len() - j) * 2 + if found { 0int } else { 1int },
            {
                if self.rows[j].id == *target {
                    found = true;
                } else {
                    j = j + 1;
                }
            }
            if found {
                let row = self.rows[j].copy();
                assert(self.row_ids()[j as int] == target@);
                let ghost before = out@;
                out.push(row);
                if all_found {
                    assert(out@.map_values(|x: Row| x.id@) =~= before.map_values(|x: Row| x.id@).push(target@));
                    assert(ids.take(k + 1) =~= ids.take(k as int).push(ids[k as int]));
                }
                assert forall|t: int| 0 <= t < out@.len() implies self.row_ids().contains(#[trigger] out@[t].id@) by {
                    if t < before.len() {
                        assert(out@[t] == before[t]);
                    }
                }
            } else {
                assert(ids[k as int] == target@);
                assert(!self.row_ids().contains(ids[k as int]));
                all_found = false;
            }
            k = k + 1;
        }
        proof {
            if all_found {
                assert(ids.take(k as int) =~= ids);
            }
            assert forall|i: int|
                0 <= i < self.views().len() && self.views()[i].0 == view_id@ && (forall|kk: int|
                    0 <= kk < self.views()[i].1.len() ==> self.row_ids().contains(
                        #[trigger] self.views()[i].1[kk],
                    )) && (forall|a: int|
                    0 <= a < i ==> self.views()[a].0 != view_id@) implies out@.map_values(|x: Row| x.id@)
                    == self.views()[i].1 by {
                assert(self.views()[i].0 == self.views@[i].id@);
                if i < vi {
                } else if i > vi {
                    assert(self.views()[vi as int].0 == view_id@);
                }
                assert(i == vi);
                if !all_found {
                    let t = choose|t: int| 0 <= t < k && !self.row_ids().contains(#[trigger] ids[t]);
                    assert(self.row_ids().contains(self.views()[i].1[t]));
                }
            }
        }
        out
    }

    /// Moves the row at position `from` of view `view_id` to position `to`. Does nothing
    /// when the view does not exist or a position is out of bounds.
    pub fn move_row_order(&mut self, view_id: &str, from: usize, to: usize)
        ensures
            final(self).row_ids() == old(self).row_ids(),
            final(self).views().len() == old(self).views().len(),
            forall|i: int|
                0 <= i < old(self).views().len() ==> #[trigger] final(self).views()[i].0 == old(self).views()[i].0,
            forall|i: int|
                0 <= i < old(self).views().len() ==> {
                    let ids = old(self).views()[i].1;
                    #[trigger] final(self).views()[i].1 == if ids.len() > from && ids.len() > to
                        && old(self).views()[i].0 == view_id@ && (forall|a: int|
                        0 <= a < i ==> old(self).views()[a].0 != view_id@) {
                        ids.remove(from as int).insert(to as int, ids[from as int])
                    } else {
                        ids
                    }
                },
    {
        let vi = match self.find_view(view_id) {
            Some(vi) => vi,
            None => {
                assert forall|i: int| 0 <= i < self.views().len() implies self.views()[i].0 != view_id@ by {
                    assert(self.views()[i].0 == self.views@[i].id@);
                }
                return ;
            },
        };
        assert(self.views()[vi as int].0 == view_id@);
        assert forall|i: int|
            0 <= i < self.views().len() && self.views()[i].0 == view_id@ && (forall|a: int|
                0 <= a < i ==> self.views()[a].0 != view_id@) implies i == vi by {
            assert(self.views()[i].0 == self.views@[i].id@);
            if i < vi {
            } else if i > vi {
                assert(self.views()[vi as int].0 == view_id@);
            }
        }
        if from >= self.views[vi].row_orders.len() || to >= self.views[vi].row_orders.len() {
            return ;
        }
        let mut old_views: Vec<DatabaseView> = Vec::new();
        core::mem::swap(&mut self.views, &mut old_views);
        let ghost ov = old_views@;
        let mut v = old_views.remove(vi);
        let ghost before = v.row_orders@;
        let moved = v.row_orders.remove(from);
        v.row_orders.insert(to, moved);
        assert(order_ids(v.row_orders@) =~= order_ids(before).remove(from as int).insert(to as int, order_ids(before)[from as int]));
        old_views.insert(vi, v);
        self.views = old_views;
        assert forall|i: int| 0 <= i < ov.len() && i != vi implies self.views@[i] == ov[i] by {}
    }

    /// Removes the row from the database and from every view.
    pub fn remove_row(&mut self, row_id: &str)
        ensures
            final(self).views().len() == old(self).views().len(),
            forall|i: int|
                0 <= i < old(self).views().len() ==> #[trigger] final(self).views()[i] == (
                    old(self).views()[i].0,
                    remove_all(old(self).views()[i].1, row_id@),
                ),
            final(self).row_ids() == remove_all(old(self).row_ids(), row_id@),
    {
        let target = row_id.to_string();
        let mut old_rows: Vec<Row> = Vec::new();
        core::mem::swap(&mut self.rows, &mut old_rows);
        let ghost orw = old_rows@;
        let ghost oids = orw.map_values(|r: Row| r.id@);
        let n = old_rows.len();
        let mut kept: Vec<Row> = Vec::new();
        let mut i: usize = 0;
        while i < n
            invariant
                n == orw.len(),
                i <= orw.len(),
                old_rows@ == orw.subrange(i as int, orw.len() as int),
                oids == orw.map_values(|r: Row| r.id@),
                kept@.map_values(|r: Row| r.id@) == remove_all(oids.take(i as int), row_id@),
                target@ == row_id@,
            decreases orw.len() - i,
        {
            let r = old_rows.remove(0);
            assert(r == orw[i as int]);
            assert(oids.take(i + 1).drop_last() =~= oids.take(i as int));
            let ghost kb = kept@;
            if r.id != target {
                kept.push(r);
                assert(kept@.map_values(|r: Row| r.id@) =~= kb.map_values(|r: Row| r.id@).push(oids[i as int]));
            }
            i = i + 1;
            assert(old_rows@ =~= orw.subrange(i as int, orw.len() as int));
        }
        assert(oids.take(i as int) =~= oids);
        self.rows = kept;
        let mut old_views: Vec<DatabaseView> = Vec::new();
        core::mem::swap(&mut self.views, &mut old_views);
        let ghost ov = old_views@;
        let n = old_views.len();
        let mut done: Vec<DatabaseView> = Vec::new();
        let mut i: usize = 0;
        while i < n
            invariant
                n == ov.len(),
                i <= ov.len(),
                old_views@ == ov.subrange(i as int, ov.len() as int),
                ov == old(self).views@,
                done@.len() == i,
                target@ == row_id@,
                forall|j: int|
                    0 <= j < i ==> #[trigger] views_spec(done@)[j] == (
                        views_spec(ov)[j].0,
                        remove_all(views_spec(ov)[j].1, row_id@),
                    ),
                self.rows@.map_values(|r: Row| r.id@) == remove_all(oids, row_id@),
            decreases ov.len() - i,
        {
            let v = old_views.remove(0);
            assert(v == ov[i as int]);
            let ghost vids = order_ids(v.row_orders@);
            let mut orders: Vec<RowOrder> = Vec::new();
            let mut k: usize = 0;
            while k < v.row_orders.len()
                invariant
                    k <= v.row_orders@.len(),
                    vids == order_ids(v.row_orders@),
                    order_ids(orders@) == remove_all(vids.take(k as int), row_id@),
                    target@ == row_id@,
                decreases v.row_orders@.len() - k,
            {
                assert(vids.take(k + 1).drop_last() =~= vids.take(k as int));
                if v.row_orders[k].id != target {
                    let ghost ob = orders@;
                    orders.push(v.row_orders[k].copy());
                    assert(order_ids(orders@) =~= order_ids(ob).push(vids[k as int]));
                }
                k = k + 1;
            }
            assert(vids.take(k as int) =~= vids);
            let ghost dv = done@;
            done.push(DatabaseView { id: v.id, database_id: v.database_id, row_orders: orders });
            assert forall|j: int| 0 <= j < i + 1 implies #[trigger] views_spec(done@)[j] == (
                views_spec(ov)[j].0,
                remove_all(views_spec(ov)[j].1, row_id@),
            ) by {
                if j < i {
                    assert(views_spec(done@)[j] == views_spec(dv)[j]);
                }
            }
            i = i + 1;
            assert(old_views@ =~= ov.subrange(i as int, ov.len() as int));
        }
        self.views = done;
    }

    /// Parameters for a copy of the row `row_id` under a fresh id, placed right after it.
    pub fn duplicate_row(&self, row_id: &str) -> (r: Option<CreateRowParams>)
        ensures
            r is Some <==> self.row_ids().contains(row_id@),
            r is Some ==> r->Some_0.prev_row_id is Some && r->Some_0.prev_row_id->Some_0@ == row_id@
                && r->Some_0.id@.len() == 36,
    {
        let target = row_id.to_string();
        let mut j: usize = 0;
        while j < self.rows.len()
            invariant
                j <= self.rows@.len(),
                target@ == row_id@,
                forall|t: int| 0 <= t < j ==> self.row_ids()[t] != row_id@,
            decreases self.rows@.len() - j,
        {
            if self.rows[j].id == target {
                let row = &self.rows[j];
                assert(self.row_ids()[j as int] == row_id@);
                return Some(CreateRowParams {
                    id: random_uuid_string(),
                    cells: row.cells.clone(),
                    height: row.height,
                    visibility: row.visibility,
                    prev_row_id: Some(target),
                    timestamp: timestamp(),
                });
            }
            j = j + 1;
        }
        None
    }
}

/// A row's place in a view and its creation time, from the values stored in its data
/// map: `None` without an id; height 60 and creation time 0 when not stored.
pub fn row_order_from_fields(id: Option<String>, height: Option<i64>, created_at: Option<i64>) -> (r:
    Option<(RowOrder, i64)>)
    ensures
        id is None <==> r is None,
        r is Some ==> r->Some_0.0.id == id->Some_0 && r->Some_0.0.height == match height {
            Some(h) => h as i32,
            None => 60i32,
        } && r->Some_0.1 == match created_at {
            Some(t) => t,
            None => 0,
        },
{
    let id = match id {
        Some(id) => id,
        None => return None,
    };
    let height = match height {
        Some(h) => h as i32,
        None => 60,
    };
    let created_at = match created_at {
        Some(t) => t,
        None => 0,
    };
    Some((RowOrder { id, height }, created_at))
}

} // verus!
