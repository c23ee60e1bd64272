use vstd::prelude::*;

use crate::gesture::{copy_text, text_view, Gesture, GestureView, NewGesture, NewGestureView};

verus! {

/// What an `INSERT OR IGNORE` into the gestures table did.
#[derive(Debug, Clone, Copy, PartialEq, Eq)]
pub enum InsertOutcome {
    /// A new row was stored under this id.
    Inserted(i64),
    /// A row with the same name already exists; nothing changed (`OR IGNORE`).
    Ignored,
    /// The largest possible id has already been used; `AUTOINCREMENT` refuses new rows.
    Full,
}

/// The gestures table as a mathematical value: its rows in insertion order and the
/// largest id that `AUTOINCREMENT` has handed out (0 while none has).
pub struct TableView {
    pub rows: Seq<GestureView>,
    pub last_id: int,
}

/// The first row, from the front, whose id is `id`.
pub open spec fn find_id(rows: Seq<GestureView>, id: int) -> Option<GestureView>
    decreases rows.len(),
{
    if rows.len() == 0 {
        None
    } else if rows[0].id == id {
        Some(rows[0])
    } else {
        find_id(rows.drop_first(), id)
    }
}

/// `rows` with the description of every row whose id is `id` replaced.
pub open spec fn set_description(rows: Seq<GestureView>, id: int, description: Option<Seq<char>>) -> Seq<
    GestureView,
> {
    rows.map_values(
        |r: GestureView|
            if r.id == id {
                GestureView { description, ..r }
            } else {
                r
            },
    )
}

impl TableView {
    /// The empty table.
    pub open spec fn empty() -> TableView {
        TableView { rows: Seq::empty(), last_id: 0 }
    }

    pub open spec fn has_name(self, name: Seq<char>) -> bool {
        exists|i: int| 0 <= i < self.rows.len() && #[trigger] self.rows[i].name == name
    }

    pub open spec fn has_id(self, id: int) -> bool {
        exists|i: int| 0 <= i < self.rows.len() && #[trigger] self.rows[i].id == id
    }

    /// The schema's constraints: `id INTEGER PRIMARY KEY AUTOINCREMENT` (ids distinct,
    /// positive, never above the largest handed out) and `name TEXT NOT NULL UNIQUE`.
    pub open spec fn well_formed(self) -> bool {
        &&& 0 <= self.last_id <= i64::MAX
        &&& forall|i: int| 0 <= i < self.rows.len() ==> 1 <= #[trigger] self.rows[i].id <= self.last_id
        &&& forall|i: int, j: int|
            0 <= i < self.rows.len() && 0 <= j < self.rows.len() && i != j ==> #[trigger] self.rows[i].id
                != #[trigger] self.rows[j].id
        &&& forall|i: int, j: int|
            0 <= i < self.rows.len() && 0 <= j < self.rows.len() && i != j
                ==> #[trigger] self.rows[i].name != #[trigger] self.rows[j].name
    }

    /// What `INSERT OR IGNORE INTO gestures ...` with these values reports.
    pub open spec fn insert_outcome(self, g: NewGestureView) -> InsertOutcome {
        if self.has_name(g.name) {
            InsertOutcome::Ignored
        } else if self.last_id >= i64::MAX {
            InsertOutcome::Full
        } else {
            InsertOutcome::Inserted((self.last_id + 1) as i64)
        }
    }

    /// The table after `INSERT OR IGNORE INTO gestures ...` with these values.
    pub open spec fn after_insert(self, g: NewGestureView) -> TableView {
        match self.insert_outcome(g) {
            InsertOutcome::Inserted(id) => TableView {
                rows: self.rows.push(g.with_id(id as int)),
                last_id: id as int,
            },
            _ => self,
        }
    }

    /// The table after inserting each of `gs`, in order, with `INSERT OR IGNORE`.
    pub open spec fn after_inserts(self, gs: Seq<NewGestureView>) -> TableView
        decreases gs.len(),
    {
        if gs.len() == 0 {
            self
        } else {
            self.after_inserts(gs.drop_last()).after_insert(gs.last())
        }
    }

    /// The table after `UPDATE gestures SET description = ? WHERE id = ?`.
    pub open spec fn after_update(self, id: int, description: Option<Seq<char>>) -> TableView {
        TableView { rows: set_description(self.rows, id, description), last_id: self.last_id }
    }

    /// What `SELECT ... FROM gestures WHERE id = ?` finds.
    pub open spec fn row_with_id(self, id: int) -> Option<GestureView> {
        find_id(self.rows, id)
    }
}

/// An in-memory gestures table that keeps the schema's constraints.
pub struct GestureTable {
    rows: Vec<Gesture>,
    last_id: i64,
}

impl View for GestureTable {
    type V = TableView;

    closed spec fn view(&self) -> TableView {
        TableView { rows: self.rows@.map_values(|g: Gesture| g@), last_id: self.last_id as int }
    }
}

impl GestureTable {
    #[verifier::type_invariant]
    spec fn keeps_schema(self) -> bool {
        self@.well_formed()
    }

    /// An empty table.
    pub fn new() -> (t: GestureTable)
        ensures
            t@ == TableView::empty(),
    {
        let t = GestureTable { rows: Vec::new(), last_id: 0 };
        assert(t@.rows =~= Seq::<GestureView>::empty());
        t
    }

    /// The rows in insertion order.
    pub fn rows(&self) -> (r: &Vec<Gesture>)
        ensures
            r@.map_values(|g: Gesture| g@) == self@.rows,
    {
        &self.rows
    }

    /// The number of rows.
    pub fn len(&self) -> (n: usize)
        ensures
            n == self@.rows.len(),
    {
        self.rows.len()
    }

    /// Whether a row is named `name`.
    pub fn contains_name(&self, name: &String) -> (b: bool)
        ensures
            b == self@.has_name(name@),
    {
        let n = self.rows.len();
        let mut i: usize = 0;
        while i < n
            invariant
                n == self.rows@.len(),
                i <= n,
                forall|k: int| 0 <= k < i ==> self@.rows[k].name != name@,
            decreases n - i,
        {
            if self.rows[i].name == *name {
                assert(self@.rows[i as int].name == name@);
                return true;
            }
            i = i + 1;
        }
        false
    }

    /// `INSERT OR IGNORE` of one row: stored under the next id unless its name is taken
    /// (then nothing changes) or the id space is used up.
    pub fn insert_or_ignore(&mut self, g: NewGesture) -> (r: InsertOutcome)
        ensures
            r == old(self)@.insert_outcome(g@),
            final(self)@ == old(self)@.after_insert(g@),
            r matches InsertOutcome::Inserted(id) ==> final(self)@.rows == old(self)@.rows.push(
                GestureView {
                    id: id as int,
                    name: g@.name,
                    video_filename: g@.video_filename,
                    description: g@.description,
                    category: g@.category,
                },
            ),
    {
        proof {
            use_type_invariant(&*self);
        }
        if self.contains_name(&g.name) {
            return InsertOutcome::Ignored;
        }
        if self.last_id == i64::MAX {
            return InsertOutcome::Full;
        }
        let id = self.last_id + 1;
        let ghost before = self@;
        let row = Gesture {
            id,
            name: g.name,
            video_filename: g.video_filename,
            description: g.description,
            category: g.category,
        };
        proof {
            lemma_insert_keeps_schema(before, g@);
        }
        let mut rows: Vec<Gesture> = Vec::new();
        std::mem::swap(&mut rows, &mut self.rows);
        rows.push(row);
        assert(rows@.map_values(|g: Gesture| g@) =~= before.rows.push(g@.with_id(id as int)));
        self.last_id = id;
        self.rows = rows;
        InsertOutcome::Inserted(id)
    }

    /// The position of the row whose id is `id`, if any.
    fn position_of_id(&self, id: i64) -> (r: Option<usize>)
        ensures
            match r {
                Some(i) => i < self@.rows.len() && self@.rows[i as int].id == id,
                None => !self@.has_id(id as int),
            },
    {
        let n = self.rows.len();
        let mut i: usize = 0;
        while i < n
            invariant
                n == self.rows@.len(),
                i <= n,
                forall|k: int| 0 <= k < i ==> self@.rows[k].id != id,
            decreases n - i,
        {
            if self.rows[i].id == id {
                return Some(i);
            }
            i = i + 1;
        }
        None
    }

    /// The row whose id is `id`, if any.
    pub fn find_by_id(&self, id: i64) -> (r: Option<Gesture>)
        ensures
            match r {
                Some(g) => self@.row_with_id(id as int) == Some(g@),
                None => self@.row_with_id(id as int) is None,
            },
    {
        let n = self.rows.len();
        let mut i: usize = 0;
        assert(self@.rows.skip(0) =~= self@.rows);
        while i < n
            invariant
                n == self.rows@.len(),
                i <= n,
                find_id(self@.rows, id as int) == find_id(self@.rows.skip(i as int), id as int),
            decreases n - i,
        {
            assert(self@.rows.skip(i as int).drop_first() =~= self@.rows.skip(i + 1));
            if self.rows[i].id == id {
                return Some(self.rows[i].duplicate());
            }
            i = i + 1;
        }
        None
    }

    /// `UPDATE gestures SET description = ? WHERE id = ?`; tells whether a row matched.
    pub fn set_description(&mut self, id: i64, description: Option<String>) -> (found: bool)
        ensures
            found == old(self)@.has_id(id as int),
            final(self)@ == old(self)@.after_update(id as int, text_view(description)),
    {
        proof {
            use_type_invariant(&*self);
        }
        let ghost before = self@;
        let i = match self.position_of_id(id) {
            Some(i) => i,
            None => {
                assert(self@.rows =~= set_description(before.rows, id as int, text_view(description)));
                return false;
            },
        };
        let n = self.rows.len();
        let old_row = &self.rows[i];
        let row = Gesture {
            id,
            name: old_row.name.clone(),
            video_filename: old_row.video_filename.clone(),
            description,
            category: copy_text(&old_row.category),
        };
        proof {
            lemma_update_keeps_schema(before, id as int, row@.description);
            assert(before.rows[i as int].id == id);
        }
        let mut rows: Vec<Gesture> = Vec::new();
        std::mem::swap(&mut rows, &mut self.rows);
        rows.set(i, row);
        let ghost after = rows@.map_values(|g: Gesture| g@);
        assert(after =~= set_description(before.rows, id as int, text_view(description))) by {
            assert forall|k: int| 0 <= k < n implies #[trigger] after[k] == set_description(
                before.rows,
                id as int,
                text_view(description),
            )[k] by {
                if k != i {
                    assert(before.rows[k].id != id);
                }
            }
        }
        self.rows = rows;
        true
    }
}

/// Every `INSERT OR IGNORE` keeps the schema's constraints.
pub proof fn lemma_insert_keeps_schema(t: TableView, g: NewGestureView)
    requires
        t.well_formed(),
    ensures
        t.after_insert(g).well_formed(),
{
    let u = t.after_insert(g);
    if let InsertOutcome::Inserted(id) = t.insert_outcome(g) {
        assert forall|i: int, j: int|
            0 <= i < u.rows.len() && 0 <= j < u.rows.len() && i != j implies #[trigger] u.rows[i].name
            != #[trigger] u.rows[j].name by {
            if i == t.rows.len() as int {
                assert(t.rows[j].name == u.rows[j].name);
            } else if j == t.rows.len() as int {
                assert(t.rows[i].name == u.rows[i].name);
            }
        }
    }
}

/// Every description update keeps the schema's constraints.
pub proof fn lemma_update_keeps_schema(t: TableView, id: int, description: Option<Seq<char>>)
    requires
        t.well_formed(),
    ensures
        t.after_update(id, description).well_formed(),
{
    let u = t.after_update(id, description);
    assert forall|i: int| 0 <= i < u.rows.len() implies #[trigger] u.rows[i].id == t.rows[i].id
        && u.rows[i].name == t.rows[i].name by {}
}


// ---------------------------------------------------------------------------
// Lookups by id

/// Looking up an id that some row carries finds a row.
pub proof fn lemma_find_id_some(rows: Seq<GestureView>, id: int)
    requires
        exists|i: int| 0 <= i < rows.len() && #[trigger] rows[i].id == id,
    ensures
        find_id(rows, id) matches Some(r) && r.id == id,
    decreases rows.len(),
{
    if rows[0].id != id {
        let i = choose|i: int| 0 <= i < rows.len() && #[trigger] rows[i].id == id;
        assert(rows.drop_first()[i - 1].id == id);
        lemma_find_id_some(rows.drop_first(), id);
    }
}

/// Looking up an id that no row carries finds nothing.
pub proof fn lemma_find_id_none(rows: Seq<GestureView>, id: int)
    requires
        forall|i: int| 0 <= i < rows.len() ==> #[trigger] rows[i].id != id,
    ensures
        find_id(rows, id) is None,
    decreases rows.len(),
{
    if rows.len() > 0 {
        assert forall|i: int| 0 <= i < rows.drop_first().len() implies #[trigger] rows.drop_first()[i].id
            != id by {
            assert(rows[i + 1].id != id);
        }
        lemma_find_id_none(rows.drop_first(), id);
    }
}

/// A row appended at the end is found only where no earlier row has its id.
pub proof fn lemma_find_id_push(rows: Seq<GestureView>, r: GestureView, id: int)
    ensures
        find_id(rows.push(r), id) == (match find_id(rows, id) {
            Some(v) => Some(v),
            None => if r.id == id {
                Some(r)
            } else {
                None
            },
        }),
    decreases rows.len(),
{
    if rows.len() > 0 {
        assert(rows.push(r).drop_first() =~= rows.drop_first().push(r));
        assert(rows.push(r)[0] == rows[0]);
        lemma_find_id_push(rows.drop_first(), r, id);
    } else {
        assert(rows.push(r)[0] == r);
        assert(find_id(rows.push(r).drop_first(), id) is None);
    }
}

/// A lookup only ever finds a row with the id it looked for.
pub proof fn lemma_find_id_matches(rows: Seq<GestureView>, id: int)
    ensures
        find_id(rows, id) matches Some(r) ==> r.id == id,
    decreases rows.len(),
{
    if rows.len() > 0 {
        lemma_find_id_matches(rows.drop_first(), id);
    }
}

/// A description update changes what a lookup finds only in the updated row's description.
pub proof fn lemma_find_id_after_set(
    rows: Seq<GestureView>,
    id: int,
    description: Option<Seq<char>>,
    x: int,
)
    ensures
        find_id(set_description(rows, id, description), x) == (match find_id(rows, x) {
            Some(r) => Some(
                if r.id == id {
                    GestureView { description, ..r }
                } else {
                    r
                },
            ),
            None => None,
        }),
    decreases rows.len(),
{
    if rows.len() > 0 {
        assert(set_description(rows, id, description).drop_first() =~= set_description(
            rows.drop_first(),
            id,
            description,
        ));
        lemma_find_id_after_set(rows.drop_first(), id, description, x);
    }
}

// ---------------------------------------------------------------------------
// Laws of the table

/// `INSERT OR IGNORE` of a name that is already stored changes nothing.
pub proof fn lemma_insert_known_name_is_ignored(t: TableView, g: NewGestureView)
    requires
        t.has_name(g.name),
    ensures
        t.insert_outcome(g) == InsertOutcome::Ignored,
        t.after_insert(g) == t,
{
}

/// Inserting never changes or drops a stored row: the old rows stay a prefix.
pub proof fn lemma_insert_keeps_rows(t: TableView, g: NewGestureView)
    ensures
        t.rows.len() <= t.after_insert(g).rows.len() <= t.rows.len() + 1,
        forall|i: int| 0 <= i < t.rows.len() ==> #[trigger] t.after_insert(g).rows[i] == t.rows[i],
        t.last_id <= t.after_insert(g).last_id,
{
}

/// A stored insert can be read back: its new id, larger than every id stored before,
/// finds exactly the inserted values, and its name is then taken.
pub proof fn lemma_insert_then_find(t: TableView, g: NewGestureView)
    requires
        t.well_formed(),
        t.insert_outcome(g) is Inserted,
    ensures
        t.after_insert(g).row_with_id(t.last_id + 1) == Some(g.with_id(t.last_id + 1)),
        t.after_insert(g).row_with_id(t.last_id + 1) matches Some(r) && r.id == t.last_id + 1
            && r.name == g.name && r.video_filename == g.video_filename && r.description
            == g.description && r.category == g.category,
        t.after_insert(g).has_name(g.name),
        t.after_insert(g).last_id == t.last_id + 1,
        forall|i: int| 0 <= i < t.rows.len() ==> #[trigger] t.rows[i].id < t.last_id + 1,
{
    let id = t.last_id + 1;
    lemma_find_id_none(t.rows, id);
    lemma_find_id_push(t.rows, g.with_id(id), id);
    let u = t.after_insert(g);
    assert(u.rows[t.rows.len() as int].name == g.name);
}

/// A description update of a stored id is read back by a lookup of that id; the
/// row's other columns stay as they were.
pub proof fn lemma_update_then_find(t: TableView, id: int, description: Option<Seq<char>>)
    requires
        t.has_id(id),
    ensures
        t.row_with_id(id) is Some,
        t.after_update(id, description).row_with_id(id) == Some(
            GestureView { description, ..t.row_with_id(id).unwrap() },
        ),
{
    lemma_find_id_some(t.rows, id);
    lemma_find_id_after_set(t.rows, id, description, id);
}

/// A description update leaves every other id's row as it was.
pub proof fn lemma_update_keeps_other_rows(
    t: TableView,
    id: int,
    description: Option<Seq<char>>,
    other: int,
)
    requires
        other != id,
    ensures
        t.after_update(id, description).row_with_id(other) == t.row_with_id(other),
{
    lemma_find_id_after_set(t.rows, id, description, other);
    lemma_find_id_matches(t.rows, other);
}

/// A description update of an id that no row carries changes nothing.
pub proof fn lemma_update_unknown_id(t: TableView, id: int, description: Option<Seq<char>>)
    requires
        !t.has_id(id),
    ensures
        t.after_update(id, description) == t,
{
    assert(set_description(t.rows, id, description) =~= t.rows) by {
        assert forall|i: int| 0 <= i < t.rows.len() implies #[trigger] set_description(
            t.rows,
            id,
            description,
        )[i] == t.rows[i] by {
            assert(t.rows[i].id != id);
        }
    }
}

/// Of two description updates of one id, the second one wins.
pub proof fn lemma_update_last_wins(
    t: TableView,
    id: int,
    first: Option<Seq<char>>,
    second: Option<Seq<char>>,
)
    ensures
        t.after_update(id, first).after_update(id, second) == t.after_update(id, second),
{
    assert(set_description(set_description(t.rows, id, first), id, second) =~= set_description(
        t.rows,
        id,
        second,
    ));
}

/// Inserting only adds names and never lowers the id counter.
proof fn lemma_insert_grows(t: TableView, g: NewGestureView, name: Seq<char>)
    ensures
        t.has_name(name) ==> t.after_insert(g).has_name(name),
        t.last_id <= t.after_insert(g).last_id,
        t.last_id >= i64::MAX ==> t.after_insert(g) == t,
{
    if t.has_name(name) {
        let i = choose|i: int| 0 <= i < t.rows.len() && #[trigger] t.rows[i].name == name;
        assert(t.after_insert(g).rows[i].name == name);
    }
}

/// After a series of inserts, each inserted name is stored, unless the ids ran out.
pub proof fn lemma_inserts_cover(t: TableView, gs: Seq<NewGestureView>)
    ensures
        forall|k: int|
            0 <= k < gs.len() ==> t.after_inserts(gs).has_name(#[trigger] gs[k].name)
                || t.after_inserts(gs).last_id >= i64::MAX,
    decreases gs.len(),
{
    if gs.len() > 0 {
        let front = gs.drop_last();
        lemma_inserts_cover(t, front);
        let u = t.after_inserts(front);
        let g = gs.last();
        assert forall|k: int|
            0 <= k < gs.len() implies t.after_inserts(gs).has_name(#[trigger] gs[k].name)
            || t.after_inserts(gs).last_id >= i64::MAX by {
            lemma_insert_grows(u, g, gs[k].name);
            if k < gs.len() - 1 {
                assert(front[k] == gs[k]);
            } else {
                if u.insert_outcome(g) is Inserted {
                    assert(u.after_insert(g).rows[u.rows.len() as int].name == g.name);
                }
            }
        }
    }
}

/// Inserts of names that are all stored already (or with no id left) change nothing.
proof fn lemma_inserts_of_known_names(t: TableView, gs: Seq<NewGestureView>)
    requires
        forall|k: int| 0 <= k < gs.len() ==> t.has_name(#[trigger] gs[k].name) || t.last_id >= i64::MAX,
    ensures
        t.after_inserts(gs) == t,
    decreases gs.len(),
{
    if gs.len() > 0 {
        let front = gs.drop_last();
        assert forall|k: int| 0 <= k < front.len() implies t.has_name(#[trigger] front[k].name)
            || t.last_id >= i64::MAX by {
            assert(gs[k] == front[k]);
        }
        lemma_inserts_of_known_names(t, front);
        assert(t.has_name(gs[gs.len() - 1].name) || t.last_id >= i64::MAX);
    }
}

/// Running the same series of `INSERT OR IGNORE` twice leaves the table as running it once.
pub proof fn lemma_inserts_idempotent(t: TableView, gs: Seq<NewGestureView>)
    ensures
        t.after_inserts(gs).after_inserts(gs) == t.after_inserts(gs),
{
    lemma_inserts_cover(t, gs);
    lemma_inserts_of_known_names(t.after_inserts(gs), gs);
}

/// Every series of inserts keeps the schema's constraints.
pub proof fn lemma_inserts_keep_schema(t: TableView, gs: Seq<NewGestureView>)
    requires
        t.well_formed(),
    ensures
        t.after_inserts(gs).well_formed(),
    decreases gs.len(),
{
    if gs.len() > 0 {
        lemma_inserts_keep_schema(t, gs.drop_last());
        lemma_insert_keeps_schema(t.after_inserts(gs.drop_last()), gs.last());
    }
}


/// The row an insert stores carries the given id and every inserted column unchanged, each
/// independent of the others.
pub proof fn lemma_stored_row_columns(g: NewGestureView, id: int)
    ensures
        g.with_id(id).id == id,
        g.with_id(id).name == g.name,
        g.with_id(id).video_filename == g.video_filename,
        g.with_id(id).description == g.description,
        g.with_id(id).category == g.category,
{
}

/// No inserts leave the table as it was.
pub proof fn lemma_inserts_none(t: TableView)
    ensures
        t.after_inserts(Seq::empty()) == t,
{
}

/// A series of inserts is the series without its last value, then a single insert of that
/// value itself, whatever the table held before.
pub proof fn lemma_inserts_step(t: TableView, gs: Seq<NewGestureView>, g: NewGestureView)
    ensures
        t.after_inserts(gs.push(g)) == t.after_inserts(gs).after_insert(g),
{
    assert(gs.push(g).drop_last() =~= gs);
}

/// After a series of inserts, a stored name was stored before or is one of the inserted
/// names; the id counter grows by at most one per insert.
proof fn lemma_inserts_names(t: TableView, gs: Seq<NewGestureView>, n: Seq<char>)
    requires
        0 <= t.last_id,
    ensures
        t.after_inserts(gs).has_name(n) ==> t.has_name(n) || exists|j: int|
            0 <= j < gs.len() && (#[trigger] gs[j]).name == n,
        t.last_id <= t.after_inserts(gs).last_id <= t.last_id + gs.len(),
    decreases gs.len(),
{
    if gs.len() > 0 {
        let front = gs.drop_last();
        let g = gs.last();
        lemma_inserts_names(t, front, n);
        let u = t.after_inserts(front);
        let after = u.after_insert(g);
        if after.has_name(n) {
            let i = choose|i: int| 0 <= i < after.rows.len() && #[trigger] after.rows[i].name == n;
            if i < u.rows.len() {
                assert(after.rows[i] == u.rows[i]);
                assert(u.has_name(n));
                if !t.has_name(n) {
                    let j = choose|j: int| 0 <= j < front.len() && (#[trigger] front[j]).name == n;
                    assert(gs[j] == front[j]);
                }
            } else {
                assert(gs[gs.len() - 1].name == n);
            }
        }
    }
}

/// In a series of inserts, a value whose name is new to the table and to the rest of the
/// series is stored with exactly its columns, as long as ids do not run out.
pub proof fn lemma_inserts_store_each_new_value(t: TableView, gs: Seq<NewGestureView>, k: int)
    requires
        0 <= t.last_id,
        0 <= k < gs.len(),
        !t.has_name(gs[k].name),
        forall|j: int| 0 <= j < gs.len() && j != k ==> (#[trigger] gs[j]).name != gs[k].name,
        t.last_id + gs.len() <= i64::MAX,
    ensures
        exists|i: int|
            0 <= i < t.after_inserts(gs).rows.len() && (#[trigger] t.after_inserts(gs).rows[i]).name
                == gs[k].name && t.after_inserts(gs).rows[i].video_filename == gs[k].video_filename
                && t.after_inserts(gs).rows[i].description == gs[k].description
                && t.after_inserts(gs).rows[i].category == gs[k].category,
    decreases gs.len(),
{
    let front = gs.drop_last();
    let g = gs.last();
    let u = t.after_inserts(front);
    let after = t.after_inserts(gs);
    assert(after == u.after_insert(g));
    if k == gs.len() - 1 {
        lemma_inserts_names(t, front, g.name);
        if u.has_name(g.name) {
            let j = choose|j: int| 0 <= j < front.len() && (#[trigger] front[j]).name == g.name;
            assert(gs[j] == front[j]);
        }
        assert(u.insert_outcome(g) is Inserted);
        let i = u.rows.len() as int;
        assert(after.rows[i] == g.with_id(u.last_id + 1));
    } else {
        assert forall|j: int| 0 <= j < front.len() && j != k implies (#[trigger] front[j]).name
            != front[k].name by {
            assert(front[j] == gs[j]);
        }
        assert(front[k] == gs[k]);
        lemma_inserts_store_each_new_value(t, front, k);
        let i = choose|i: int|
            0 <= i < u.rows.len() && (#[trigger] u.rows[i]).name == front[k].name
                && u.rows[i].video_filename == front[k].video_filename && u.rows[i].description
                == front[k].description && u.rows[i].category == front[k].category;
        lemma_insert_keeps_rows(u, g);
        assert(after.rows[i] == u.rows[i]);
    }
}

} // verus!
