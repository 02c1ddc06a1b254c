use vstd::prelude::*;
use crate::models::associations::{ComponentToComponent, ComponentToComponentView, DegreeToComponent, DegreeToComponentView};
use crate::models::class::{Class, ClassView};
use crate::models::component::{Component, ComponentView};
use crate::models::degree::{Degree, DegreeView};
use crate::models::subdivision::{Subdivision, SubdivisionView};
use crate::models::university::{University, UniversityView};

verus! {

/// Errors of the relational store.
#[derive(Debug, Clone, Copy, PartialEq, Eq, Structural)]
pub enum DbError {
    /// No row matched the query.
    NotFound,
    /// An update carried no column to change.
    EmptyChangeset,
    /// The id sequence of a table has reached `i32::MAX`.
    SequenceExhausted,
    /// An insert left a column unset that can hold no null and has no default.
    NotNullViolation,
}

impl DbError {
    /// The message of the error, as it is shown to a user.
    pub fn message(&self) -> (s: String)
        ensures
            s@ == db_error_message(*self),
    {
        match self {
            DbError::NotFound => "Record not found".to_string(),
            DbError::EmptyChangeset => "There are no changes to save".to_string(),
            DbError::SequenceExhausted => "The id sequence is exhausted".to_string(),
            DbError::NotNullViolation => "A column that cannot be null was left unset".to_string(),
        }
    }
}

pub open spec fn db_error_message(e: DbError) -> Seq<char> {
    match e {
        DbError::NotFound => "Record not found"@,
        DbError::EmptyChangeset => "There are no changes to save"@,
        DbError::SequenceExhausted => "The id sequence is exhausted"@,
        DbError::NotNullViolation => "A column that cannot be null was left unset"@,
    }
}

/// A row of a table: it has a view and a serial id.
pub trait Record: Sized + View {
    /// The id of a row, read from its view.
    spec fn key_of(v: Self::V) -> i32;

    /// The id of this row.
    fn id_of(&self) -> (r: i32)
        ensures
            r == Self::key_of(self@),
    ;

    /// A copy of this row.
    fn duplicate(&self) -> (r: Self)
        ensures
            r@ == self@,
    ;
}

/// Some row of `rows` has id `id`.
pub open spec fn has_key<R: Record>(rows: Seq<R::V>, id: i32) -> bool {
    exists|i: int| 0 <= i < rows.len() && R::key_of(#[trigger] rows[i]) == id
}

/// The abstract value of a table: its rows in order and the last id handed out.
pub struct TableView<V> {
    pub rows: Seq<V>,
    pub last_id: int,
}

impl<V> TableView<V> {
    /// The table after appending `row` with the next id of the sequence.
    pub open spec fn push(self, row: V) -> TableView<V> {
        TableView { rows: self.rows.push(row), last_id: self.last_id + 1 }
    }

    /// The table with its rows replaced.
    pub open spec fn with_rows(self, rows: Seq<V>) -> TableView<V> {
        TableView { rows, last_id: self.last_id }
    }

    /// The first `n` rows (the whole table where it has fewer).
    pub open spec fn first_rows(self, n: int) -> Seq<V> {
        if self.rows.len() <= n { self.rows } else { self.rows.take(n) }
    }
}

/// The row of `rows` with id `id`, where there is one.
pub open spec fn row_with_key<R: Record>(rows: Seq<R::V>, id: i32) -> Option<R::V> {
    if has_key::<R>(rows, id) {
        Some(rows[choose|i: int| 0 <= i < rows.len() && R::key_of(rows[i]) == id])
    } else {
        None
    }
}

/// Row ids are positive, strictly increasing and not above the last id handed out.
pub open spec fn table_wf<R: Record>(t: TableView<R::V>) -> bool {
    &&& 0 <= t.last_id <= i32::MAX
    &&& forall|i: int| 0 <= i < t.rows.len() ==> 1 <= #[trigger] R::key_of(t.rows[i]) <= t.last_id
    &&& forall|i: int, j: int| 0 <= i < j < t.rows.len() ==>
        R::key_of(#[trigger] t.rows[i]) < R::key_of(#[trigger] t.rows[j])
}

/// In a well-formed table a position with the wanted id is the only one.
pub proof fn lemma_key_unique<R: Record>(t: TableView<R::V>, id: i32, i: int, j: int)
    requires
        table_wf::<R>(t),
        0 <= i < t.rows.len(),
        0 <= j < t.rows.len(),
        R::key_of(t.rows[i]) == id,
        R::key_of(t.rows[j]) == id,
    ensures
        i == j,
{
    if i < j {
        assert(R::key_of(t.rows[i]) < R::key_of(t.rows[j]));
    } else if j < i {
        assert(R::key_of(t.rows[j]) < R::key_of(t.rows[i]));
    }
}

/// In a well-formed table, the row found at a position with id `id` is `row_with_key`.
pub proof fn lemma_row_with_key<R: Record>(t: TableView<R::V>, id: i32, i: int)
    requires
        table_wf::<R>(t),
        0 <= i < t.rows.len(),
        R::key_of(t.rows[i]) == id,
    ensures
        row_with_key::<R>(t.rows, id) == Some(t.rows[i]),
{
    assert(has_key::<R>(t.rows, id));
    let j = choose|j: int| 0 <= j < t.rows.len() && R::key_of(t.rows[j]) == id;
    lemma_key_unique::<R>(t, id, i, j);
}

/// A table of rows with a serial id column: rows are kept in insertion order and
/// a new row takes the id after the last one handed out.
pub struct Table<R> {
    rows: Vec<R>,
    last_id: i32,
}

impl<R: Record> View for Table<R> {
    type V = TableView<R::V>;

    closed spec fn view(&self) -> TableView<R::V> {
        TableView { rows: self.rows@.map_values(|r: R| r@), last_id: self.last_id as int }
    }
}

impl<R: Record> Table<R> {
    pub open spec fn wf(&self) -> bool {
        table_wf::<R>(self@)
    }

    pub fn new() -> (t: Self)
        ensures
            t.wf(),
            t@.rows == Seq::<R::V>::empty(),
            t@.last_id == 0,
    {
        let t = Table { rows: Vec::new(), last_id: 0 };
        assert(t@.rows =~= Seq::<R::V>::empty());
        t
    }

    pub fn len(&self) -> (n: usize)
        ensures
            n == self@.rows.len(),
    {
        self.rows.len()
    }

    pub fn get(&self, i: usize) -> (r: &R)
        requires
            i < self@.rows.len(),
        ensures
            r@ == self@.rows[i as int],
    {
        &self.rows[i]
    }

    /// The id the next inserted row takes.
    pub fn next_id(&self) -> (r: Result<i32, DbError>)
        ensures
            match r {
                Ok(id) => self@.last_id < i32::MAX && id == self@.last_id + 1,
                Err(e) => self@.last_id >= i32::MAX && e == DbError::SequenceExhausted,
            },
    {
        if self.last_id == i32::MAX {
            Err(DbError::SequenceExhausted)
        } else {
            Ok(self.last_id + 1)
        }
    }

    /// Appends a row that carries the next id of the sequence.
    pub fn insert(&mut self, row: R)
        requires
            old(self).wf(),
            old(self)@.last_id < i32::MAX,
            R::key_of(row@) == old(self)@.last_id + 1,
        ensures
            final(self).wf(),
            final(self)@ == old(self)@.push(row@),
    {
        self.rows.push(row);
        self.last_id = self.last_id + 1;
        assert(self@.rows =~= old(self)@.rows.push(row@));
    }

    /// The position of the row with id `id`.
    pub fn position(&self, id: i32) -> (r: Option<usize>)
        requires
            self.wf(),
        ensures
            match r {
                Some(i) => i < self@.rows.len() && R::key_of(self@.rows[i as int]) == id
                    && row_with_key::<R>(self@.rows, id) == Some(self@.rows[i as int]),
                None => !has_key::<R>(self@.rows, id) && row_with_key::<R>(self@.rows, id) is None,
            },
    {
        let n = self.rows.len();
        let mut i: usize = 0;
        while i < n
            invariant
                n == self@.rows.len(),
                0 <= i <= n,
                self.wf(),
                forall|j: int| 0 <= j < i ==> R::key_of(#[trigger] self@.rows[j]) != id,
            decreases n - i,
        {
            let k = self.rows[i].id_of();
            if k == id {
                proof {
                    lemma_row_with_key::<R>(self@, id, i as int);
                }
                return Some(i);
            }
            i = i + 1;
        }
        None
    }

    /// Removes the row at position `i`.
    pub fn remove(&mut self, i: usize)
        requires
            old(self).wf(),
            i < old(self)@.rows.len(),
        ensures
            final(self).wf(),
            final(self)@ == old(self)@.with_rows(old(self)@.rows.remove(i as int)),
    {
        self.rows.remove(i);
        assert(self@.rows =~= old(self)@.rows.remove(i as int));
        assert forall|a: int, b: int| 0 <= a < b < self@.rows.len() implies
            R::key_of(#[trigger] self@.rows[a]) < R::key_of(#[trigger] self@.rows[b]) by {
            let oa = if a < i { a } else { a + 1 };
            let ob = if b < i { b } else { b + 1 };
            assert(self@.rows[a] == old(self)@.rows[oa]);
            assert(self@.rows[b] == old(self)@.rows[ob]);
        }
        assert forall|a: int| 0 <= a < self@.rows.len() implies
            1 <= #[trigger] R::key_of(self@.rows[a]) <= self@.last_id by {
            let oa = if a < i { a } else { a + 1 };
            assert(self@.rows[a] == old(self)@.rows[oa]);
        }
    }

    /// Replaces the row at position `i` by a row with the same id.
    pub fn replace(&mut self, i: usize, row: R)
        requires
            old(self).wf(),
            i < old(self)@.rows.len(),
            R::key_of(row@) == R::key_of(old(self)@.rows[i as int]),
        ensures
            final(self).wf(),
            final(self)@ == old(self)@.with_rows(old(self)@.rows.update(i as int, row@)),
    {
        self.rows.set(i, row);
        assert(self@.rows =~= old(self)@.rows.update(i as int, row@));
        assert forall|a: int, b: int| 0 <= a < b < self@.rows.len() implies
            R::key_of(#[trigger] self@.rows[a]) < R::key_of(#[trigger] self@.rows[b]) by {
            assert(R::key_of(self@.rows[a]) == R::key_of(old(self)@.rows[a]));
            assert(R::key_of(self@.rows[b]) == R::key_of(old(self)@.rows[b]));
        }
        assert forall|a: int| 0 <= a < self@.rows.len() implies
            1 <= #[trigger] R::key_of(self@.rows[a]) <= self@.last_id by {
            assert(R::key_of(self@.rows[a]) == R::key_of(old(self)@.rows[a]));
        }
    }
}

/// The rows of `rows` without the row with id `id`.
pub open spec fn remove_key<R: Record>(rows: Seq<R::V>, id: i32) -> Seq<R::V> {
    if has_key::<R>(rows, id) {
        rows.remove(choose|i: int| 0 <= i < rows.len() && R::key_of(rows[i]) == id)
    } else {
        rows
    }
}

/// The rows of `rows` where the row with id `id` is replaced by `f` of it.
pub open spec fn update_key<R: Record>(rows: Seq<R::V>, id: i32, f: spec_fn(R::V) -> R::V) -> Seq<R::V> {
    if has_key::<R>(rows, id) {
        let i = choose|i: int| 0 <= i < rows.len() && R::key_of(rows[i]) == id;
        rows.update(i, f(rows[i]))
    } else {
        rows
    }
}

/// The text of an optional text column, the empty text where it is unset.
pub open spec fn text_or_empty(o: Option<Seq<char>>) -> Seq<char> {
    match o {
        Some(s) => s,
        None => Seq::empty(),
    }
}

/// `new` where it is set, `old` otherwise.
pub open spec fn changed<T>(old: T, new: Option<T>) -> T {
    match new {
        Some(v) => v,
        None => old,
    }
}

/// `new` where it is set, `old` otherwise, for a nullable column.
pub open spec fn changed_nullable<T>(old: Option<T>, new: Option<T>) -> Option<T> {
    match new {
        Some(v) => Some(v),
        None => old,
    }
}

/// A copy of an optional text.
pub fn copy_text(o: &Option<String>) -> (r: Option<String>)
    ensures
        r.deep_view() == o.deep_view(),
{
    match o {
        Some(s) => Some(s.clone()),
        None => None,
    }
}

/// The text of an optional text column, the empty text where it is unset.
pub fn text_or_default(o: &Option<String>) -> (r: String)
    ensures
        r@ == text_or_empty(o.deep_view()),
{
    match o {
        Some(s) => s.clone(),
        None => String::new(),
    }
}

/// Removes the row with id `id` from `t`, where there is one.
pub fn delete_key<R: Record>(t: &mut Table<R>, id: i32)
    requires
        old(t).wf(),
    ensures
        final(t).wf(),
        final(t)@ == old(t)@.with_rows(remove_key::<R>(old(t)@.rows, id)),
{
    match t.position(id) {
        Some(i) => {
            proof {
                let rows = old(t)@.rows;
                let j = choose|j: int| 0 <= j < rows.len() && R::key_of(rows[j]) == id;
                lemma_key_unique::<R>(old(t)@, id, i as int, j);
            }
            t.remove(i);
        },
        None => {
            assert(old(t)@.with_rows(old(t)@.rows) == old(t)@);
        },
    }
}

/// The abstract value of the store: the value of each table.
pub struct DatabaseView {
    pub universities: TableView<UniversityView>,
    pub subdivisions: TableView<SubdivisionView>,
    pub degrees: TableView<DegreeView>,
    pub components: TableView<ComponentView>,
    pub classes: TableView<ClassView>,
    pub component_assocs: TableView<ComponentToComponentView>,
    pub degree_assocs: TableView<DegreeToComponentView>,
}

/// The relational store of the catalog: one table per kind of row.
pub struct Database {
    pub universities: Table<University>,
    pub subdivisions: Table<Subdivision>,
    pub degrees: Table<Degree>,
    pub components: Table<Component>,
    pub classes: Table<Class>,
    pub component_assocs: Table<ComponentToComponent>,
    pub degree_assocs: Table<DegreeToComponent>,
}

impl View for Database {
    type V = DatabaseView;

    open spec fn view(&self) -> DatabaseView {
        DatabaseView {
            universities: self.universities@,
            subdivisions: self.subdivisions@,
            degrees: self.degrees@,
            components: self.components@,
            classes: self.classes@,
            component_assocs: self.component_assocs@,
            degree_assocs: self.degree_assocs@,
        }
    }
}

impl Database {
    /// Every table is well formed.
    pub open spec fn wf(&self) -> bool {
        &&& self.universities.wf()
        &&& self.subdivisions.wf()
        &&& self.degrees.wf()
        &&& self.components.wf()
        &&& self.classes.wf()
        &&& self.component_assocs.wf()
        &&& self.degree_assocs.wf()
    }

    /// An empty store.
    pub fn new() -> (db: Database)
        ensures
            db.wf(),
            db@.universities.rows.len() == 0 && db@.universities.last_id == 0,
            db@.subdivisions.rows.len() == 0 && db@.subdivisions.last_id == 0,
            db@.degrees.rows.len() == 0 && db@.degrees.last_id == 0,
            db@.components.rows.len() == 0 && db@.components.last_id == 0,
            db@.classes.rows.len() == 0 && db@.classes.last_id == 0,
            db@.component_assocs.rows.len() == 0 && db@.component_assocs.last_id == 0,
            db@.degree_assocs.rows.len() == 0 && db@.degree_assocs.last_id == 0,
    {
        Database {
            universities: Table::new(),
            subdivisions: Table::new(),
            degrees: Table::new(),
            components: Table::new(),
            classes: Table::new(),
            component_assocs: Table::new(),
            degree_assocs: Table::new(),
        }
    }
}

} // verus!
