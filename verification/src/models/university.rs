use vstd::prelude::*;
use crate::db::{
    changed, changed_nullable, copy_text, delete_key, remove_key, row_with_key, text_or_default,
    text_or_empty, update_key, Database, DatabaseView, DbError, Record,
};

verus! {

/// A university.
#[derive(Debug)]
pub struct University {
    pub id: i32,
    pub name: String,
    pub description: Option<String>,
}

pub struct UniversityView {
    pub id: i32,
    pub name: Seq<char>,
    pub description: Option<Seq<char>>,
}

impl View for University {
    type V = UniversityView;

    open spec fn view(&self) -> UniversityView {
        UniversityView { id: self.id, name: self.name@, description: self.description.deep_view() }
    }
}

impl Record for University {
    open spec fn key_of(v: UniversityView) -> i32 {
        v.id
    }

    fn id_of(&self) -> (r: i32) {
        self.id
    }

    fn duplicate(&self) -> (r: University) {
        University { id: self.id, name: self.name.clone(), description: copy_text(&self.description) }
    }
}

impl University {
    /// The university with id `id`.
    pub fn find(id: &i32, conn: &mut Database) -> (r: Result<University, DbError>)
        requires
            old(conn).wf(),
        ensures
            *final(conn) == *old(conn),
            match r {
                Ok(u) => row_with_key::<University>(old(conn)@.universities.rows, *id) == Some(u@),
                Err(e) => e == DbError::NotFound
                    && row_with_key::<University>(old(conn)@.universities.rows, *id) is None,
            },
    {
        match conn.universities.position(*id) {
            Some(i) => Ok(conn.universities.get(i).duplicate()),
            None => Err(DbError::NotFound),
        }
    }

    /// Deletes the university with id `id`; nothing happens where there is none.
    pub fn destroy(id: &i32, conn: &mut Database) -> (r: Result<(), DbError>)
        requires
            old(conn).wf(),
        ensures
            final(conn).wf(),
            r is Ok,
            final(conn)@ == (DatabaseView {
                universities: old(conn)@.universities.with_rows(
                    remove_key::<University>(old(conn)@.universities.rows, *id),
                ),
                ..old(conn)@
            }),
    {
        delete_key(&mut conn.universities, *id);
        Ok(())
    }

    /// Sets the columns that `new_university` sets on the university with id `id`.
    pub fn update(id: &i32, new_university: &NewUniversity, conn: &mut Database) -> (r: Result<
        (),
        DbError,
    >)
        requires
            old(conn).wf(),
        ensures
            final(conn).wf(),
            !new_university.has_changes() ==> r == Err::<(), DbError>(DbError::EmptyChangeset)
                && *final(conn) == *old(conn),
            new_university.has_changes() ==> r is Ok && final(conn)@ == (DatabaseView {
                universities: old(conn)@.universities.with_rows(
                    update_key::<University>(
                        old(conn)@.universities.rows,
                        *id,
                        |u: UniversityView| new_university.apply(u),
                    ),
                ),
                ..old(conn)@
            }),
    {
        if !(new_university.name.is_some() || new_university.description.is_some()) {
            return Err(DbError::EmptyChangeset);
        }
        match conn.universities.position(*id) {
            Some(i) => {
                let old_row = conn.universities.get(i);
                let row = University {
                    id: old_row.id,
                    name: match &new_university.name {
                        Some(s) => s.clone(),
                        None => old_row.name.clone(),
                    },
                    description: match &new_university.description {
                        Some(s) => Some(s.clone()),
                        None => copy_text(&old_row.description),
                    },
                };
                proof {
                    let rows = old(conn)@.universities.rows;
                    let j = choose|j: int| 0 <= j < rows.len() && rows[j].id == *id;
                    crate::db::lemma_key_unique::<University>(old(conn)@.universities, *id, i as int, j);
                }
                conn.universities.replace(i, row);
            },
            None => {
                assert(old(conn)@.universities.with_rows(old(conn)@.universities.rows) == old(conn)@.universities);
            },
        }
        Ok(())
    }
}

/// The columns of a university to insert or to change.
#[derive(Debug)]
pub struct NewUniversity {
    pub name: Option<String>,
    pub description: Option<String>,
}

impl NewUniversity {
    /// Some column is set.
    pub open spec fn has_changes(&self) -> bool {
        self.name is Some || self.description is Some
    }

    /// `u` with the columns that are set here changed.
    pub open spec fn apply(&self, u: UniversityView) -> UniversityView {
        UniversityView {
            id: u.id,
            name: changed(u.name, self.name.deep_view()),
            description: changed_nullable(u.description, self.description.deep_view()),
        }
    }

    /// The row inserted with id `id`, for a set name (an unset one is refused).
    pub open spec fn row(&self, id: i32) -> UniversityView {
        UniversityView {
            id,
            name: text_or_empty(self.name.deep_view()),
            description: self.description.deep_view(),
        }
    }

    /// Inserts a university with these columns; an unset name is refused.
    pub fn create(&self, conn: &mut Database) -> (r: Result<University, DbError>)
        requires
            old(conn).wf(),
        ensures
            final(conn).wf(),
            match r {
                Ok(u) => self.name is Some
                    && old(conn)@.universities.last_id < i32::MAX
                    && u@ == self.row((old(conn)@.universities.last_id + 1) as i32)
                    && final(conn)@ == (DatabaseView {
                        universities: old(conn)@.universities.push(u@),
                        ..old(conn)@
                    }),
                Err(e) => *final(conn) == *old(conn) && (
                    (e == DbError::NotNullViolation && !(self.name is Some))
                    || (e == DbError::SequenceExhausted && self.name is Some && old(conn)@.universities.last_id == i32::MAX)),
            },
    {
        if !(self.name.is_some()) {
            return Err(DbError::NotNullViolation);
        }
        let id = conn.universities.next_id()?;
        let row = University {
            id,
            name: text_or_default(&self.name),
            description: copy_text(&self.description),
        };
        let out = row.duplicate();
        conn.universities.insert(row);
        Ok(out)
    }
}

/// Inserts a university named `name` with the description `description`.
pub fn create_university(conn: &mut Database, name: &str, description: &str) -> (u: University)
    requires
        old(conn).wf(),
        old(conn)@.universities.last_id < i32::MAX,
    ensures
        final(conn).wf(),
        u@ == (UniversityView {
            id: (old(conn)@.universities.last_id + 1) as i32,
            name: name@,
            description: Some(description@),
        }),
        final(conn)@ == (DatabaseView { universities: old(conn)@.universities.push(u@), ..old(conn)@ }),
{
    let new_univ = NewUniversity { name: Some(name.to_owned()), description: Some(description.to_owned()) };
    match new_univ.create(conn) {
        Ok(u) => u,
        Err(_) => {
            assert(false);
            University { id: 0, name: String::new(), description: None }
        },
    }
}

/// A page of universities.
pub struct UniversityList(pub Vec<University>);

impl UniversityList {
    /// The first ten universities.
    pub fn list(conn: &mut Database) -> (r: Self)
        requires
            old(conn).wf(),
        ensures
            *final(conn) == *old(conn),
            r.0@.map_values(|u: University| u@) == old(conn)@.universities.first_rows(10),
    {
        let n = conn.universities.len();
        let m: usize = if n < 10 { n } else { 10 };
        let mut out: Vec<University> = Vec::new();
        let mut i: usize = 0;
        while i < m
            invariant
                m <= n == conn@.universities.rows.len(),
                m == (if n < 10 { n } else { 10 }),
                0 <= i <= m,
                out@.map_values(|u: University| u@) == conn@.universities.rows.take(i as int),
            decreases m - i,
        {
            out.push(conn.universities.get(i).duplicate());
            assert(conn@.universities.rows.take(i + 1) =~= conn@.universities.rows.take(i as int).push(conn@.universities.rows[i as int]));
            assert(out@.map_values(|u: University| u@) =~= conn@.universities.rows.take(i as int).push(conn@.universities.rows[i as int]));
            i = i + 1;
        }
        assert(conn@.universities.rows.take(m as int) =~= conn@.universities.first_rows(10));
        UniversityList(out)
    }
}

} // verus!
