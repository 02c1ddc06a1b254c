use vstd::prelude::*;
use crate::db::{Database, DatabaseView, DbError, Record};

verus! {

/// A subdivision (a college or a department) of a university.
#[derive(Debug)]
pub struct Subdivision {
    pub id: i32,
    pub name: String,
    pub university_id: Option<i32>,
}

pub struct SubdivisionView {
    pub id: i32,
    pub name: Seq<char>,
    pub university_id: Option<i32>,
}

impl View for Subdivision {
    type V = SubdivisionView;

    open spec fn view(&self) -> SubdivisionView {
        SubdivisionView { id: self.id, name: self.name@, university_id: self.university_id }
    }
}

impl Record for Subdivision {
    open spec fn key_of(v: SubdivisionView) -> i32 {
        v.id
    }

    fn id_of(&self) -> (r: i32) {
        self.id
    }

    fn duplicate(&self) -> (r: Subdivision) {
        Subdivision { id: self.id, name: self.name.clone(), university_id: self.university_id }
    }
}

/// A page of subdivisions.
pub struct SubdivisionList(pub Vec<Subdivision>);

impl SubdivisionList {
    /// The first ten subdivisions.
    pub fn list(conn: &mut Database) -> (r: Self)
        requires
            old(conn).wf(),
        ensures
            *final(conn) == *old(conn),
            r.0@.map_values(|s: Subdivision| s@) == old(conn)@.subdivisions.first_rows(10),
    {
        let n = conn.subdivisions.len();
        let m: usize = if n < 10 { n } else { 10 };
        let mut out: Vec<Subdivision> = Vec::new();
        let mut i: usize = 0;
        while i < m
            invariant
                m <= n == conn@.subdivisions.rows.len(),
                m == (if n < 10 { n } else { 10 }),
                0 <= i <= m,
                out@.map_values(|s: Subdivision| s@) == conn@.subdivisions.rows.take(i as int),
            decreases m - i,
        {
            out.push(conn.subdivisions.get(i).duplicate());
            assert(conn@.subdivisions.rows.take(i + 1) =~= conn@.subdivisions.rows.take(i as int).push(conn@.subdivisions.rows[i as int]));
            assert(out@.map_values(|s: Subdivision| s@) =~= conn@.subdivisions.rows.take(i as int).push(conn@.subdivisions.rows[i as int]));
            i = i + 1;
        }
        assert(conn@.subdivisions.rows.take(m as int) =~= conn@.subdivisions.first_rows(10));
        SubdivisionList(out)
    }
}

/// The columns of a subdivision to insert.
#[derive(Debug)]
pub struct NewSubdivision {
    pub name: String,
}

impl NewSubdivision {
    /// Inserts a subdivision with this name and no university.
    pub fn create(&self, conn: &mut Database) -> (r: Result<Subdivision, DbError>)
        requires
            old(conn).wf(),
        ensures
            final(conn).wf(),
            match r {
                Ok(s) => old(conn)@.subdivisions.last_id < i32::MAX
                    && s@ == (SubdivisionView {
                        id: (old(conn)@.subdivisions.last_id + 1) as i32,
                        name: self.name@,
                        university_id: None,
                    })
                    && final(conn)@ == (DatabaseView {
                        subdivisions: old(conn)@.subdivisions.push(s@),
                        ..old(conn)@
                    }),
                Err(e) => e == DbError::SequenceExhausted
                    && old(conn)@.subdivisions.last_id == i32::MAX
                    && *final(conn) == *old(conn),
            },
    {
        let id = conn.subdivisions.next_id()?;
        let row = Subdivision { id, name: self.name.clone(), university_id: None };
        let out = row.duplicate();
        conn.subdivisions.insert(row);
        Ok(out)
    }
}

} // verus!
