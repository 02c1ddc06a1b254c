use vstd::prelude::*;
use crate::db::{
    changed, changed_nullable, copy_text, delete_key, remove_key, row_with_key, text_or_default,
    text_or_empty, update_key, Database, DatabaseView, DbError, Record,
};

verus! {

/// A degree (a major) and its code.
#[derive(Debug)]
pub struct Degree {
    pub id: i32,
    pub name: String,
    pub pftype: String,
    pub code: String,
    pub description: Option<String>,
    pub subdivision: Option<i32>,
}

pub struct DegreeView {
    pub id: i32,
    pub name: Seq<char>,
    pub pftype: Seq<char>,
    pub code: Seq<char>,
    pub description: Option<Seq<char>>,
    pub subdivision: Option<i32>,
}

impl View for Degree {
    type V = DegreeView;

    open spec fn view(&self) -> DegreeView {
        DegreeView {
            id: self.id,
            name: self.name@,
            pftype: self.pftype@,
            code: self.code@,
            description: self.description.deep_view(),
            subdivision: self.subdivision,
        }
    }
}

impl Record for Degree {
    open spec fn key_of(v: DegreeView) -> i32 {
        v.id
    }

    fn id_of(&self) -> (r: i32) {
        self.id
    }

    fn duplicate(&self) -> (r: Degree) {
        Degree {
            id: self.id,
            name: self.name.clone(),
            pftype: self.pftype.clone(),
            code: self.code.clone(),
            description: copy_text(&self.description),
            subdivision: self.subdivision,
        }
    }
}

/// The position of the first degree with code `code`.
pub open spec fn first_degree_coded(rows: Seq<DegreeView>, code: Seq<char>, i: int) -> bool {
    &&& 0 <= i < rows.len()
    &&& rows[i].code == code
    &&& forall|j: int| 0 <= j < i ==> (#[trigger] rows[j]).code != code
}

/// The first degree with code `code`, where there is one.
pub open spec fn degree_coded(rows: Seq<DegreeView>, code: Seq<char>) -> Option<DegreeView> {
    if exists|i: int| 0 <= i < rows.len() && (#[trigger] rows[i]).code == code {
        Some(rows[choose|i: int| first_degree_coded(rows, code, i)])
    } else {
        None
    }
}

impl Degree {
    /// The degree with id `id`.
    pub fn find(id: &i32, conn: &mut Database) -> (r: Result<Degree, DbError>)
        requires
            old(conn).wf(),
        ensures
            *final(conn) == *old(conn),
            match r {
                Ok(d) => row_with_key::<Degree>(old(conn)@.degrees.rows, *id) == Some(d@),
                Err(e) => e == DbError::NotFound
                    && row_with_key::<Degree>(old(conn)@.degrees.rows, *id) is None,
            },
    {
        match conn.degrees.position(*id) {
            Some(i) => Ok(conn.degrees.get(i).duplicate()),
            None => Err(DbError::NotFound),
        }
    }

    /// The first degree with code `code`.
    pub fn find_by_code(code: &str, conn: &mut Database) -> (r: Result<Degree, DbError>)
        requires
            old(conn).wf(),
        ensures
            *final(conn) == *old(conn),
            match r {
                Ok(d) => degree_coded(old(conn)@.degrees.rows, code@) == Some(d@),
                Err(e) => e == DbError::NotFound && degree_coded(old(conn)@.degrees.rows, code@) is None,
            },
    {
        let wanted = code.to_owned();
        let ghost rows = conn@.degrees.rows;
        let n = conn.degrees.len();
        let mut i: usize = 0;
        while i < n
            invariant
                n == rows.len(),
                rows == conn@.degrees.rows,
                wanted@ == code@,
                0 <= i <= n,
                forall|j: int| 0 <= j < i ==> (#[trigger] rows[j]).code != code@,
            decreases n - i,
        {
            let d = conn.degrees.get(i);
            if d.code == wanted {
                proof {
                    assert(first_degree_coded(rows, code@, i as int));
                    let k = choose|k: int| first_degree_coded(rows, code@, k);
                    assert(k == i);
                }
                return Ok(d.duplicate());
            }
            i = i + 1;
        }
        Err(DbError::NotFound)
    }

    /// Deletes the degree with id `id`; nothing happens where there is none.
    pub fn destroy(id: &i32, conn: &mut Database) -> (r: Result<(), DbError>)
        requires
            old(conn).wf(),
        ensures
            final(conn).wf(),
            r is Ok,
            final(conn)@ == (DatabaseView {
                degrees: old(conn)@.degrees.with_rows(remove_key::<Degree>(old(conn)@.degrees.rows, *id)),
                ..old(conn)@
            }),
    {
        delete_key(&mut conn.degrees, *id);
        Ok(())
    }

    /// Sets the columns that `new_degree` sets on the degree with id `id`.
    pub fn update(id: &i32, new_degree: &NewDegree, conn: &mut Database) -> (r: Result<(), DbError>)
        requires
            old(conn).wf(),
        ensures
            final(conn).wf(),
            !new_degree.has_changes() ==> r == Err::<(), DbError>(DbError::EmptyChangeset)
                && *final(conn) == *old(conn),
            new_degree.has_changes() ==> r is Ok && final(conn)@ == (DatabaseView {
                degrees: old(conn)@.degrees.with_rows(
                    update_key::<Degree>(old(conn)@.degrees.rows, *id, |d: DegreeView| new_degree.apply(d)),
                ),
                ..old(conn)@
            }),
    {
        if !(new_degree.code.is_some() || new_degree.name.is_some() || new_degree.pftype.is_some()
            || new_degree.description.is_some()) {
            return Err(DbError::EmptyChangeset);
        }
        match conn.degrees.position(*id) {
            Some(i) => {
                let old_row = conn.degrees.get(i);
                let row = Degree {
                    id: old_row.id,
                    name: match &new_degree.name {
                        Some(s) => s.clone(),
                        None => old_row.name.clone(),
                    },
                    pftype: match &new_degree.pftype {
                        Some(s) => s.clone(),
                        None => old_row.pftype.clone(),
                    },
                    code: match &new_degree.code {
                        Some(s) => s.clone(),
                        None => old_row.code.clone(),
                    },
                    description: match &new_degree.description {
                        Some(s) => Some(s.clone()),
                        None => copy_text(&old_row.description),
                    },
                    subdivision: old_row.subdivision,
                };
                proof {
                    let rows = old(conn)@.degrees.rows;
                    let j = choose|j: int| 0 <= j < rows.len() && rows[j].id == *id;
                    crate::db::lemma_key_unique::<Degree>(old(conn)@.degrees, *id, i as int, j);
                }
                conn.degrees.replace(i, row);
            },
            None => {
                assert(old(conn)@.degrees.with_rows(old(conn)@.degrees.rows) == old(conn)@.degrees);
            },
        }
        Ok(())
    }
}

/// The columns of a degree to insert or to change.
#[derive(Debug)]
pub struct NewDegree {
    pub code: Option<String>,
    pub name: Option<String>,
    pub pftype: Option<String>,
    pub description: Option<String>,
}

impl NewDegree {
    /// Some column is set.
    pub open spec fn has_changes(&self) -> bool {
        self.code is Some || self.name is Some || self.pftype is Some || self.description is Some
    }

    /// `d` with the columns that are set here changed.
    pub open spec fn apply(&self, d: DegreeView) -> DegreeView {
        DegreeView {
            id: d.id,
            name: changed(d.name, self.name.deep_view()),
            pftype: changed(d.pftype, self.pftype.deep_view()),
            code: changed(d.code, self.code.deep_view()),
            description: changed_nullable(d.description, self.description.deep_view()),
            subdivision: d.subdivision,
        }
    }

    /// The row inserted with id `id`, for a set code, name and type (an unset one is
    /// refused).
    pub open spec fn row(&self, id: i32) -> DegreeView {
        DegreeView {
            id,
            name: text_or_empty(self.name.deep_view()),
            pftype: text_or_empty(self.pftype.deep_view()),
            code: text_or_empty(self.code.deep_view()),
            description: self.description.deep_view(),
            subdivision: None,
        }
    }

    /// Inserts a degree with these columns; an unset code, name or type is refused.
    pub fn create(&self, conn: &mut Database) -> (r: Result<Degree, DbError>)
        requires
            old(conn).wf(),
        ensures
            final(conn).wf(),
            match r {
                Ok(d) => (self.code is Some && self.name is Some && self.pftype is Some)
                    && old(conn)@.degrees.last_id < i32::MAX
                    && d@ == self.row((old(conn)@.degrees.last_id + 1) as i32)
                    && final(conn)@ == (DatabaseView {
                        degrees: old(conn)@.degrees.push(d@),
                        ..old(conn)@
                    }),
                Err(e) => *final(conn) == *old(conn) && (
                    (e == DbError::NotNullViolation && !((self.code is Some && self.name is Some && self.pftype is Some)))
                    || (e == DbError::SequenceExhausted && (self.code is Some && self.name is Some && self.pftype is Some) && old(conn)@.degrees.last_id == i32::MAX)),
            },
    {
        if !(self.code.is_some() && self.name.is_some() && self.pftype.is_some()) {
            return Err(DbError::NotNullViolation);
        }
        let id = conn.degrees.next_id()?;
        let row = Degree {
            id,
            name: text_or_default(&self.name),
            pftype: text_or_default(&self.pftype),
            code: text_or_default(&self.code),
            description: copy_text(&self.description),
            subdivision: None,
        };
        let out = row.duplicate();
        conn.degrees.insert(row);
        Ok(out)
    }
}

/// A page of degrees.
pub struct DegreeList(pub Vec<Degree>);

impl DegreeList {
    /// The first ten degrees.
    pub fn list(conn: &mut Database) -> (r: Self)
        requires
            old(conn).wf(),
        ensures
            *final(conn) == *old(conn),
            r.0@.map_values(|d: Degree| d@) == old(conn)@.degrees.first_rows(10),
    {
        let n = conn.degrees.len();
        let m: usize = if n < 10 { n } else { 10 };
        let mut out: Vec<Degree> = Vec::new();
        let mut i: usize = 0;
        while i < m
            invariant
                m <= n == conn@.degrees.rows.len(),
                m == (if n < 10 { n } else { 10 }),
                0 <= i <= m,
                out@.map_values(|d: Degree| d@) == conn@.degrees.rows.take(i as int),
            decreases m - i,
        {
            out.push(conn.degrees.get(i).duplicate());
            assert(conn@.degrees.rows.take(i + 1) =~= conn@.degrees.rows.take(i as int).push(conn@.degrees.rows[i as int]));
            assert(out@.map_values(|d: Degree| d@) =~= conn@.degrees.rows.take(i as int).push(conn@.degrees.rows[i as int]));
            i = i + 1;
        }
        assert(conn@.degrees.rows.take(m as int) =~= conn@.degrees.first_rows(10));
        DegreeList(out)
    }
}

} // verus!
