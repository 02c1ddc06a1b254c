use vstd::prelude::*;
use crate::db::{
    changed, changed_nullable, copy_text, delete_key, remove_key, row_with_key, text_or_default,
    text_or_empty, update_key, Database, DatabaseView, DbError, Record,
};

verus! {

/// A class of the catalog, with the component that stands for it.
#[derive(Debug)]
pub struct Class {
    pub id: i32,
    pub name: String,
    pub description: Option<String>,
    pub credits: Option<i32>,
    pub pftype: String,
    pub subject: Option<String>,
    pub course_no: Option<String>,
    pub options: Option<String>,
    pub component_id: Option<i32>,
}

pub struct ClassView {
    pub id: i32,
    pub name: Seq<char>,
    pub description: Option<Seq<char>>,
    pub credits: Option<i32>,
    pub pftype: Seq<char>,
    pub subject: Option<Seq<char>>,
    pub course_no: Option<Seq<char>>,
    pub options: Option<Seq<char>>,
    pub component_id: Option<i32>,
}

impl View for Class {
    type V = ClassView;

    open spec fn view(&self) -> ClassView {
        ClassView {
            id: self.id,
            name: self.name@,
            description: self.description.deep_view(),
            credits: self.credits,
            pftype: self.pftype@,
            subject: self.subject.deep_view(),
            course_no: self.course_no.deep_view(),
            options: self.options.deep_view(),
            component_id: self.component_id,
        }
    }
}

impl Record for Class {
    open spec fn key_of(v: ClassView) -> i32 {
        v.id
    }

    fn id_of(&self) -> (r: i32) {
        self.id
    }

    fn duplicate(&self) -> (r: Class) {
        Class {
            id: self.id,
            name: self.name.clone(),
            description: copy_text(&self.description),
            credits: self.credits,
            pftype: self.pftype.clone(),
            subject: copy_text(&self.subject),
            course_no: copy_text(&self.course_no),
            options: copy_text(&self.options),
            component_id: self.component_id,
        }
    }
}

/// The position of the first class that `p` accepts.
pub open spec fn first_class_where(rows: Seq<ClassView>, p: spec_fn(ClassView) -> bool, i: int) -> bool {
    &&& 0 <= i < rows.len()
    &&& p(rows[i])
    &&& forall|j: int| 0 <= j < i ==> !p(#[trigger] rows[j])
}

/// The first class that `p` accepts, where there is one.
pub open spec fn class_where(rows: Seq<ClassView>, p: spec_fn(ClassView) -> bool) -> Option<ClassView> {
    if exists|i: int| 0 <= i < rows.len() && p(#[trigger] rows[i]) {
        Some(rows[choose|i: int| first_class_where(rows, p, i)])
    } else {
        None
    }
}

/// The first class named `name`, where there is one.
pub open spec fn class_named(rows: Seq<ClassView>, name: Seq<char>) -> Option<ClassView> {
    class_where(rows, |c: ClassView| c.name == name)
}

/// The first class of the component `component_id`, where there is one.
pub open spec fn class_of_component(rows: Seq<ClassView>, component_id: i32) -> Option<ClassView> {
    class_where(rows, |c: ClassView| c.component_id == Some(component_id))
}

impl Class {
    /// The class with id `id`.
    pub fn find(id: &i32, conn: &mut Database) -> (r: Result<Class, DbError>)
        requires
            old(conn).wf(),
        ensures
            *final(conn) == *old(conn),
            match r {
                Ok(c) => row_with_key::<Class>(old(conn)@.classes.rows, *id) == Some(c@),
                Err(e) => e == DbError::NotFound
                    && row_with_key::<Class>(old(conn)@.classes.rows, *id) is None,
            },
    {
        match conn.classes.position(*id) {
            Some(i) => Ok(conn.classes.get(i).duplicate()),
            None => Err(DbError::NotFound),
        }
    }

    /// The first class named `name`.
    pub fn find_by_name(name: &str, conn: &mut Database) -> (r: Result<Class, DbError>)
        requires
            old(conn).wf(),
        ensures
            *final(conn) == *old(conn),
            match r {
                Ok(c) => class_named(old(conn)@.classes.rows, name@) == Some(c@),
                Err(e) => e == DbError::NotFound && class_named(old(conn)@.classes.rows, name@) is None,
            },
    {
        let wanted = name.to_owned();
        let ghost rows = conn@.classes.rows;
        let ghost p = |c: ClassView| c.name == name@;
        let n = conn.classes.len();
        let mut i: usize = 0;
        while i < n
            invariant
                n == rows.len(),
                rows == conn@.classes.rows,
                wanted@ == name@,
                p == (|c: ClassView| c.name == name@),
                0 <= i <= n,
                forall|j: int| 0 <= j < i ==> !p(#[trigger] rows[j]),
            decreases n - i,
        {
            let c = conn.classes.get(i);
            if c.name == wanted {
                proof {
                    assert(p(rows[i as int]));
                    assert(first_class_where(rows, p, i as int));
                    let k = choose|k: int| first_class_where(rows, p, k);
                    assert(k == i);
                }
                return Ok(c.duplicate());
            }
            i = i + 1;
        }
        Err(DbError::NotFound)
    }

    /// The first class whose component is `component_id`.
    pub fn find_by_component_id(component_id: &i32, conn: &mut Database) -> (r: Result<Class, DbError>)
        requires
            old(conn).wf(),
        ensures
            *final(conn) == *old(conn),
            match r {
                Ok(c) => class_of_component(old(conn)@.classes.rows, *component_id) == Some(c@),
                Err(e) => e == DbError::NotFound
                    && class_of_component(old(conn)@.classes.rows, *component_id) is None,
            },
    {
        let ghost rows = conn@.classes.rows;
        let ghost p = |c: ClassView| c.component_id == Some(*component_id);
        let n = conn.classes.len();
        let mut i: usize = 0;
        while i < n
            invariant
                n == rows.len(),
                rows == conn@.classes.rows,
                p == (|c: ClassView| c.component_id == Some(*component_id)),
                0 <= i <= n,
                forall|j: int| 0 <= j < i ==> !p(#[trigger] rows[j]),
            decreases n - i,
        {
            let c = conn.classes.get(i);
            if c.component_id == Some(*component_id) {
                proof {
                    assert(p(rows[i as int]));
                    assert(first_class_where(rows, p, i as int));
                    let k = choose|k: int| first_class_where(rows, p, k);
                    assert(k == i);
                }
                return Ok(c.duplicate());
            }
            i = i + 1;
        }
        Err(DbError::NotFound)
    }

    /// Deletes the class with id `id`; nothing happens where there is none.
    pub fn destroy(id: &i32, conn: &mut Database) -> (r: Result<(), DbError>)
        requires
            old(conn).wf(),
        ensures
            final(conn).wf(),
            r is Ok,
            final(conn)@ == (DatabaseView {
                classes: old(conn)@.classes.with_rows(remove_key::<Class>(old(conn)@.classes.rows, *id)),
                ..old(conn)@
            }),
    {
        delete_key(&mut conn.classes, *id);
        Ok(())
    }

    /// Sets the columns that `new_university` sets on the class with id `id`.
    pub fn update(id: &i32, new_university: &NewClass, conn: &mut Database) -> (r: Result<(), DbError>)
        requires
            old(conn).wf(),
        ensures
            final(conn).wf(),
            !new_university.has_changes() ==> r == Err::<(), DbError>(DbError::EmptyChangeset)
                && *final(conn) == *old(conn),
            new_university.has_changes() ==> r is Ok && final(conn)@ == (DatabaseView {
                classes: old(conn)@.classes.with_rows(
                    update_key::<Class>(old(conn)@.classes.rows, *id, |c: ClassView| new_university.apply(c)),
                ),
                ..old(conn)@
            }),
    {
        if !new_university.has_any_change() {
            return Err(DbError::EmptyChangeset);
        }
        match conn.classes.position(*id) {
            Some(i) => {
                let row = new_university.applied(conn.classes.get(i));
                proof {
                    let rows = old(conn)@.classes.rows;
                    let j = choose|j: int| 0 <= j < rows.len() && rows[j].id == *id;
                    crate::db::lemma_key_unique::<Class>(old(conn)@.classes, *id, i as int, j);
                }
                conn.classes.replace(i, row);
            },
            None => {
                assert(old(conn)@.classes.with_rows(old(conn)@.classes.rows) == old(conn)@.classes);
            },
        }
        Ok(())
    }
}

/// The columns of a class to insert or to change.
#[derive(Debug)]
pub struct NewClass {
    pub name: Option<String>,
    pub description: Option<String>,
    pub credits: Option<i32>,
    pub pftype: Option<String>,
    pub subject: Option<String>,
    pub course_no: Option<String>,
    pub options: Option<String>,
    pub component_id: Option<i32>,
}

impl NewClass {
    /// Some column is set.
    pub open spec fn has_changes(&self) -> bool {
        ||| self.name is Some
        ||| self.description is Some
        ||| self.credits is Some
        ||| self.pftype is Some
        ||| self.subject is Some
        ||| self.course_no is Some
        ||| self.options is Some
        ||| self.component_id is Some
    }

    /// `c` with the columns that are set here changed.
    pub open spec fn apply(&self, c: ClassView) -> ClassView {
        ClassView {
            id: c.id,
            name: changed(c.name, self.name.deep_view()),
            description: changed_nullable(c.description, self.description.deep_view()),
            credits: changed_nullable(c.credits, self.credits),
            pftype: changed(c.pftype, self.pftype.deep_view()),
            subject: changed_nullable(c.subject, self.subject.deep_view()),
            course_no: changed_nullable(c.course_no, self.course_no.deep_view()),
            options: changed_nullable(c.options, self.options.deep_view()),
            component_id: changed_nullable(c.component_id, self.component_id),
        }
    }

    /// The row inserted with id `id`, for a set name (an unset name is refused): an
    /// unset type takes its column default, the empty text, as every class that the
    /// catalogs store leaves it unset.
    pub open spec fn row(&self, id: i32) -> ClassView {
        ClassView {
            id,
            name: text_or_empty(self.name.deep_view()),
            description: self.description.deep_view(),
            credits: self.credits,
            pftype: text_or_empty(self.pftype.deep_view()),
            subject: self.subject.deep_view(),
            course_no: self.course_no.deep_view(),
            options: self.options.deep_view(),
            component_id: self.component_id,
        }
    }

    fn has_any_change(&self) -> (b: bool)
        ensures
            b == self.has_changes(),
    {
        self.name.is_some() || self.description.is_some() || self.credits.is_some()
            || self.pftype.is_some() || self.subject.is_some() || self.course_no.is_some()
            || self.options.is_some() || self.component_id.is_some()
    }

    fn applied(&self, c: &Class) -> (r: Class)
        ensures
            r@ == self.apply(c@),
    {
        Class {
            id: c.id,
            name: match &self.name {
                Some(s) => s.clone(),
                None => c.name.clone(),
            },
            description: match &self.description {
                Some(s) => Some(s.clone()),
                None => copy_text(&c.description),
            },
            credits: match self.credits {
                Some(v) => Some(v),
                None => c.credits,
            },
            pftype: match &self.pftype {
                Some(s) => s.clone(),
                None => c.pftype.clone(),
            },
            subject: match &self.subject {
                Some(s) => Some(s.clone()),
                None => copy_text(&c.subject),
            },
            course_no: match &self.course_no {
                Some(s) => Some(s.clone()),
                None => copy_text(&c.course_no),
            },
            options: match &self.options {
                Some(s) => Some(s.clone()),
                None => copy_text(&c.options),
            },
            component_id: match self.component_id {
                Some(v) => Some(v),
                None => c.component_id,
            },
        }
    }

    /// Inserts a class with these columns; an unset name is refused.
    pub fn create(&self, conn: &mut Database) -> (r: Result<Class, DbError>)
        requires
            old(conn).wf(),
        ensures
            final(conn).wf(),
            match r {
                Ok(c) => self.name is Some
                    && old(conn)@.classes.last_id < i32::MAX
                    && c@ == self.row((old(conn)@.classes.last_id + 1) as i32)
                    && final(conn)@ == (DatabaseView { classes: old(conn)@.classes.push(c@), ..old(conn)@ }),
                Err(e) => *final(conn) == *old(conn) && (
                    (e == DbError::NotNullViolation && !(self.name is Some))
                    || (e == DbError::SequenceExhausted && self.name is Some && old(conn)@.classes.last_id == i32::MAX)),
            },
    {
        if !self.name.is_some() {
            return Err(DbError::NotNullViolation);
        }
        let id = conn.classes.next_id()?;
        let row = Class {
            id,
            name: text_or_default(&self.name),
            description: copy_text(&self.description),
            credits: self.credits,
            pftype: text_or_default(&self.pftype),
            subject: copy_text(&self.subject),
            course_no: copy_text(&self.course_no),
            options: copy_text(&self.options),
            component_id: self.component_id,
        };
        let out = row.duplicate();
        conn.classes.insert(row);
        Ok(out)
    }

    /// Inserts a class with only a name, credits and a component.
    pub fn new_simple_class(
        &self,
        conn: &mut Database,
        passed_name: String,
        passed_credits: i32,
        passed_component_id: i32,
    ) -> (r: Result<Class, DbError>)
        requires
            old(conn).wf(),
        ensures
            final(conn).wf(),
            match r {
                Ok(c) => old(conn)@.classes.last_id < i32::MAX
                    && c@ == (ClassView {
                        id: (old(conn)@.classes.last_id + 1) as i32,
                        name: passed_name@,
                        description: None,
                        credits: Some(passed_credits),
                        pftype: Seq::empty(),
                        subject: None,
                        course_no: None,
                        options: None,
                        component_id: Some(passed_component_id),
                    })
                    && final(conn)@ == (DatabaseView { classes: old(conn)@.classes.push(c@), ..old(conn)@ }),
                Err(e) => e == DbError::SequenceExhausted
                    && old(conn)@.classes.last_id == i32::MAX
                    && *final(conn) == *old(conn),
            },
    {
        let simple = NewClass {
            name: Some(passed_name),
            description: None,
            credits: Some(passed_credits),
            pftype: None,
            subject: None,
            course_no: None,
            options: None,
            component_id: Some(passed_component_id),
        };
        simple.create(conn)
    }
}

/// The columns of a class with only a name, credits and a component.
#[derive(Debug)]
pub struct SimpleClass {
    pub name: Option<String>,
    pub credits: Option<i32>,
    pub component_id: Option<i32>,
}

impl SimpleClass {
    /// Inserts a class with these columns; the other columns are unset, and an
    /// unset name is refused.
    pub fn create(&self, conn: &mut Database) -> (r: Result<Class, DbError>)
        requires
            old(conn).wf(),
        ensures
            final(conn).wf(),
            match r {
                Ok(c) => self.name is Some
                    && old(conn)@.classes.last_id < i32::MAX
                    && c@ == (ClassView {
                        id: (old(conn)@.classes.last_id + 1) as i32,
                        name: text_or_empty(self.name.deep_view()),
                        description: None,
                        credits: self.credits,
                        pftype: Seq::empty(),
                        subject: None,
                        course_no: None,
                        options: None,
                        component_id: self.component_id,
                    })
                    && final(conn)@ == (DatabaseView { classes: old(conn)@.classes.push(c@), ..old(conn)@ }),
                Err(e) => *final(conn) == *old(conn) && (
                    (e == DbError::NotNullViolation && !(self.name is Some))
                    || (e == DbError::SequenceExhausted && self.name is Some && old(conn)@.classes.last_id == i32::MAX)),
            },
    {
        let full = NewClass {
            name: copy_text(&self.name),
            description: None,
            credits: self.credits,
            pftype: None,
            subject: None,
            course_no: None,
            options: None,
            component_id: self.component_id,
        };
        full.create(conn)
    }
}

/// A page of classes.
pub struct ClassList(pub Vec<Class>);

impl ClassList {
    /// The first ten classes.
    pub fn list(conn: &mut Database) -> (r: Self)
        requires
            old(conn).wf(),
        ensures
            *final(conn) == *old(conn),
            r.0@.map_values(|c: Class| c@) == old(conn)@.classes.first_rows(10),
    {
        let n = conn.classes.len();
        let m: usize = if n < 10 { n } else { 10 };
        let mut out: Vec<Class> = Vec::new();
        let mut i: usize = 0;
        while i < m
            invariant
                m <= n == conn@.classes.rows.len(),
                m == (if n < 10 { n } else { 10 }),
                0 <= i <= m,
                out@.map_values(|c: Class| c@) == conn@.classes.rows.take(i as int),
            decreases m - i,
        {
            out.push(conn.classes.get(i).duplicate());
            assert(conn@.classes.rows.take(i + 1) =~= conn@.classes.rows.take(i as int).push(conn@.classes.rows[i as int]));
            assert(out@.map_values(|c: Class| c@) =~= conn@.classes.rows.take(i as int).push(conn@.classes.rows[i as int]));
            i = i + 1;
        }
        assert(conn@.classes.rows.take(m as int) =~= conn@.classes.first_rows(10));
        ClassList(out)
    }
}

} // verus!
