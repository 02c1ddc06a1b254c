use vstd::prelude::*;
use crate::db::{
    changed, changed_nullable, copy_text, delete_key, remove_key, row_with_key,
    text_or_default, text_or_empty, update_key, Database, DatabaseView, DbError, Record,
};

verus! {

/// A requirement of the catalog: a group of requirements or a class.
#[derive(Debug)]
pub struct Component {
    pub id: i32,
    pub name: String,
    pub pftype: String,
    pub logic_type: Option<String>,
}

pub struct ComponentView {
    pub id: i32,
    pub name: Seq<char>,
    pub pftype: Seq<char>,
    pub logic_type: Option<Seq<char>>,
}

impl View for Component {
    type V = ComponentView;

    open spec fn view(&self) -> ComponentView {
        ComponentView {
            id: self.id,
            name: self.name@,
            pftype: self.pftype@,
            logic_type: self.logic_type.deep_view(),
        }
    }
}

impl Record for Component {
    open spec fn key_of(v: ComponentView) -> i32 {
        v.id
    }

    fn id_of(&self) -> (r: i32) {
        self.id
    }

    fn duplicate(&self) -> (r: Component) {
        Component {
            id: self.id,
            name: self.name.clone(),
            pftype: self.pftype.clone(),
            logic_type: copy_text(&self.logic_type),
        }
    }
}

/// The position of the first component named `name`.
pub open spec fn first_component_named(rows: Seq<ComponentView>, name: Seq<char>, i: int) -> bool {
    &&& 0 <= i < rows.len()
    &&& rows[i].name == name
    &&& forall|j: int| 0 <= j < i ==> (#[trigger] rows[j]).name != name
}

/// Some component is named `name`.
pub open spec fn has_component_named(rows: Seq<ComponentView>, name: Seq<char>) -> bool {
    exists|i: int| 0 <= i < rows.len() && (#[trigger] rows[i]).name == name
}

/// The first component named `name`, where there is one.
pub open spec fn component_named(rows: Seq<ComponentView>, name: Seq<char>) -> Option<ComponentView> {
    if has_component_named(rows, name) {
        Some(rows[choose|i: int| first_component_named(rows, name, i)])
    } else {
        None
    }
}

impl Component {
    /// The component with id `id`.
    pub fn find(id: &i32, conn: &mut Database) -> (r: Result<Component, DbError>)
        requires
            old(conn).wf(),
        ensures
            *final(conn) == *old(conn),
            match r {
                Ok(c) => row_with_key::<Component>(old(conn)@.components.rows, *id) == Some(c@),
                Err(e) => e == DbError::NotFound
                    && row_with_key::<Component>(old(conn)@.components.rows, *id) is None,
            },
    {
        match conn.components.position(*id) {
            Some(i) => Ok(conn.components.get(i).duplicate()),
            None => Err(DbError::NotFound),
        }
    }

    /// The first component named `name`.
    pub fn find_by_name(name: &str, conn: &mut Database) -> (r: Result<Component, DbError>)
        requires
            old(conn).wf(),
        ensures
            *final(conn) == *old(conn),
            match r {
                Ok(c) => component_named(old(conn)@.components.rows, name@) == Some(c@),
                Err(e) => e == DbError::NotFound
                    && component_named(old(conn)@.components.rows, name@) is None,
            },
    {
        let wanted = name.to_owned();
        let ghost rows = conn@.components.rows;
        let n = conn.components.len();
        let mut i: usize = 0;
        while i < n
            invariant
                n == rows.len(),
                rows == conn@.components.rows,
                wanted@ == name@,
                0 <= i <= n,
                forall|j: int| 0 <= j < i ==> (#[trigger] rows[j]).name != name@,
            decreases n - i,
        {
            let c = conn.components.get(i);
            if c.name == wanted {
                proof {
                    assert(first_component_named(rows, name@, i as int));
                    let k = choose|k: int| first_component_named(rows, name@, k);
                    assert(k == i);
                }
                return Ok(c.duplicate());
            }
            i = i + 1;
        }
        Err(DbError::NotFound)
    }

    /// Deletes the component with id `id`; nothing happens where there is none.
    pub fn destroy(id: &i32, conn: &mut Database) -> (r: Result<(), DbError>)
        requires
            old(conn).wf(),
        ensures
            final(conn).wf(),
            r is Ok,
            final(conn)@ == (DatabaseView {
                components: old(conn)@.components.with_rows(
                    remove_key::<Component>(old(conn)@.components.rows, *id),
                ),
                ..old(conn)@
            }),
    {
        delete_key(&mut conn.components, *id);
        Ok(())
    }

    /// Sets the columns that `new_university` sets on the component with id `id`.
    pub fn update(id: &i32, new_university: &NewComponent, conn: &mut Database) -> (r: Result<
        (),
        DbError,
    >)
        requires
            old(conn).wf(),
        ensures
            final(conn).wf(),
            !new_university.has_changes() ==> r == Err::<(), DbError>(DbError::EmptyChangeset)
                && *final(conn) == *old(conn),
            new_university.has_changes() ==> r is Ok && final(conn)@ == (DatabaseView {
                components: old(conn)@.components.with_rows(
                    update_key::<Component>(
                        old(conn)@.components.rows,
                        *id,
                        |c: ComponentView| new_university.apply(c),
                    ),
                ),
                ..old(conn)@
            }),
    {
        if !new_university.has_any_change() {
            return Err(DbError::EmptyChangeset);
        }
        match conn.components.position(*id) {
            Some(i) => {
                let row = new_university.applied(conn.components.get(i));
                proof {
                    let rows = old(conn)@.components.rows;
                    let j = choose|j: int| 0 <= j < rows.len() && rows[j].id == *id;
                    crate::db::lemma_key_unique::<Component>(old(conn)@.components, *id, i as int, j);
                }
                conn.components.replace(i, row);
            },
            None => {
                assert(old(conn)@.components.with_rows(old(conn)@.components.rows) == old(conn)@.components);
            },
        }
        Ok(())
    }
}

impl Component {
    /// Sets the logic type of the component with id `id`.
    pub fn update_logic_type(id: &i32, logic_type: String, conn: &mut Database) -> (r: Result<(), DbError>)
        requires
            old(conn).wf(),
        ensures
            final(conn).wf(),
            r is Ok,
            final(conn)@ == (DatabaseView {
                components: old(conn)@.components.with_rows(
                    update_key::<Component>(
                        old(conn)@.components.rows,
                        *id,
                        |c: ComponentView| ComponentView { logic_type: Some(logic_type@), ..c },
                    ),
                ),
                ..old(conn)@
            }),
    {
        let ghost l = logic_type@;
        let change = NewComponent { name: None, pftype: None, logic_type: Some(logic_type) };
        let r = Component::update(id, &change, conn);
        assert((|c: ComponentView| change.apply(c)) =~= (|c: ComponentView| ComponentView { logic_type: Some(l), ..c }));
        r
    }
}

/// The columns of a component to insert or to change.
#[derive(Debug)]
pub struct NewComponent {
    pub name: Option<String>,
    pub pftype: Option<String>,
    pub logic_type: Option<String>,
}

impl NewComponent {
    /// Some column is set.
    pub open spec fn has_changes(&self) -> bool {
        self.name is Some || self.pftype is Some || self.logic_type is Some
    }

    /// `c` with the columns that are set here changed.
    pub open spec fn apply(&self, c: ComponentView) -> ComponentView {
        ComponentView {
            id: c.id,
            name: changed(c.name, self.name.deep_view()),
            pftype: changed(c.pftype, self.pftype.deep_view()),
            logic_type: changed_nullable(c.logic_type, self.logic_type.deep_view()),
        }
    }

    /// The row inserted with id `id`, for a set name and type (an unset one is
    /// refused).
    pub open spec fn row(&self, id: i32) -> ComponentView {
        ComponentView {
            id,
            name: text_or_empty(self.name.deep_view()),
            pftype: text_or_empty(self.pftype.deep_view()),
            logic_type: self.logic_type.deep_view(),
        }
    }

    fn has_any_change(&self) -> (b: bool)
        ensures
            b == self.has_changes(),
    {
        self.name.is_some() || self.pftype.is_some() || self.logic_type.is_some()
    }

    fn applied(&self, c: &Component) -> (r: Component)
        ensures
            r@ == self.apply(c@),
    {
        Component {
            id: c.id,
            name: match &self.name {
                Some(s) => s.clone(),
                None => c.name.clone(),
            },
            pftype: match &self.pftype {
                Some(s) => s.clone(),
                None => c.pftype.clone(),
            },
            logic_type: match &self.logic_type {
                Some(s) => Some(s.clone()),
                None => copy_text(&c.logic_type),
            },
        }
    }

    /// Inserts a component with these columns; an unset name or type is refused.
    pub fn create(&self, conn: &mut Database) -> (r: Result<Component, DbError>)
        requires
            old(conn).wf(),
        ensures
            final(conn).wf(),
            match r {
                Ok(c) => (self.name is Some && self.pftype is Some)
                    && old(conn)@.components.last_id < i32::MAX
                    && c@ == self.row((old(conn)@.components.last_id + 1) as i32)
                    && final(conn)@ == (DatabaseView {
                        components: old(conn)@.components.push(c@),
                        ..old(conn)@
                    }),
                Err(e) => *final(conn) == *old(conn) && (
                    (e == DbError::NotNullViolation && !((self.name is Some && self.pftype is Some)))
                    || (e == DbError::SequenceExhausted && (self.name is Some && self.pftype is Some) && old(conn)@.components.last_id == i32::MAX)),
            },
    {
        if !(self.name.is_some() && self.pftype.is_some()) {
            return Err(DbError::NotNullViolation);
        }
        let id = conn.components.next_id()?;
        let row = Component {
            id,
            name: text_or_default(&self.name),
            pftype: text_or_default(&self.pftype),
            logic_type: copy_text(&self.logic_type),
        };
        let out = row.duplicate();
        conn.components.insert(row);
        Ok(out)
    }

    /// Inserts a component of type `class` with the name and logic type given here;
    /// an unset name is refused.
    pub fn create_class_component(&self, conn: &mut Database) -> (r: Result<Component, DbError>)
        requires
            old(conn).wf(),
        ensures
            final(conn).wf(),
            match r {
                Ok(c) => self.name is Some
                    && old(conn)@.components.last_id < i32::MAX
                    && c@ == (NewComponentView {
                        name: self.name.deep_view(),
                        pftype: Some("class"@),
                        logic_type: self.logic_type.deep_view(),
                    }).row((old(conn)@.components.last_id + 1) as i32)
                    && final(conn)@ == (DatabaseView {
                        components: old(conn)@.components.push(c@),
                        ..old(conn)@
                    }),
                Err(e) => *final(conn) == *old(conn) && (
                    (e == DbError::NotNullViolation && !(self.name is Some))
                    || (e == DbError::SequenceExhausted && self.name is Some && old(conn)@.components.last_id == i32::MAX)),
            },
    {
        if !(self.name.is_some()) {
            return Err(DbError::NotNullViolation);
        }
        let class_component = NewComponent {
            name: copy_text(&self.name),
            pftype: Some("class".to_owned()),
            logic_type: copy_text(&self.logic_type),
        };
        class_component.create(conn)
    }
}

/// The columns of a component to insert, as values.
pub struct NewComponentView {
    pub name: Option<Seq<char>>,
    pub pftype: Option<Seq<char>>,
    pub logic_type: Option<Seq<char>>,
}

impl NewComponentView {
    /// The row inserted with id `id`, for a set name and type (an unset one is
    /// refused).
    pub open spec fn row(self, id: i32) -> ComponentView {
        ComponentView {
            id,
            name: text_or_empty(self.name),
            pftype: text_or_empty(self.pftype),
            logic_type: self.logic_type,
        }
    }
}

/// A page of components.
pub struct ComponentList(pub Vec<Component>);

impl ComponentList {
    /// The first ten components.
    pub fn list(conn: &mut Database) -> (r: Self)
        requires
            old(conn).wf(),
        ensures
            *final(conn) == *old(conn),
            r.0@.map_values(|c: Component| c@) == old(conn)@.components.first_rows(10),
    {
        let n = conn.components.len();
        let m: usize = if n < 10 { n } else { 10 };
        let mut out: Vec<Component> = Vec::new();
        let mut i: usize = 0;
        while i < m
            invariant
                m <= n == conn@.components.rows.len(),
                m == (if n < 10 { n } else { 10 }),
                0 <= i <= m,
                out@.map_values(|c: Component| c@) == conn@.components.rows.take(i as int),
            decreases m - i,
        {
            out.push(conn.components.get(i).duplicate());
            assert(conn@.components.rows.take(i + 1) =~= conn@.components.rows.take(i as int).push(conn@.components.rows[i as int]));
            assert(out@.map_values(|c: Component| c@) =~= conn@.components.rows.take(i as int).push(conn@.components.rows[i as int]));
            i = i + 1;
        }
        assert(conn@.components.rows.take(m as int) =~= conn@.components.first_rows(10));
        ComponentList(out)
    }
}

} // verus!
