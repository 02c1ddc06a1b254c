use vstd::prelude::*;
use crate::db::{row_with_key, text_or_default, text_or_empty, Database, DatabaseView, DbError, Record};
use crate::models::component::{Component, ComponentView};
use crate::models::degree::{Degree, DegreeView};

verus! {

/// An edge of the requirement graph: `child_id` is a requirement of `parent_id`.
#[derive(Debug)]
pub struct ComponentToComponent {
    pub id: i32,
    pub parent_id: i32,
    pub child_id: i32,
    pub association_type: String,
    pub logic_type: String,
}

pub struct ComponentToComponentView {
    pub id: i32,
    pub parent_id: i32,
    pub child_id: i32,
    pub association_type: Seq<char>,
    pub logic_type: Seq<char>,
}

impl View for ComponentToComponent {
    type V = ComponentToComponentView;

    open spec fn view(&self) -> ComponentToComponentView {
        ComponentToComponentView {
            id: self.id,
            parent_id: self.parent_id,
            child_id: self.child_id,
            association_type: self.association_type@,
            logic_type: self.logic_type@,
        }
    }
}

impl Record for ComponentToComponent {
    open spec fn key_of(v: ComponentToComponentView) -> i32 {
        v.id
    }

    fn id_of(&self) -> (r: i32) {
        self.id
    }

    fn duplicate(&self) -> (r: ComponentToComponent) {
        ComponentToComponent {
            id: self.id,
            parent_id: self.parent_id,
            child_id: self.child_id,
            association_type: self.association_type.clone(),
            logic_type: self.logic_type.clone(),
        }
    }
}

/// Some edge leads from `parent` to `child`.
pub open spec fn links_to(assocs: Seq<ComponentToComponentView>, parent: i32, child: i32) -> bool {
    exists|i: int| 0 <= i < assocs.len() && (#[trigger] assocs[i]).parent_id == parent && assocs[i].child_id == child
}

/// The components that are children of `parent`, in table order.
pub open spec fn children_of(db: DatabaseView, parent: i32) -> Seq<ComponentView> {
    db.components.rows.filter(|c: ComponentView| links_to(db.component_assocs.rows, parent, c.id))
}

/// The components that are parents of `child`, in table order.
pub open spec fn parents_of(db: DatabaseView, child: i32) -> Seq<ComponentView> {
    db.components.rows.filter(|c: ComponentView| links_to(db.component_assocs.rows, c.id, child))
}

/// The components whose id `wanted` accepts, in table order.
fn components_where(conn: &Database, wanted: &Vec<i32>) -> (r: Vec<Component>)
    ensures
        r@.map_values(|c: Component| c@) == conn@.components.rows.filter(|c: ComponentView| wanted@.contains(c.id)),
{
    let ghost rows = conn@.components.rows;
    let ghost p = |c: ComponentView| wanted@.contains(c.id);
    let n = conn.components.len();
    let mut out: Vec<Component> = Vec::new();
    let mut i: usize = 0;
    while i < n
        invariant
            n == rows.len(),
            rows == conn@.components.rows,
            p == (|c: ComponentView| wanted@.contains(c.id)),
            0 <= i <= n,
            out@.map_values(|c: Component| c@) == rows.take(i as int).filter(p),
        decreases n - i,
    {
        let c = conn.components.get(i);
        let mut found = false;
        let mut k: usize = 0;
        while k < wanted.len()
            invariant
                0 <= k <= wanted@.len(),
                found == (exists|j: int| 0 <= j < k && wanted@[j] == c.id),
            decreases wanted@.len() - k,
        {
            if wanted[k] == c.id {
                found = true;
            }
            k = k + 1;
        }
        proof {
            reveal_with_fuel(Seq::<_>::filter, 1);
            assert(rows.take(i + 1).drop_last() =~= rows.take(i as int));
            assert(found == p(rows[i as int]));
        }
        if found {
            out.push(c.duplicate());
        }
        proof {
            assert(out@.map_values(|c: Component| c@) =~= rows.take(i + 1).filter(p));
        }
        i = i + 1;
    }
    assert(rows.take(n as int) =~= rows);
    out
}

impl ComponentToComponent {
    /// The edges that leave `component`, in table order.
    pub fn get_assoc_from_parent(component: &Component, conn: &mut Database) -> (r: Result<
        Vec<ComponentToComponent>,
        DbError,
    >)
        requires
            old(conn).wf(),
        ensures
            *final(conn) == *old(conn),
            r matches Ok(v) && v@.map_values(|a: ComponentToComponent| a@)
                == old(conn)@.component_assocs.rows.filter(
                |a: ComponentToComponentView| a.parent_id == component.id,
            ),
    {
        let ghost rows = conn@.component_assocs.rows;
        let ghost p = |a: ComponentToComponentView| a.parent_id == component.id;
        let n = conn.component_assocs.len();
        let mut out: Vec<ComponentToComponent> = Vec::new();
        let mut i: usize = 0;
        while i < n
            invariant
                n == rows.len(),
                rows == conn@.component_assocs.rows,
                p == (|a: ComponentToComponentView| a.parent_id == component.id),
                0 <= i <= n,
                out@.map_values(|a: ComponentToComponent| a@) == rows.take(i as int).filter(p),
            decreases n - i,
        {
            let a = conn.component_assocs.get(i);
            proof {
                reveal_with_fuel(Seq::<_>::filter, 1);
                assert(rows.take(i + 1).drop_last() =~= rows.take(i as int));
            }
            if a.parent_id == component.id {
                out.push(a.duplicate());
            }
            proof {
                assert(out@.map_values(|a: ComponentToComponent| a@) =~= rows.take(i + 1).filter(p));
            }
            i = i + 1;
        }
        assert(rows.take(n as int) =~= rows);
        Ok(out)
    }

    /// The edges that reach `component`, in table order.
    pub fn get_assoc_from_child(component: &Component, conn: &mut Database) -> (r: Result<
        Vec<ComponentToComponent>,
        DbError,
    >)
        requires
            old(conn).wf(),
        ensures
            *final(conn) == *old(conn),
            r matches Ok(v) && v@.map_values(|a: ComponentToComponent| a@)
                == old(conn)@.component_assocs.rows.filter(
                |a: ComponentToComponentView| a.child_id == component.id,
            ),
    {
        let ghost rows = conn@.component_assocs.rows;
        let ghost p = |a: ComponentToComponentView| a.child_id == component.id;
        let n = conn.component_assocs.len();
        let mut out: Vec<ComponentToComponent> = Vec::new();
        let mut i: usize = 0;
        while i < n
            invariant
                n == rows.len(),
                rows == conn@.component_assocs.rows,
                p == (|a: ComponentToComponentView| a.child_id == component.id),
                0 <= i <= n,
                out@.map_values(|a: ComponentToComponent| a@) == rows.take(i as int).filter(p),
            decreases n - i,
        {
            let a = conn.component_assocs.get(i);
            proof {
                reveal_with_fuel(Seq::<_>::filter, 1);
                assert(rows.take(i + 1).drop_last() =~= rows.take(i as int));
            }
            if a.child_id == component.id {
                out.push(a.duplicate());
            }
            proof {
                assert(out@.map_values(|a: ComponentToComponent| a@) =~= rows.take(i + 1).filter(p));
            }
            i = i + 1;
        }
        assert(rows.take(n as int) =~= rows);
        Ok(out)
    }

    /// The children of `component`, in table order.
    pub fn get_children(component: &Component, conn: &mut Database) -> (r: Result<Vec<Component>, DbError>)
        requires
            old(conn).wf(),
        ensures
            *final(conn) == *old(conn),
            r matches Ok(v) && v@.map_values(|c: Component| c@) == children_of(old(conn)@, component.id),
    {
        let ghost assocs = conn@.component_assocs.rows;
        let n = conn.component_assocs.len();
        let mut child_ids: Vec<i32> = Vec::new();
        let mut i: usize = 0;
        while i < n
            invariant
                n == assocs.len(),
                assocs == conn@.component_assocs.rows,
                0 <= i <= n,
                forall|x: i32| child_ids@.contains(x) <==>
                    (exists|j: int| 0 <= j < i && (#[trigger] assocs[j]).parent_id == component.id && assocs[j].child_id == x),
            decreases n - i,
        {
            let a = conn.component_assocs.get(i);
            if a.parent_id == component.id {
                let ghost before = child_ids@;
                child_ids.push(a.child_id);
                assert forall|x: i32| child_ids@.contains(x) <==>
                    (exists|j: int| 0 <= j < i + 1 && (#[trigger] assocs[j]).parent_id == component.id && assocs[j].child_id == x) by {
                    if child_ids@.contains(x) && x != a.child_id {
                        let k = choose|k: int| 0 <= k < child_ids@.len() && child_ids@[k] == x;
                        assert(before[k] == x);
                        assert(before.contains(x));
                    }
                    if exists|j: int| 0 <= j < i + 1 && (#[trigger] assocs[j]).parent_id == component.id && assocs[j].child_id == x {
                        if x != a.child_id {
                            let j = choose|j: int| 0 <= j < i + 1 && (#[trigger] assocs[j]).parent_id == component.id && assocs[j].child_id == x;
                            assert(j < i);
                            assert(before.contains(x));
                            let k = choose|k: int| 0 <= k < before.len() && before[k] == x;
                            assert(child_ids@[k] == x);
                        } else {
                            assert(child_ids@[child_ids@.len() - 1] == x);
                        }
                    }
                }
            }
            i = i + 1;
        }
        let out = components_where(conn, &child_ids);
        assert((|c: ComponentView| child_ids@.contains(c.id)) =~= (|c: ComponentView| links_to(assocs, component.id, c.id)));
        Ok(out)
    }

    /// The parents of `component`, in table order.
    pub fn get_parents(&self, component: &Component, conn: &mut Database) -> (r: Result<Vec<Component>, DbError>)
        requires
            old(conn).wf(),
        ensures
            *final(conn) == *old(conn),
            r matches Ok(v) && v@.map_values(|c: Component| c@) == parents_of(old(conn)@, component.id),
    {
        let ghost assocs = conn@.component_assocs.rows;
        let n = conn.component_assocs.len();
        let mut parent_ids: Vec<i32> = Vec::new();
        let mut i: usize = 0;
        while i < n
            invariant
                n == assocs.len(),
                assocs == conn@.component_assocs.rows,
                0 <= i <= n,
                forall|x: i32| parent_ids@.contains(x) <==>
                    (exists|j: int| 0 <= j < i && (#[trigger] assocs[j]).parent_id == x && assocs[j].child_id == component.id),
            decreases n - i,
        {
            let a = conn.component_assocs.get(i);
            if a.child_id == component.id {
                let ghost before = parent_ids@;
                parent_ids.push(a.parent_id);
                assert forall|x: i32| parent_ids@.contains(x) <==>
                    (exists|j: int| 0 <= j < i + 1 && (#[trigger] assocs[j]).parent_id == x && assocs[j].child_id == component.id) by {
                    if parent_ids@.contains(x) && x != a.parent_id {
                        let k = choose|k: int| 0 <= k < parent_ids@.len() && parent_ids@[k] == x;
                        assert(before[k] == x);
                        assert(before.contains(x));
                    }
                    if exists|j: int| 0 <= j < i + 1 && (#[trigger] assocs[j]).parent_id == x && assocs[j].child_id == component.id {
                        if x != a.parent_id {
                            let j = choose|j: int| 0 <= j < i + 1 && (#[trigger] assocs[j]).parent_id == x && assocs[j].child_id == component.id;
                            assert(j < i);
                            assert(before.contains(x));
                            let k = choose|k: int| 0 <= k < before.len() && before[k] == x;
                            assert(parent_ids@[k] == x);
                        } else {
                            assert(parent_ids@[parent_ids@.len() - 1] == x);
                        }
                    }
                }
            }
            i = i + 1;
        }
        let out = components_where(conn, &parent_ids);
        assert((|c: ComponentView| parent_ids@.contains(c.id)) =~= (|c: ComponentView| links_to(assocs, c.id, component.id)));
        Ok(out)
    }
}

/// The columns of an edge to insert.
#[derive(Debug)]
pub struct NewComponentAssoc {
    pub parent_id: i32,
    pub child_id: i32,
    pub association_type: Option<String>,
    pub logic_type: Option<String>,
}

impl NewComponentAssoc {
    /// The row inserted with id `id`: unset association and logic types take their
    /// column default, the empty text.
    pub open spec fn row(&self, id: i32) -> ComponentToComponentView {
        ComponentToComponentView {
            id,
            parent_id: self.parent_id,
            child_id: self.child_id,
            association_type: text_or_empty(self.association_type.deep_view()),
            logic_type: text_or_empty(self.logic_type.deep_view()),
        }
    }

    /// Inserts this edge.
    pub fn create(&self, conn: &mut Database) -> (r: Result<ComponentToComponent, DbError>)
        requires
            old(conn).wf(),
        ensures
            final(conn).wf(),
            match r {
                Ok(a) => old(conn)@.component_assocs.last_id < i32::MAX
                    && a@ == self.row((old(conn)@.component_assocs.last_id + 1) as i32)
                    && final(conn)@ == (DatabaseView {
                        component_assocs: old(conn)@.component_assocs.push(a@),
                        ..old(conn)@
                    }),
                Err(e) => e == DbError::SequenceExhausted
                    && old(conn)@.component_assocs.last_id == i32::MAX
                    && *final(conn) == *old(conn),
            },
    {
        let id = conn.component_assocs.next_id()?;
        let row = ComponentToComponent {
            id,
            parent_id: self.parent_id,
            child_id: self.child_id,
            association_type: text_or_default(&self.association_type),
            logic_type: text_or_default(&self.logic_type),
        };
        let out = row.duplicate();
        conn.component_assocs.insert(row);
        Ok(out)
    }
}

/// A requirement of a degree: `component_id` must be satisfied for `degree_id`.
#[derive(Debug)]
pub struct DegreeToComponent {
    pub id: i32,
    pub degree_id: i32,
    pub component_id: i32,
}

pub struct DegreeToComponentView {
    pub id: i32,
    pub degree_id: i32,
    pub component_id: i32,
}

impl View for DegreeToComponent {
    type V = DegreeToComponentView;

    open spec fn view(&self) -> DegreeToComponentView {
        DegreeToComponentView { id: self.id, degree_id: self.degree_id, component_id: self.component_id }
    }
}

impl Record for DegreeToComponent {
    open spec fn key_of(v: DegreeToComponentView) -> i32 {
        v.id
    }

    fn id_of(&self) -> (r: i32) {
        self.id
    }

    fn duplicate(&self) -> (r: DegreeToComponent) {
        DegreeToComponent { id: self.id, degree_id: self.degree_id, component_id: self.component_id }
    }
}

/// The components that the degree `degree_id` requires, one per requirement row, in
/// the order of those rows.
pub open spec fn degree_components(db: DatabaseView, degree_id: i32) -> Seq<ComponentView> {
    db.degree_assocs.rows.filter_map(
        |a: DegreeToComponentView|
            if a.degree_id == degree_id {
                row_with_key::<Component>(db.components.rows, a.component_id)
            } else {
                None
            },
    )
}

/// The degrees that require the component `component_id`, one per requirement row.
pub open spec fn component_degrees(db: DatabaseView, component_id: i32) -> Seq<DegreeView> {
    db.degree_assocs.rows.filter_map(
        |a: DegreeToComponentView|
            if a.component_id == component_id {
                row_with_key::<Degree>(db.degrees.rows, a.degree_id)
            } else {
                None
            },
    )
}

impl DegreeToComponent {
    /// The components that `degree` requires.
    pub fn get_components(degree: &Degree, conn: &mut Database) -> (r: Result<Vec<Component>, DbError>)
        requires
            old(conn).wf(),
        ensures
            *final(conn) == *old(conn),
            r matches Ok(v) && v@.map_values(|c: Component| c@) == degree_components(old(conn)@, degree.id),
    {
        let ghost db = conn@;
        let ghost f = |a: DegreeToComponentView|
            if a.degree_id == degree.id {
                row_with_key::<Component>(db.components.rows, a.component_id)
            } else {
                None
            };
        let n = conn.degree_assocs.len();
        let mut out: Vec<Component> = Vec::new();
        let mut i: usize = 0;
        while i < n
            invariant
                n == db.degree_assocs.rows.len(),
                db == conn@,
                conn.wf(),
                f == (|a: DegreeToComponentView|
                    if a.degree_id == degree.id {
                        row_with_key::<Component>(db.components.rows, a.component_id)
                    } else {
                        None
                    }),
                0 <= i <= n,
                out@.map_values(|c: Component| c@) == db.degree_assocs.rows.take(i as int).filter_map(f),
            decreases n - i,
        {
            let a = conn.degree_assocs.get(i);
            proof {
                db.degree_assocs.rows.lemma_filter_map_take_succ(f, i as int);
            }
            if a.degree_id == degree.id {
                match conn.components.position(a.component_id) {
                    Some(k) => {
                        out.push(conn.components.get(k).duplicate());
                    },
                    None => {},
                }
            }
            proof {
                assert(out@.map_values(|c: Component| c@) =~= db.degree_assocs.rows.take(i + 1).filter_map(f));
            }
            i = i + 1;
        }
        assert(db.degree_assocs.rows.take(n as int) =~= db.degree_assocs.rows);
        Ok(out)
    }

    /// The degrees that require `component`.
    pub fn get_degrees(component: &Component, conn: &mut Database) -> (r: Result<Vec<Degree>, DbError>)
        requires
            old(conn).wf(),
        ensures
            *final(conn) == *old(conn),
            r matches Ok(v) && v@.map_values(|d: Degree| d@) == component_degrees(old(conn)@, component.id),
    {
        let ghost db = conn@;
        let ghost f = |a: DegreeToComponentView|
            if a.component_id == component.id {
                row_with_key::<Degree>(db.degrees.rows, a.degree_id)
            } else {
                None
            };
        let n = conn.degree_assocs.len();
        let mut out: Vec<Degree> = Vec::new();
        let mut i: usize = 0;
        while i < n
            invariant
                n == db.degree_assocs.rows.len(),
                db == conn@,
                conn.wf(),
                f == (|a: DegreeToComponentView|
                    if a.component_id == component.id {
                        row_with_key::<Degree>(db.degrees.rows, a.degree_id)
                    } else {
                        None
                    }),
                0 <= i <= n,
                out@.map_values(|d: Degree| d@) == db.degree_assocs.rows.take(i as int).filter_map(f),
            decreases n - i,
        {
            let a = conn.degree_assocs.get(i);
            proof {
                db.degree_assocs.rows.lemma_filter_map_take_succ(f, i as int);
            }
            if a.component_id == component.id {
                match conn.degrees.position(a.degree_id) {
                    Some(k) => {
                        out.push(conn.degrees.get(k).duplicate());
                    },
                    None => {},
                }
            }
            proof {
                assert(out@.map_values(|d: Degree| d@) =~= db.degree_assocs.rows.take(i + 1).filter_map(f));
            }
            i = i + 1;
        }
        assert(db.degree_assocs.rows.take(n as int) =~= db.degree_assocs.rows);
        Ok(out)
    }

    /// The requirement rows of `degree`, in table order.
    pub fn get_component_ids(degree: &Degree, conn: &mut Database) -> (r: Result<Vec<DegreeToComponent>, DbError>)
        requires
            old(conn).wf(),
        ensures
            *final(conn) == *old(conn),
            r matches Ok(v) && v@.map_values(|a: DegreeToComponent| a@)
                == old(conn)@.degree_assocs.rows.filter(|a: DegreeToComponentView| a.degree_id == degree.id),
    {
        let ghost rows = conn@.degree_assocs.rows;
        let ghost p = |a: DegreeToComponentView| a.degree_id == degree.id;
        let n = conn.degree_assocs.len();
        let mut out: Vec<DegreeToComponent> = Vec::new();
        let mut i: usize = 0;
        while i < n
            invariant
                n == rows.len(),
                rows == conn@.degree_assocs.rows,
                p == (|a: DegreeToComponentView| a.degree_id == degree.id),
                0 <= i <= n,
                out@.map_values(|a: DegreeToComponent| a@) == rows.take(i as int).filter(p),
            decreases n - i,
        {
            let a = conn.degree_assocs.get(i);
            proof {
                reveal_with_fuel(Seq::<_>::filter, 1);
                assert(rows.take(i + 1).drop_last() =~= rows.take(i as int));
            }
            if a.degree_id == degree.id {
                out.push(a.duplicate());
            }
            proof {
                assert(out@.map_values(|a: DegreeToComponent| a@) =~= rows.take(i + 1).filter(p));
            }
            i = i + 1;
        }
        assert(rows.take(n as int) =~= rows);
        Ok(out)
    }

    /// The requirement rows that name `component`, in table order.
    pub fn get_degree_ids(component: &Component, conn: &mut Database) -> (r: Result<Vec<DegreeToComponent>, DbError>)
        requires
            old(conn).wf(),
        ensures
            *final(conn) == *old(conn),
            r matches Ok(v) && v@.map_values(|a: DegreeToComponent| a@)
                == old(conn)@.degree_assocs.rows.filter(|a: DegreeToComponentView| a.component_id == component.id),
    {
        let ghost rows = conn@.degree_assocs.rows;
        let ghost p = |a: DegreeToComponentView| a.component_id == component.id;
        let n = conn.degree_assocs.len();
        let mut out: Vec<DegreeToComponent> = Vec::new();
        let mut i: usize = 0;
        while i < n
            invariant
                n == rows.len(),
                rows == conn@.degree_assocs.rows,
                p == (|a: DegreeToComponentView| a.component_id == component.id),
                0 <= i <= n,
                out@.map_values(|a: DegreeToComponent| a@) == rows.take(i as int).filter(p),
            decreases n - i,
        {
            let a = conn.degree_assocs.get(i);
            proof {
                reveal_with_fuel(Seq::<_>::filter, 1);
                assert(rows.take(i + 1).drop_last() =~= rows.take(i as int));
            }
            if a.component_id == component.id {
                out.push(a.duplicate());
            }
            proof {
                assert(out@.map_values(|a: DegreeToComponent| a@) =~= rows.take(i + 1).filter(p));
            }
            i = i + 1;
        }
        assert(rows.take(n as int) =~= rows);
        Ok(out)
    }
}

/// The columns of a degree requirement to insert.
#[derive(Debug)]
pub struct NewDegreeToComponent {
    pub degree_id: i32,
    pub component_id: i32,
}

impl NewDegreeToComponent {
    /// Inserts this requirement.
    pub fn create(&self, conn: &mut Database) -> (r: Result<DegreeToComponent, DbError>)
        requires
            old(conn).wf(),
        ensures
            final(conn).wf(),
            match r {
                Ok(a) => old(conn)@.degree_assocs.last_id < i32::MAX
                    && a@ == (DegreeToComponentView {
                        id: (old(conn)@.degree_assocs.last_id + 1) as i32,
                        degree_id: self.degree_id,
                        component_id: self.component_id,
                    })
                    && final(conn)@ == (DatabaseView {
                        degree_assocs: old(conn)@.degree_assocs.push(a@),
                        ..old(conn)@
                    }),
                Err(e) => e == DbError::SequenceExhausted
                    && old(conn)@.degree_assocs.last_id == i32::MAX
                    && *final(conn) == *old(conn),
            },
    {
        let id = conn.degree_assocs.next_id()?;
        let row = DegreeToComponent { id, degree_id: self.degree_id, component_id: self.component_id };
        let out = row.duplicate();
        conn.degree_assocs.insert(row);
        Ok(out)
    }
}

} // verus!
