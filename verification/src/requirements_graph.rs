use vstd::prelude::*;
use crate::db::{Database, DatabaseView};
use crate::models::associations::{children_of, degree_components, ComponentToComponent, DegreeToComponent};
use crate::models::class::{class_of_component, Class};
use crate::models::component::{Component, ComponentView};
use crate::models::degree::Degree;
use crate::req_holder::{component_req, link, ReqHolder};
use crate::types::{Req, ReqView, ScheduleError};

verus! {

/// The ids of the components of the store.
pub open spec fn component_ids(db: DatabaseView) -> Set<i32> {
    db.components.rows.map_values(|c: ComponentView| c.id).to_set()
}

/// The components of the store that the graph does not hold yet.
pub open spec fn pending(db: DatabaseView, g: Map<i32, ReqView>) -> Set<i32> {
    component_ids(db).difference(g.dom())
}

pub proof fn lemma_pending_grow(db: DatabaseView, g: Map<i32, ReqView>, h: Map<i32, ReqView>)
    requires
        g.dom().subset_of(h.dom()),
    ensures
        pending(db, h).len() <= pending(db, g).len(),
        pending(db, h).finite(),
{
    lemma_pending_finite(db, g);
    lemma_pending_finite(db, h);
    assert(pending(db, h).subset_of(pending(db, g)));
    vstd::set_lib::lemma_len_subset(pending(db, h), pending(db, g));
}

pub proof fn lemma_pending_finite(db: DatabaseView, g: Map<i32, ReqView>)
    ensures
        pending(db, g).finite(),
{
    vstd::seq_lib::seq_to_set_is_finite(db.components.rows.map_values(|c: ComponentView| c.id));
}

pub proof fn lemma_pending_add(db: DatabaseView, g: Map<i32, ReqView>, h: Map<i32, ReqView>, id: i32)
    requires
        g.dom().subset_of(h.dom()),
        component_ids(db).contains(id),
        !g.contains_key(id),
        h.contains_key(id),
    ensures
        pending(db, h).len() < pending(db, g).len(),
{
    lemma_pending_finite(db, g);
    lemma_pending_finite(db, h);
    assert(pending(db, h).subset_of(pending(db, g).remove(id)));
    vstd::set_lib::lemma_len_subset(pending(db, h), pending(db, g).remove(id));
    assert(pending(db, g).contains(id));
}

/// The components are rows of the store.
pub open spec fn rows_of_store(db: DatabaseView, comps: Seq<ComponentView>) -> bool {
    forall|i: int| 0 <= i < comps.len() ==> db.components.rows.contains(#[trigger] comps[i])
}

/// The graph after linking the components `comps[k..]` under `parent`, depth first:
/// a component already in the graph is only linked; a new one is added (with its
/// class), linked, and its own children are linked under it in turn. The result
/// carries the error of a link whose parent is missing; `None` where a class
/// component has no class.
pub open spec fn associate(
    db: DatabaseView,
    g: Map<i32, ReqView>,
    parent: i32,
    comps: Seq<ComponentView>,
    k: int,
) -> Option<(Map<i32, ReqView>, Result<(), ScheduleError>)>
    decreases pending(db, g).len(), comps.len() - k,
{
    if k < 0 || k >= comps.len() {
        Some((g, Ok(())))
    } else {
        let c = comps[k];
        if g.contains_key(parent) && g.contains_key(c.id) {
            proof {
                assert(link(g, parent, c.id).dom() =~= g.dom());
            }
            associate(db, link(g, parent, c.id), parent, comps, k + 1)
        } else if c.pftype == "Class"@ && class_of_component(db.classes.rows, c.id) is None {
            None
        } else {
            let g1 = g.insert(c.id, component_req(c, db.classes.rows));
            if !g1.contains_key(parent) {
                Some((g1, Err(ScheduleError::AssociationError)))
            } else if !component_ids(db).contains(c.id) {
                None
            } else {
                let g2 = link(g1, parent, c.id);
                proof {
                    assert(g.dom().subset_of(g2.dom()));
                    lemma_pending_add(db, g, g2, c.id);
                }
                match associate(db, g2, c.id, children_of(db, c.id), 0) {
                    None => None,
                    Some((g3, Err(e))) => Some((g3, Err(e))),
                    Some((g3, Ok(()))) => if g2.dom().subset_of(g3.dom()) {
                        proof {
                            lemma_pending_grow(db, g2, g3);
                        }
                        associate(db, g3, parent, comps, k + 1)
                    } else {
                        None
                    },
                }
            }
        }
    }
}

/// The root requirement that stands for the degree.
pub open spec fn degree_root(name: Seq<char>, pftype: Seq<char>, logic: Seq<char>) -> ReqView {
    ReqView {
        id: -1i32,
        name,
        pftype,
        class: None,
        logic_type: Some(logic),
        children: Seq::empty(),
        parents: Seq::empty(),
        in_analysis: false,
    }
}

/// The requirement graph of `degree`: a root with id `-1` and the components of
/// the degree linked under it.
pub open spec fn degree_graph(
    db: DatabaseView,
    g: Map<i32, ReqView>,
    degree_id: i32,
    root: ReqView,
) -> Option<(Map<i32, ReqView>, Result<(), ScheduleError>)> {
    associate(db, g.insert(-1i32, root), -1i32, degree_components(db, degree_id), 0)
}

proof fn lemma_children_rows(db: DatabaseView, id: i32)
    ensures
        rows_of_store(db, children_of(db, id)),
{
    let p = |c: ComponentView| crate::models::associations::links_to(db.component_assocs.rows, id, c.id);
    assert forall|i: int| 0 <= i < children_of(db, id).len() implies db.components.rows.contains(#[trigger] children_of(db, id)[i]) by {
        db.components.rows.lemma_filter_contains_rev(p, children_of(db, id)[i]);
    }
}

/// Links the components `components[k..]` under `parent_id` as
/// `associate_components` does; `None` where a class component reached has no class.
fn try_associate(
    conn: &mut Database,
    req_holder: &mut ReqHolder,
    parent_id: i32,
    components: &Vec<Component>,
    k: usize,
) -> (r: Option<Result<(), ScheduleError>>)
    requires
        old(conn).wf(),
        old(req_holder).wf(),
        k <= components@.len(),
        rows_of_store(old(conn)@, components@.map_values(|c: Component| c@)),
    ensures
        final(conn).wf(),
        *final(conn) == *old(conn),
        final(req_holder).wf(),
        old(req_holder)@.dom().subset_of(final(req_holder)@.dom()),
        match r {
            Some(x) => associate(old(conn)@, old(req_holder)@, parent_id, components@.map_values(|c: Component| c@), k as int)
                == Some((final(req_holder)@, x)),
            None => associate(old(conn)@, old(req_holder)@, parent_id, components@.map_values(|c: Component| c@), k as int) is None,
        },
    decreases pending(old(conn)@, old(req_holder)@).len(), components@.len() - k,
{
    let ghost db = conn@;
    let ghost comps = components@.map_values(|c: Component| c@);
    if k >= components.len() {
        return Some(Ok(()));
    }
    let component = &components[k];
    assert(comps[k as int] == component@);
    let ghost g0 = req_holder@;
    let both = req_holder.get_req(parent_id).is_some() && req_holder.get_req(component.id).is_some();
    if both {
        match req_holder.try_add_association(parent_id, component.id) {
            Ok(()) => {},
            Err(_) => {
                assert(false);
            },
        }
        assert(g0.dom() =~= req_holder@.dom());
        return try_associate(conn, req_holder, parent_id, components, k + 1);
    }
    let id = component.id;
    if component.pftype == "Class".to_owned() {
        if Class::find_by_component_id(&id, conn).is_err() {
            return None;
        }
    }
    let copy = crate::db::Record::duplicate(component);
    req_holder.add_component(conn, copy);
    let ghost g1 = req_holder@;
    match req_holder.try_add_association(parent_id, id) {
        Ok(()) => {},
        Err(e) => {
            assert(g0.dom().subset_of(g1.dom()));
            return Some(Err(e));
        },
    }
    let ghost g2 = req_holder@;
    proof {
        assert(db.components.rows.contains(comps[k as int]));
        let j = choose|j: int| 0 <= j < db.components.rows.len() && db.components.rows[j] == comps[k as int];
        assert(db.components.rows.map_values(|c: ComponentView| c.id)[j] == id);
        assert(component_ids(db).contains(id));
        assert(g0.dom().subset_of(g2.dom()));
    }
    let children = match ComponentToComponent::get_children(component, conn) {
        Ok(v) => v,
        Err(_) => {
            assert(false);
            Vec::new()
        },
    };
    proof {
        lemma_children_rows(db, id);
        lemma_pending_add(db, g0, g2, id);
    }
    let sub = try_associate(conn, req_holder, id, &children, 0);
    match sub {
        None => {
            return None;
        },
        Some(Err(e)) => {
            return Some(Err(e));
        },
        Some(Ok(())) => {},
    }
    let ghost g3 = req_holder@;
    proof {
        lemma_pending_grow(db, g2, g3);
    }
    try_associate(conn, req_holder, parent_id, components, k + 1)
}

/// Links the components `components[k..]` under `parent_id`, adding the new ones
/// and their descendants.
pub fn associate_components(
    conn: &mut Database,
    req_holder: &mut ReqHolder,
    parent_id: i32,
    components: &Vec<Component>,
    k: usize,
) -> (r: Result<(), ScheduleError>)
    requires
        old(conn).wf(),
        old(req_holder).wf(),
        k <= components@.len(),
        rows_of_store(old(conn)@, components@.map_values(|c: Component| c@)),
        associate(old(conn)@, old(req_holder)@, parent_id, components@.map_values(|c: Component| c@), k as int) is Some,
    ensures
        final(conn).wf(),
        *final(conn) == *old(conn),
        final(req_holder).wf(),
        old(req_holder)@.dom().subset_of(final(req_holder)@.dom()),
        associate(old(conn)@, old(req_holder)@, parent_id, components@.map_values(|c: Component| c@), k as int)
            == Some((final(req_holder)@, r)),
{
    match try_associate(conn, req_holder, parent_id, components, k) {
        Some(r) => r,
        None => {
            assert(false);
            Ok(())
        },
    }
}

/// Builds the requirement graph of `degree` as `build_requirements_graph` does;
/// `None` where a class component reached has no class, the one case where that
/// build cannot run. The holder is left as far as the build got.
pub fn try_build_requirements_graph(
    conn: &mut Database,
    degree: &Degree,
    req_holder: &mut ReqHolder,
    root_pftype: &str,
    root_logic: &str,
) -> (r: Option<Result<i32, ScheduleError>>)
    requires
        old(conn).wf(),
        old(req_holder).wf(),
    ensures
        final(conn).wf(),
        *final(conn) == *old(conn),
        final(req_holder).wf(),
        match r {
            None => degree_graph(old(conn)@, old(req_holder)@, degree.id, degree_root(degree.name@, root_pftype@, root_logic@)) is None,
            Some(x) => {
                let (g, res) = degree_graph(old(conn)@, old(req_holder)@, degree.id, degree_root(degree.name@, root_pftype@, root_logic@))->0;
                &&& degree_graph(old(conn)@, old(req_holder)@, degree.id, degree_root(degree.name@, root_pftype@, root_logic@)) is Some
                &&& final(req_holder)@ == g
                &&& match res {
                    Ok(()) => x == Ok::<i32, ScheduleError>(-1i32),
                    Err(e) => x == Err::<i32, ScheduleError>(e),
                }
            },
        },
{
    let root_id: i32 = -1;
    let degree_req = Req {
        id: root_id,
        name: degree.name.clone(),
        pftype: root_pftype.to_owned(),
        class: None,
        logic_type: Some(root_logic.to_owned()),
        children: Vec::new(),
        parents: Vec::new(),
        in_analysis: false,
    };
    let root_components = match DegreeToComponent::get_components(degree, conn) {
        Ok(v) => v,
        Err(e) => {
            assert(false);
            return Some(Err(ScheduleError::from_db(e)));
        },
    };
    proof {
        let db = conn@;
        let f = |a: crate::models::associations::DegreeToComponentView|
            if a.degree_id == degree.id {
                crate::db::row_with_key::<Component>(db.components.rows, a.component_id)
            } else {
                None
            };
        assert forall|i: int| 0 <= i < degree_components(db, degree.id).len() implies
            db.components.rows.contains(#[trigger] degree_components(db, degree.id)[i]) by {
            let c = degree_components(db, degree.id)[i];
            db.degree_assocs.rows.lemma_filter_map_contains(f, c);
            let a = choose|a: crate::models::associations::DegreeToComponentView| db.degree_assocs.rows.contains(a) && f(a) == Some(c);
            let j = choose|j: int| 0 <= j < db.components.rows.len() && db.components.rows[j].id == a.component_id;
        }
    }
    req_holder.add_degree_req(degree_req);
    match try_associate(conn, req_holder, root_id, &root_components, 0) {
        None => None,
        Some(Ok(())) => Some(Ok(root_id)),
        Some(Err(e)) => Some(Err(e)),
    }
}

/// Builds the requirement graph of `degree` into `req_holder`: a root with id `-1`
/// and the given type, name and logic, and the components of the degree below it.
pub fn build_requirements_graph(
    conn: &mut Database,
    degree: &Degree,
    req_holder: &mut ReqHolder,
    root_pftype: &str,
    root_logic: &str,
) -> (r: Result<i32, ScheduleError>)
    requires
        old(conn).wf(),
        old(req_holder).wf(),
        degree_graph(old(conn)@, old(req_holder)@, degree.id, degree_root(degree.name@, root_pftype@, root_logic@)) is Some,
    ensures
        final(conn).wf(),
        *final(conn) == *old(conn),
        final(req_holder).wf(),
        ({
            let (g, res) = degree_graph(old(conn)@, old(req_holder)@, degree.id, degree_root(degree.name@, root_pftype@, root_logic@))->0;
            &&& final(req_holder)@ == g
            &&& match res {
                Ok(()) => r == Ok::<i32, ScheduleError>(-1i32),
                Err(e) => r == Err::<i32, ScheduleError>(e),
            }
        }),
{
    match try_build_requirements_graph(conn, degree, req_holder, root_pftype, root_logic) {
        Some(r) => r,
        None => {
            assert(false);
            Ok(-1)
        },
    }
}

} // verus!
