use vstd::prelude::*;
use rustc_hash::{FxHashMap, FxHasher};
use std::hash::BuildHasherDefault;
use crate::db::Database;
use crate::models::class::{class_of_component, Class};
use crate::models::component::Component;
use crate::types::{Req, ReqView, ScheduleError, Status};

verus! {

/// `rustc_hash::FxHasher`, the hasher of the requirement map.
#[verifier::external_type_specification]
#[verifier::external_body]
pub struct ExFxHasher(FxHasher);

/// `std::hash::BuildHasherDefault`, the hash builder of `FxHashMap`.
#[verifier::external_type_specification]
#[verifier::external_body]
#[verifier::reject_recursive_types(H)]
pub struct ExBuildHasherDefault<H>(BuildHasherDefault<H>);

/// Calls `HashMap::insert` on an `FxHashMap`: the key then maps to the value and
/// every other key keeps its value (`FxHasher` hashes a key the same way each time).
#[verifier::external_body]
fn fx_insert(m: &mut FxHashMap<i32, Req>, k: i32, v: Req)
    ensures
        final(m)@ == old(m)@.insert(k, v),
{
    m.insert(k, v);
}

/// Calls `HashMap::get` on an `FxHashMap`: the value of the key, where it has one.
#[verifier::external_body]
fn fx_get<'a>(m: &'a FxHashMap<i32, Req>, k: i32) -> (r: Option<&'a Req>)
    ensures
        match r {
            Some(v) => m@.contains_key(k) && *v == m@[k],
            None => !m@.contains_key(k),
        },
{
    m.get(&k)
}

/// Calls `HashMap::remove` on an `FxHashMap`: the key no longer maps to anything and
/// its value, where it had one, is handed back.
#[verifier::external_body]
fn fx_remove(m: &mut FxHashMap<i32, Req>, k: i32) -> (r: Option<Req>)
    ensures
        final(m)@ == old(m)@.remove(k),
        match r {
            Some(v) => old(m)@.contains_key(k) && v == old(m)@[k],
            None => !old(m)@.contains_key(k),
        },
{
    m.remove(&k)
}

/// Calls `HashMap::keys` on an `FxHashMap` and collects the keys: each key of the
/// map once; the order, that of the map's walk, is left unsaid.
#[verifier::external_body]
fn fx_keys(m: &FxHashMap<i32, Req>) -> (r: Vec<i32>)
    ensures
        r@.no_duplicates(),
        forall|k: i32| r@.contains(k) <==> m@.contains_key(k),
{
    m.keys().copied().collect()
}

/// The requirement graph: the requirements by id.
pub struct ReqHolder {
    reqs: FxHashMap<i32, Req>,
}

/// The ids of `g` that `shown` does not hold.
pub open spec fn unshown(g: Map<i32, ReqView>, shown: Seq<i32>) -> Set<i32> {
    g.dom().difference(shown.to_set())
}

/// The ids in the order in which the graph is displayed from `id`: depth first,
/// each id once, children in order; `None` where a displayed id has no requirement.
pub open spec fn display_order(g: Map<i32, ReqView>, id: i32, shown: Seq<i32>) -> Option<Seq<i32>>
    decreases unshown(g, shown).len(), 0int,
{
    if !g.dom().finite() {
        None
    } else if shown.contains(id) {
        Some(shown)
    } else if !g.contains_key(id) {
        None
    } else {
        proof {
            lemma_unshown_push(g, shown, id);
        }
        display_children(g, g[id].children, 0, shown.push(id))
    }
}

/// The display order of the children `kids[k..]`, after `shown`.
pub open spec fn display_children(
    g: Map<i32, ReqView>,
    kids: Seq<(i32, Status, Option<i32>)>,
    k: int,
    shown: Seq<i32>,
) -> Option<Seq<i32>>
    decreases unshown(g, shown).len(), kids.len() - k + 1,
{
    if !g.dom().finite() || k < 0 || k >= kids.len() {
        Some(shown)
    } else {
        match display_order(g, kids[k].0, shown) {
            None => None,
            Some(after) => if after.len() >= shown.len() && after.subrange(0, shown.len() as int) == shown {
                proof {
                    lemma_unshown_extend(g, shown, after);
                }
                display_children(g, kids, k + 1, after)
            } else {
                None
            },
        }
    }
}

pub proof fn lemma_unshown_push(g: Map<i32, ReqView>, shown: Seq<i32>, id: i32)
    requires
        g.dom().finite(),
        g.contains_key(id),
        !shown.contains(id),
    ensures
        unshown(g, shown.push(id)).len() < unshown(g, shown).len(),
{
    let a = unshown(g, shown);
    let b = unshown(g, shown.push(id));
    assert(b =~= a.remove(id)) by {
        assert forall|x: i32| b.contains(x) <==> a.remove(x) == a.remove(x) && a.remove(id).contains(x) by {
            if shown.push(id).contains(x) && x != id {
                let j = choose|j: int| 0 <= j < shown.push(id).len() && shown.push(id)[j] == x;
                assert(shown[j] == x);
            }
            if shown.contains(x) {
                let j = choose|j: int| 0 <= j < shown.len() && shown[j] == x;
                assert(shown.push(id)[j] == x);
            }
            assert(shown.push(id)[shown.len() as int] == id);
        }
    }
    assert(a.contains(id));
}

pub proof fn lemma_unshown_extend(g: Map<i32, ReqView>, shown: Seq<i32>, after: Seq<i32>)
    requires
        g.dom().finite(),
        after.len() >= shown.len(),
        after.subrange(0, shown.len() as int) == shown,
    ensures
        unshown(g, after).len() <= unshown(g, shown).len(),
{
    let a = unshown(g, shown);
    let b = unshown(g, after);
    assert(b.subset_of(a)) by {
        assert forall|x: i32| b.contains(x) implies a.contains(x) by {
            if shown.contains(x) {
                let j = choose|j: int| 0 <= j < shown.len() && shown[j] == x;
                assert(after[j] == x);
            }
        }
    }
    vstd::set_lib::lemma_len_subset(b, a);
}

impl View for ReqHolder {
    type V = Map<i32, ReqView>;

    closed spec fn view(&self) -> Map<i32, ReqView> {
        self.reqs@.map_values(|r: Req| r@)
    }
}

impl ReqHolder {
    /// The graph holds finitely many requirements.
    pub closed spec fn wf(&self) -> bool {
        self.reqs@.dom().finite()
    }

    pub proof fn lemma_finite(&self)
        requires
            self.wf(),
        ensures
            self@.dom().finite(),
    {
        assert(self@.dom() =~= self.reqs@.dom());
    }

    /// An empty graph.
    pub fn new() -> (h: ReqHolder)
        ensures
            h.wf(),
            h@ == Map::<i32, ReqView>::empty(),
    {
        let h = ReqHolder { reqs: FxHashMap::default() };
        assert(h@ =~= Map::<i32, ReqView>::empty());
        h
    }

    /// The ids of the requirements, each once, in no stated order.
    pub fn ids(&self) -> (r: Vec<i32>)
        ensures
            r@.no_duplicates(),
            forall|k: i32| r@.contains(k) <==> self@.contains_key(k),
    {
        let r = fx_keys(&self.reqs);
        assert forall|k: i32| r@.contains(k) <==> self@.contains_key(k) by {
            assert(self@.dom().contains(k) == self.reqs@.dom().contains(k));
        }
        r
    }

    /// Sets the requirement under `id` to `req`.
    pub fn put(&mut self, id: i32, req: Req)
        requires
            old(self).wf(),
        ensures
            final(self).wf(),
            final(self)@ == old(self)@.insert(id, req@),
    {
        let ghost v = req@;
        fx_insert(&mut self.reqs, id, req);
        assert(self@ =~= old(self)@.insert(id, v));
    }

    /// Takes the requirement `id` out of the graph.
    pub fn take(&mut self, id: i32) -> (r: Option<Req>)
        requires
            old(self).wf(),
        ensures
            final(self).wf(),
            final(self)@ == old(self)@.remove(id),
            match r {
                Some(req) => old(self)@.contains_key(id) && req@ == old(self)@[id],
                None => !old(self)@.contains_key(id),
            },
    {
        let r = fx_remove(&mut self.reqs, id);
        assert(self@ =~= old(self)@.remove(id));
        r
    }

    /// Adds the requirement that stands for the degree.
    pub fn add_degree_req(&mut self, degree: Req)
        requires
            old(self).wf(),
        ensures
            final(self).wf(),
            final(self)@ == old(self)@.insert(degree.id, degree@),
    {
        let id = degree.id;
        self.put(id, degree);
    }

    /// Adds the requirement of `component`, with its class where it is a class.
    pub fn add_component(&mut self, conn: &mut Database, component: Component)
        requires
            old(self).wf(),
            old(conn).wf(),
            component.pftype@ == "Class"@ ==> class_of_component(old(conn)@.classes.rows, component.id) is Some,
        ensures
            final(self).wf(),
            *final(conn) == *old(conn),
            final(self)@ == old(self)@.insert(component.id, component_req(component@, old(conn)@.classes.rows)),
    {
        let is_class = component.pftype == "Class".to_owned();
        let class: Option<Class> = if is_class {
            match Class::find_by_component_id(&component.id, conn) {
                Ok(c) => Some(c),
                Err(_) => {
                    assert(false);
                    None
                },
            }
        } else {
            None
        };
        let req = Req {
            id: component.id,
            name: component.name,
            pftype: component.pftype,
            class,
            logic_type: component.logic_type,
            children: Vec::new(),
            parents: Vec::new(),
            in_analysis: false,
        };
        assert(req@ == component_req(component@, old(conn)@.classes.rows));
        self.put(component.id, req);
    }

    /// The requirement `id`.
    pub fn get_req(&self, id: i32) -> (r: Option<&Req>)
        ensures
            match r {
                Some(req) => self@.contains_key(id) && req@ == self@[id],
                None => !self@.contains_key(id),
            },
    {
        fx_get(&self.reqs, id)
    }

    /// Links `child_id` under `parent_id`, both unchecked; fails where either is
    /// missing from the graph.
    pub fn try_add_association(&mut self, parent_id: i32, child_id: i32) -> (r: Result<(), ScheduleError>)
        requires
            old(self).wf(),
        ensures
            final(self).wf(),
            r is Ok <==> old(self)@.contains_key(parent_id) && old(self)@.contains_key(child_id),
            r is Err ==> r == Err::<(), ScheduleError>(ScheduleError::AssociationError)
                && final(self)@ == old(self)@,
            r is Ok ==> final(self)@ == link(old(self)@, parent_id, child_id),
    {
        if self.get_req(parent_id).is_none() {
            return Err(ScheduleError::AssociationError);
        }
        if self.get_req(child_id).is_none() {
            return Err(ScheduleError::AssociationError);
        }
        let ghost g0 = self@;
        let ghost g1 = g0.insert(child_id, ReqView { parents: g0[child_id].parents.push((parent_id, Status::Unchecked)), ..g0[child_id] });
        match self.take(child_id) {
            Some(mut child) => {
                child.parents.push((parent_id, Status::Unchecked));
                assert(child@ == ReqView { parents: g0[child_id].parents.push((parent_id, Status::Unchecked)), ..g0[child_id] });
                self.put(child_id, child);
                assert(self@ =~= g1);
            },
            None => {},
        }
        match self.take(parent_id) {
            Some(mut parent) => {
                parent.children.push((child_id, Status::Unchecked, None));
                assert(parent@ == ReqView { children: g1[parent_id].children.push((child_id, Status::Unchecked, None)), ..g1[parent_id] });
                self.put(parent_id, parent);
            },
            None => {},
        }
        assert(self@ =~= link(g0, parent_id, child_id));
        Ok(())
    }

    /// Appends to `displayed_reqs` the ids of the graph below `id`, depth first,
    /// each once, skipping those already there.
    pub fn display_graph(&self, id: i32, displayed_reqs: &mut Vec<i32>)
        requires
            self.wf(),
            display_order(self@, id, old(displayed_reqs)@) is Some,
        ensures
            Some(final(displayed_reqs)@) == display_order(self@, id, old(displayed_reqs)@),
            final(displayed_reqs)@.len() >= old(displayed_reqs)@.len(),
            final(displayed_reqs)@.subrange(0, old(displayed_reqs)@.len() as int) == old(displayed_reqs)@,
        decreases unshown(self@, old(displayed_reqs)@).len(), 0int,
    {
        proof {
            self.lemma_finite();
        }
        let mut seen = false;
        let mut i: usize = 0;
        while i < displayed_reqs.len()
            invariant
                0 <= i <= displayed_reqs@.len(),
                displayed_reqs@ == old(displayed_reqs)@,
                seen == (exists|j: int| 0 <= j < i && displayed_reqs@[j] == id),
            decreases displayed_reqs@.len() - i,
        {
            if displayed_reqs[i] == id {
                seen = true;
            }
            i = i + 1;
        }
        if !seen {
            proof {
                lemma_unshown_push(self@, displayed_reqs@, id);
            }
            displayed_reqs.push(id);
            let req = self.get_req(id).unwrap();
            self.display_children(&req.children, 0, displayed_reqs);
        } else {
            assert(displayed_reqs@.subrange(0, displayed_reqs@.len() as int) =~= displayed_reqs@);
        }
    }

    fn display_children(
        &self,
        kids: &Vec<(i32, Status, Option<i32>)>,
        k: usize,
        displayed_reqs: &mut Vec<i32>,
    )
        requires
            self.wf(),
            k <= kids@.len(),
            display_children(self@, kids@, k as int, old(displayed_reqs)@) is Some,
        ensures
            Some(final(displayed_reqs)@) == display_children(self@, kids@, k as int, old(displayed_reqs)@),
            final(displayed_reqs)@.len() >= old(displayed_reqs)@.len(),
            final(displayed_reqs)@.subrange(0, old(displayed_reqs)@.len() as int) == old(displayed_reqs)@,
        decreases unshown(self@, old(displayed_reqs)@).len(), kids@.len() - k + 1,
    {
        proof {
            self.lemma_finite();
        }
        if k >= kids.len() {
            assert(displayed_reqs@.subrange(0, displayed_reqs@.len() as int) =~= displayed_reqs@);
            return;
        }
        let ghost before = displayed_reqs@;
        self.display_graph(kids[k].0, displayed_reqs);
        proof {
            lemma_unshown_extend(self@, before, displayed_reqs@);
        }
        let ghost middle = displayed_reqs@;
        self.display_children(kids, k + 1, displayed_reqs);
        assert(displayed_reqs@.subrange(0, before.len() as int) =~= middle.subrange(0, before.len() as int));
    }
}

/// The requirement that a component stands for, before it is linked.
pub open spec fn component_req(c: crate::models::component::ComponentView, classes: Seq<crate::models::class::ClassView>) -> ReqView {
    ReqView {
        id: c.id,
        name: c.name,
        pftype: c.pftype,
        class: if c.pftype == "Class"@ { class_of_component(classes, c.id) } else { None },
        logic_type: c.logic_type,
        children: Seq::empty(),
        parents: Seq::empty(),
        in_analysis: false,
    }
}

/// The graph after linking `child` under `parent`: the child gains the parent and
/// the parent gains the child, both unchecked and the child without a cost.
pub open spec fn link(g: Map<i32, ReqView>, parent: i32, child: i32) -> Map<i32, ReqView> {
    let g1 = g.insert(child, ReqView { parents: g[child].parents.push((parent, Status::Unchecked)), ..g[child] });
    g1.insert(parent, ReqView { children: g1[parent].children.push((child, Status::Unchecked, None)), ..g1[parent] })
}

} // verus!
