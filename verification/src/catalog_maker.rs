use vstd::prelude::*;
use crate::catalog::{locate_component, lookup, run_state, CatalogView};
use crate::catalog_maker_data::{maker_catalog, maker_catalog_entries, maker_requirement_entries, maker_requirements};
use crate::db::{Database, DatabaseView};
use crate::models::associations::{ComponentToComponentView, DegreeToComponentView, NewComponentAssoc, NewDegreeToComponent};
use crate::models::class::{ClassView, NewClass};
use crate::models::component::{Component, ComponentView, NewComponent};
use crate::models::degree::{Degree, DegreeView, NewDegree};

verus! {

/// How the entries of a catalog line combine: all of them or one of them.
pub enum LogicalType<'a> {
    AND(Vec<InstantiationType<'a>>),
    OR(Vec<InstantiationType<'a>>),
}

/// A logic type whose entries have been resolved to positions of components.
pub enum ParsedLogicType {
    AND(Vec<usize>),
    OR(Vec<usize>),
}

/// An entry of the catalog: a class (with three credits or with its own credits),
/// a requirement that is only a name, or a degree (code, name, type).
pub enum InstantiationType<'a> {
    SimpleClass(&'a str),
    Class((&'a str, i32)),
    Reg(&'a str),
    Degree((&'a str, &'a str, &'a str)),
}

/// An entry of the catalog, as values.
pub enum EntryView {
    SimpleClass(Seq<char>),
    Class(Seq<char>, i32),
    Reg(Seq<char>),
    Degree(Seq<char>, Seq<char>, Seq<char>),
}

pub open spec fn entry_view(i: InstantiationType) -> EntryView {
    match i {
        InstantiationType::SimpleClass(n) => EntryView::SimpleClass(n@),
        InstantiationType::Class((n, c)) => EntryView::Class(n@, c),
        InstantiationType::Reg(n) => EntryView::Reg(n@),
        InstantiationType::Degree((a, b, c)) => EntryView::Degree(a@, b@, c@),
    }
}

pub open spec fn entries_view(v: Seq<InstantiationType>) -> Seq<EntryView> {
    v.map_values(|i: InstantiationType| entry_view(i))
}

/// A catalog line's logic: its name and the entries it combines.
#[verifier::ext_equal]
pub struct MakerLogicView {
    pub name: Seq<char>,
    pub entries: Seq<EntryView>,
}

pub open spec fn maker_logic_view(l: LogicalType) -> MakerLogicView {
    match l {
        LogicalType::AND(v) => MakerLogicView { name: "AND"@, entries: entries_view(v@) },
        LogicalType::OR(v) => MakerLogicView { name: "OR"@, entries: entries_view(v@) },
    }
}

/// The catalog lines, as values: entry, logic and association type.
pub open spec fn maker_catalog_view(v: Seq<(InstantiationType, LogicalType, &str)>) -> Seq<(EntryView, MakerLogicView, Seq<char>)> {
    v.map_values(|e: (InstantiationType, LogicalType, &str)| (entry_view(e.0), maker_logic_view(e.1), e.2@))
}

/// The degree lines, as values.
pub open spec fn maker_requirements_view(v: Seq<(InstantiationType, Vec<InstantiationType>)>) -> Seq<(EntryView, Seq<EntryView>)> {
    v.map_values(|e: (InstantiationType, Vec<InstantiationType>)| (entry_view(e.0), entries_view(e.1@)))
}

/// The name of a resolved logic type.
pub open spec fn parsed_name(l: ParsedLogicType) -> Seq<char> {
    match l {
        ParsedLogicType::AND(_) => "AND"@,
        ParsedLogicType::OR(_) => "OR"@,
    }
}

/// The positions of a resolved logic type.
pub open spec fn parsed_kids(l: ParsedLogicType) -> Seq<int> {
    match l {
        ParsedLogicType::AND(v) => v@.map_values(|x: usize| x as int),
        ParsedLogicType::OR(v) => v@.map_values(|x: usize| x as int),
    }
}

/// The resolved lines, as values: parent, children, logic name, association type.
pub open spec fn maker_parsed_view(v: Seq<(usize, ParsedLogicType, &str)>) -> Seq<(int, Seq<int>, Seq<char>, Seq<char>)> {
    v.map_values(|e: (usize, ParsedLogicType, &str)| (e.0 as int, parsed_kids(e.1), parsed_name(e.1), e.2@))
}

/// The component named `name`: the one met or stored, else a new component of type
/// `logical`.
pub open spec fn reg_step(st: CatalogView, name: Seq<char>) -> Option<(CatalogView, int)> {
    let (st1, found) = lookup(st, name);
    match found {
        Some(i) => Some((st1, i)),
        None => if st1.db.components.last_id >= i32::MAX {
            None
        } else {
            let row = ComponentView { id: (st1.db.components.last_id + 1) as i32, name, pftype: "logical"@, logic_type: None };
            Some((
                CatalogView { db: DatabaseView { components: st1.db.components.push(row), ..st1.db }, components: st1.components.push(row) },
                st1.components.len() as int,
            ))
        },
    }
}

/// The component named `name`: the one met or stored, else a new component of type
/// `class` with a class row of `credits` credits.
pub open spec fn class_step(st: CatalogView, name: Seq<char>, credits: i32) -> Option<(CatalogView, int)> {
    let (st1, found) = lookup(st, name);
    match found {
        Some(i) => Some((st1, i)),
        None => if st1.db.components.last_id >= i32::MAX || st1.db.classes.last_id >= i32::MAX {
            None
        } else {
            let row = ComponentView { id: (st1.db.components.last_id + 1) as i32, name, pftype: "class"@, logic_type: None };
            let class = ClassView {
                id: (st1.db.classes.last_id + 1) as i32,
                name,
                description: None,
                credits: Some(credits),
                pftype: Seq::empty(),
                subject: None,
                course_no: None,
                options: None,
                component_id: Some(row.id),
            };
            Some((
                CatalogView {
                    db: DatabaseView { components: st1.db.components.push(row), classes: st1.db.classes.push(class), ..st1.db },
                    components: st1.components.push(row),
                },
                st1.components.len() as int,
            ))
        },
    }
}

/// The component of an entry; a degree is none.
pub open spec fn entry_step(st: CatalogView, e: EntryView) -> Option<(CatalogView, int)> {
    match e {
        EntryView::SimpleClass(n) => class_step(st, n, 3),
        EntryView::Class(n, c) => class_step(st, n, c),
        EntryView::Reg(n) => reg_step(st, n),
        EntryView::Degree(..) => None,
    }
}

/// The positions of the components of `es[k..]`, after `acc`.
pub open spec fn entry_indices(st: CatalogView, es: Seq<EntryView>, k: int, acc: Seq<int>) -> Option<(CatalogView, Seq<int>)>
    decreases es.len() - k,
{
    if k < 0 || k >= es.len() {
        Some((st, acc))
    } else {
        match entry_step(st, es[k]) {
            None => None,
            Some((st1, i)) => entry_indices(st1, es, k + 1, acc.push(i)),
        }
    }
}

/// The first pass over the lines `cat[k..]`: the entries of a line are resolved
/// first, then its parent entry.
pub open spec fn maker_pass(
    st: CatalogView,
    cat: Seq<(EntryView, MakerLogicView, Seq<char>)>,
    k: int,
    parsed: Seq<(int, Seq<int>, Seq<char>, Seq<char>)>,
) -> Option<(CatalogView, Seq<(int, Seq<int>, Seq<char>, Seq<char>)>)>
    decreases cat.len() - k,
{
    if k < 0 || k >= cat.len() {
        Some((st, parsed))
    } else {
        match entry_indices(st, cat[k].1.entries, 0, Seq::empty()) {
            None => None,
            Some((st1, kids)) => match entry_step(st1, cat[k].0) {
                None => None,
                Some((st2, p)) => maker_pass(st2, cat, k + 1, parsed.push((p, kids, cat[k].1.name, cat[k].2))),
            },
        }
    }
}

/// The store after linking the components at `kids[j..]` under the component at
/// `p`, each link carrying the association type and the logic name.
pub open spec fn maker_links(st: CatalogView, p: int, kids: Seq<int>, logic: Seq<char>, assoc: Seq<char>, j: int) -> Option<CatalogView>
    decreases kids.len() - j,
{
    if j < 0 || j >= kids.len() {
        Some(st)
    } else if p < 0 || p >= st.components.len() || kids[j] < 0 || kids[j] >= st.components.len()
        || st.db.component_assocs.last_id >= i32::MAX {
        None
    } else {
        let row = ComponentToComponentView {
            id: (st.db.component_assocs.last_id + 1) as i32,
            parent_id: st.components[p].id,
            child_id: st.components[kids[j]].id,
            association_type: assoc,
            logic_type: logic,
        };
        maker_links(CatalogView { db: DatabaseView { component_assocs: st.db.component_assocs.push(row), ..st.db }, ..st }, p, kids, logic, assoc, j + 1)
    }
}

/// The store after linking every resolved line.
pub open spec fn maker_link_pass(st: CatalogView, parsed: Seq<(int, Seq<int>, Seq<char>, Seq<char>)>, k: int) -> Option<CatalogView>
    decreases parsed.len() - k,
{
    if k < 0 || k >= parsed.len() {
        Some(st)
    } else {
        match maker_links(st, parsed[k].0, parsed[k].1, parsed[k].2, parsed[k].3, 0) {
            None => None,
            Some(st1) => maker_link_pass(st1, parsed, k + 1),
        }
    }
}

/// The store after requiring the components at `idxs[j..]` for the degree `did`.
pub open spec fn maker_requires(st: CatalogView, did: i32, idxs: Seq<int>, j: int) -> Option<CatalogView>
    decreases idxs.len() - j,
{
    if j < 0 || j >= idxs.len() {
        Some(st)
    } else if idxs[j] < 0 || idxs[j] >= st.components.len() || st.db.degree_assocs.last_id >= i32::MAX {
        None
    } else {
        let row = DegreeToComponentView {
            id: (st.db.degree_assocs.last_id + 1) as i32,
            degree_id: did,
            component_id: st.components[idxs[j]].id,
        };
        maker_requires(CatalogView { db: DatabaseView { degree_assocs: st.db.degree_assocs.push(row), ..st.db }, ..st }, did, idxs, j + 1)
    }
}

/// The store after storing the degrees of `reqs[k..]`, without description, with
/// their requirements.
pub open spec fn maker_degree_pass(st: CatalogView, reqs: Seq<(EntryView, Seq<EntryView>)>, k: int) -> Option<CatalogView>
    decreases reqs.len() - k,
{
    if k < 0 || k >= reqs.len() {
        Some(st)
    } else {
        match reqs[k].0 {
            EntryView::Degree(code, name, pftype) => if st.db.degrees.last_id >= i32::MAX {
                None
            } else {
                let d = DegreeView {
                    id: (st.db.degrees.last_id + 1) as i32,
                    name,
                    pftype,
                    code,
                    description: None,
                    subdivision: None,
                };
                let st1 = CatalogView { db: DatabaseView { degrees: st.db.degrees.push(d), ..st.db }, ..st };
                match entry_indices(st1, reqs[k].1, 0, Seq::empty()) {
                    None => None,
                    Some((st2, idxs)) => match maker_requires(st2, d.id, idxs, 0) {
                        None => None,
                        Some(st3) => maker_degree_pass(st3, reqs, k + 1),
                    },
                }
            },
            _ => None,
        }
    }
}

/// The whole run: the lines are resolved, then linked, then the degrees stored.
pub open spec fn maker_run(st: CatalogView, cat: Seq<(EntryView, MakerLogicView, Seq<char>)>, reqs: Seq<(EntryView, Seq<EntryView>)>) -> Option<CatalogView> {
    match maker_pass(st, cat, 0, Seq::empty()) {
        None => None,
        Some((st1, parsed)) => match maker_link_pass(st1, parsed, 0) {
            None => None,
            Some(st2) => maker_degree_pass(st2, reqs, 0),
        },
    }
}

/// Builds the catalog of lines into a store, each component stored once.
pub struct CatalogMaker {
    conn: Database,
    components: Vec<Component>,
}

impl View for CatalogMaker {
    type V = CatalogView;

    closed spec fn view(&self) -> CatalogView {
        run_state(self.conn@, self.components@)
    }
}

impl CatalogMaker {
    /// The store is well formed.
    pub closed spec fn wf(&self) -> bool {
        self.conn.wf()
    }

    /// A maker over the store `conn`, with no component met yet.
    pub fn new(conn: Database) -> (m: Self)
        requires
            conn.wf(),
        ensures
            m.wf(),
            m@ == (CatalogView { db: conn@, components: Seq::empty() }),
    {
        let m = CatalogMaker { conn, components: Vec::new() };
        assert(m@.components =~= Seq::<ComponentView>::empty());
        m
    }

    /// The store.
    pub fn database(&self) -> (d: &Database)
        ensures
            d@ == self@.db,
            self.wf() ==> d.wf(),
    {
        &self.conn
    }

    /// The store, giving up the maker.
    pub fn into_database(self) -> (d: Database)
        ensures
            d@ == self@.db,
            self.wf() ==> d.wf(),
    {
        self.conn
    }

    /// The position of the component named `name`: among those met, else from the
    /// store (it is then met).
    fn check_for_component(&mut self, name: &str) -> (r: Option<usize>)
        requires
            old(self).wf(),
        ensures
            final(self).wf(),
            final(self)@ == lookup(old(self)@, name@).0,
            match r {
                Some(i) => lookup(old(self)@, name@).1 == Some(i as int) && i < final(self)@.components.len(),
                None => lookup(old(self)@, name@).1 is None,
            },
    {
        locate_component(&mut self.conn, &mut self.components, name)
    }

    /// The position of the component named `name`, stored with type `logical` where
    /// it is new.
    pub fn reg(&mut self, name: &str) -> (r: usize)
        requires
            old(self).wf(),
            reg_step(old(self)@, name@) is Some,
        ensures
            final(self).wf(),
            reg_step(old(self)@, name@) == Some((final(self)@, r as int)),
            r < final(self)@.components.len(),
    {
        if let Some(index) = self.check_for_component(name) {
            return index;
        }
        let new_component = NewComponent {
            name: Some(name.to_owned()),
            pftype: Some("logical".to_owned()),
            logic_type: None,
        };
        match new_component.create(&mut self.conn) {
            Ok(component) => {
                let ghost before = self@.components;
                self.components.push(component);
                assert(self@.components =~= before.push(component@));
                self.components.len() - 1
            },
            // an exhausted id sequence is ruled out by the precondition
            Err(_) => 0,
        }
    }

    /// The position of the component of the class named `name`, of three credits.
    pub fn c(&mut self, name: &str) -> (r: usize)
        requires
            old(self).wf(),
            class_step(old(self)@, name@, 3) is Some,
        ensures
            final(self).wf(),
            class_step(old(self)@, name@, 3) == Some((final(self)@, r as int)),
            r < final(self)@.components.len(),
    {
        self.class(name, 3)
    }

    /// The position of the component of the class named `name`; where it is new, its
    /// component and its class row of `credits` credits are stored.
    pub fn class(&mut self, name: &str, credits: i32) -> (r: usize)
        requires
            old(self).wf(),
            class_step(old(self)@, name@, credits) is Some,
        ensures
            final(self).wf(),
            class_step(old(self)@, name@, credits) == Some((final(self)@, r as int)),
            r < final(self)@.components.len(),
    {
        if let Some(index) = self.check_for_component(name) {
            return index;
        }
        let new_component = NewComponent { name: Some(name.to_owned()), pftype: Some("class".to_owned()), logic_type: None };
        let index = match new_component.create_class_component(&mut self.conn) {
            Ok(comp) => {
                let ghost before = self@.components;
                self.components.push(comp);
                assert(self@.components =~= before.push(comp@));
                self.components.len() - 1
            },
            // an exhausted id sequence is ruled out by the precondition
            Err(_) => {
                return 0;
            },
        };
        let new_class = NewClass {
            name: Some(name.to_owned()),
            description: None,
            credits: Some(credits),
            pftype: None,
            subject: None,
            course_no: None,
            options: None,
            component_id: Some(self.components[index].id),
        };
        let ghost st1 = self@;
        let _ = new_class.create(&mut self.conn);
        assert(self@.components == st1.components);
        index
    }

    /// The position of the component of an entry.
    fn entry_index(&mut self, comp: &InstantiationType) -> (r: usize)
        requires
            old(self).wf(),
            entry_step(old(self)@, entry_view(*comp)) is Some,
        ensures
            final(self).wf(),
            entry_step(old(self)@, entry_view(*comp)) == Some((final(self)@, r as int)),
            r < final(self)@.components.len(),
    {
        match comp {
            InstantiationType::SimpleClass(c) => self.c(c),
            InstantiationType::Class(c) => self.class(c.0, c.1),
            InstantiationType::Reg(c) => self.reg(c),
            // a degree is no component: the precondition rules it out
            InstantiationType::Degree(_) => 0,
        }
    }

    /// Appends to `indices` the positions of the components of `instantiations`.
    fn instantiations_to_indices(&mut self, indices: &mut Vec<usize>, instantiations: &Vec<InstantiationType>)
        requires
            old(self).wf(),
            entry_indices(old(self)@, entries_view(instantiations@), 0, old(indices)@.map_values(|x: usize| x as int)) is Some,
        ensures
            final(self).wf(),
            entry_indices(old(self)@, entries_view(instantiations@), 0, old(indices)@.map_values(|x: usize| x as int))
                == Some((final(self)@, final(indices)@.map_values(|x: usize| x as int))),
    {
        let ghost ev = entries_view(instantiations@);
        let ghost total = entry_indices(self@, ev, 0, indices@.map_values(|x: usize| x as int));
        let n = instantiations.len();
        let mut k: usize = 0;
        while k < n
            invariant
                n == instantiations@.len() == ev.len(),
                ev == entries_view(instantiations@),
                0 <= k <= n,
                self.wf(),
                total is Some,
                entry_indices(self@, ev, k as int, indices@.map_values(|x: usize| x as int)) == total,
            decreases n - k,
        {
            let i = self.entry_index(&instantiations[k]);
            let ghost before = indices@;
            indices.push(i);
            assert(indices@.map_values(|x: usize| x as int) =~= before.map_values(|x: usize| x as int).push(i as int));
            k = k + 1;
        }
    }

    /// Links each component of `parsed_children` under the component at
    /// `parent_indice`, with the association type and the logic name.
    fn create_component_assoc(&mut self, parent_indice: usize, parsed_children: &ParsedLogicType, association_type: &str)
        requires
            old(self).wf(),
            maker_links(old(self)@, parent_indice as int, parsed_kids(*parsed_children), parsed_name(*parsed_children), association_type@, 0) is Some,
        ensures
            final(self).wf(),
            maker_links(old(self)@, parent_indice as int, parsed_kids(*parsed_children), parsed_name(*parsed_children), association_type@, 0)
                == Some(final(self)@),
    {
        let (logic_type, children_indices) = match parsed_children {
            ParsedLogicType::AND(v) => ("AND", v),
            ParsedLogicType::OR(v) => ("OR", v),
        };
        let ghost kv = parsed_kids(*parsed_children);
        let ghost total = maker_links(self@, parent_indice as int, kv, logic_type@, association_type@, 0);
        let n = children_indices.len();
        let mut j: usize = 0;
        while j < n
            invariant
                n == children_indices@.len() == kv.len(),
                kv == children_indices@.map_values(|x: usize| x as int),
                0 <= j <= n,
                self.wf(),
                total is Some,
                maker_links(self@, parent_indice as int, kv, logic_type@, association_type@, j as int) == total,
            decreases n - j,
        {
            let assoc = NewComponentAssoc {
                parent_id: self.components[parent_indice].id,
                child_id: self.components[children_indices[j]].id,
                association_type: Some(association_type.to_owned()),
                logic_type: Some(logic_type.to_owned()),
            };
            let _ = assoc.create(&mut self.conn);
            j = j + 1;
        }
    }

    /// Requires each component at `requirements` for `degree`.
    fn add_degree_requirements(&mut self, degree: Degree, requirements: Vec<usize>)
        requires
            old(self).wf(),
            maker_requires(old(self)@, degree.id, requirements@.map_values(|x: usize| x as int), 0) is Some,
        ensures
            final(self).wf(),
            maker_requires(old(self)@, degree.id, requirements@.map_values(|x: usize| x as int), 0) == Some(final(self)@),
    {
        let ghost rv = requirements@.map_values(|x: usize| x as int);
        let ghost total = maker_requires(self@, degree.id, rv, 0);
        let n = requirements.len();
        let mut j: usize = 0;
        while j < n
            invariant
                n == requirements@.len() == rv.len(),
                rv == requirements@.map_values(|x: usize| x as int),
                0 <= j <= n,
                self.wf(),
                total is Some,
                maker_requires(self@, degree.id, rv, j as int) == total,
            decreases n - j,
        {
            let assoc = NewDegreeToComponent {
                degree_id: degree.id,
                component_id: self.components[requirements[j]].id,
            };
            let _ = assoc.create(&mut self.conn);
            j = j + 1;
        }
    }

    /// Stores the catalog lines, links them, and stores the degrees with their
    /// requirements.
    pub fn gen_catalog(&mut self)
        requires
            old(self).wf(),
            maker_run(old(self)@, maker_catalog(), maker_requirements()) is Some,
        ensures
            final(self).wf(),
            maker_run(old(self)@, maker_catalog(), maker_requirements()) == Some(final(self)@),
    {
        let catalog = maker_catalog_entries();
        let ghost cv = maker_catalog();
        let ghost first = maker_pass(self@, cv, 0, Seq::empty());
        let mut parsed_assocs: Vec<(usize, ParsedLogicType, &str)> = Vec::new();
        assert(maker_parsed_view(parsed_assocs@) =~= Seq::<(int, Seq<int>, Seq<char>, Seq<char>)>::empty());
        let n = catalog.len();
        let mut k: usize = 0;
        while k < n
            invariant
                n == catalog@.len() == cv.len(),
                cv == maker_catalog_view(catalog@),
                0 <= k <= n,
                self.wf(),
                first is Some,
                maker_pass(self@, cv, k as int, maker_parsed_view(parsed_assocs@)) == first,
            decreases n - k,
        {
            let item = &catalog[k];
            let mut indices: Vec<usize> = Vec::new();
            assert(indices@.map_values(|x: usize| x as int) =~= Seq::<int>::empty());
            let children = match &item.1 {
                LogicalType::AND(v) => v,
                LogicalType::OR(v) => v,
            };
            self.instantiations_to_indices(&mut indices, children);
            let ghost kids = indices@;
            let parsed = match &item.1 {
                LogicalType::AND(_) => ParsedLogicType::AND(indices),
                LogicalType::OR(_) => ParsedLogicType::OR(indices),
            };
            let parent_indice = self.entry_index(&item.0);
            let ghost before = parsed_assocs@;
            parsed_assocs.push((parent_indice, parsed, item.2));
            assert(maker_parsed_view(parsed_assocs@) =~= maker_parsed_view(before).push(
                (parent_indice as int, kids.map_values(|x: usize| x as int), cv[k as int].1.name, item.2@),
            ));
            k = k + 1;
        }
        let ghost pv = maker_parsed_view(parsed_assocs@);
        let ghost second = maker_link_pass(self@, pv, 0);
        let m = parsed_assocs.len();
        let mut j: usize = 0;
        while j < m
            invariant
                m == parsed_assocs@.len() == pv.len(),
                pv == maker_parsed_view(parsed_assocs@),
                0 <= j <= m,
                self.wf(),
                second is Some,
                maker_link_pass(self@, pv, j as int) == second,
            decreases m - j,
        {
            self.create_component_assoc(parsed_assocs[j].0, &parsed_assocs[j].1, parsed_assocs[j].2);
            j = j + 1;
        }
        let degree_requirements = maker_requirement_entries();
        let ghost rv = maker_requirements();
        let ghost third = maker_degree_pass(self@, rv, 0);
        let dn = degree_requirements.len();
        let mut d: usize = 0;
        while d < dn
            invariant
                dn == degree_requirements@.len() == rv.len(),
                rv == maker_requirements_view(degree_requirements@),
                0 <= d <= dn,
                self.wf(),
                third is Some,
                maker_degree_pass(self@, rv, d as int) == third,
            decreases dn - d,
        {
            let item = &degree_requirements[d];
            match item.0 {
                InstantiationType::Degree(degree_strs) => {
                    let new_degree = NewDegree {
                        code: Some(degree_strs.0.to_owned()),
                        name: Some(degree_strs.1.to_owned()),
                        pftype: Some(degree_strs.2.to_owned()),
                        description: None,
                    };
                    match new_degree.create(&mut self.conn) {
                        Ok(degree) => {
                            let mut indices: Vec<usize> = Vec::new();
                            assert(indices@.map_values(|x: usize| x as int) =~= Seq::<int>::empty());
                            self.instantiations_to_indices(&mut indices, &item.1);
                            self.add_degree_requirements(degree, indices);
                        },
                        // an exhausted id sequence is ruled out by the precondition
                        Err(_) => {},
                    }
                },
                // every line is a degree: the precondition rules out any other
                _ => {},
            }
            d = d + 1;
        }
    }
}

} // verus!
