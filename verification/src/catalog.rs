use vstd::prelude::*;
use crate::db::{update_key, Database, DatabaseView};
use crate::models::associations::{ComponentToComponentView, DegreeToComponentView, NewComponentAssoc, NewDegreeToComponent};
use crate::models::class::{class_named, Class, ClassView, NewClass};
use crate::models::component::{component_named, Component, ComponentView, NewComponent};
use crate::models::degree::{Degree, DegreeView, NewDegree};
use crate::catalog_data::{
    catalog_run, full_catalog, full_catalog_entries, full_requirement_entries, full_requirements, test_catalog,
    test_catalog_entries, test_requirement_entries, test_requirements,
};
use crate::types::{logic_entries, logic_name, parsed_positions, InstantiationType, LogicalType, ParsedLogicType};

verus! {

/// An entry of the catalog, as values.
pub enum InstView {
    SimpleClass(Seq<char>),
    Class(Seq<char>, i32),
    Group(Seq<char>),
    Degree(Seq<char>, Seq<char>, Seq<char>, Seq<char>),
}

pub open spec fn inst_view(i: InstantiationType) -> InstView {
    match i {
        InstantiationType::SimpleClass(n) => InstView::SimpleClass(n@),
        InstantiationType::Class((n, c)) => InstView::Class(n@, c),
        InstantiationType::Group(n) => InstView::Group(n@),
        InstantiationType::Degree((a, b, c, d)) => InstView::Degree(a@, b@, c@, d@),
    }
}

pub open spec fn insts_view(v: Seq<InstantiationType>) -> Seq<InstView> {
    v.map_values(|i: InstantiationType| inst_view(i))
}

/// A catalog entry with its logic: the name of the logic and the entries it combines.
#[verifier::ext_equal]
pub struct LogicView {
    pub name: Seq<char>,
    pub entries: Seq<InstView>,
}

pub open spec fn logic_view(l: LogicalType) -> LogicView {
    LogicView { name: logic_name(l), entries: insts_view(logic_entries(l)@) }
}

/// The state of a catalog run: the store and the components met so far, in order.
pub struct CatalogView {
    pub db: DatabaseView,
    pub components: Seq<ComponentView>,
}

/// `i` is the first position of a component named `name`.
pub open spec fn first_cached(cache: Seq<ComponentView>, name: Seq<char>, i: int) -> bool {
    &&& 0 <= i < cache.len()
    &&& cache[i].name == name
    &&& forall|j: int| 0 <= j < i ==> (#[trigger] cache[j]).name != name
}

/// Some component met so far is named `name`.
pub open spec fn cached(cache: Seq<ComponentView>, name: Seq<char>) -> bool {
    exists|i: int| first_cached(cache, name, i)
}

/// The component named `name`: the first one met so far, else the first one of the
/// store (which is then met), else none.
pub open spec fn lookup(st: CatalogView, name: Seq<char>) -> (CatalogView, Option<int>) {
    if cached(st.components, name) {
        (st, Some(choose|i: int| first_cached(st.components, name, i)))
    } else {
        match component_named(st.db.components.rows, name) {
            Some(c) => (CatalogView { components: st.components.push(c), ..st }, Some(st.components.len() as int)),
            None => (st, None),
        }
    }
}

/// The component named `name` of type `pftype` with logic `logic`: a component met
/// or stored already keeps its logic, or takes `logic` where it has none; giving a
/// second logic fails; otherwise a new component is stored. The answer is its
/// position among the components met.
pub open spec fn created_component(st: CatalogView, name: Seq<char>, pftype: Seq<char>, logic: Option<Seq<char>>) -> Option<(CatalogView, int)> {
    let (st1, found) = lookup(st, name);
    match found {
        Some(i) => match st1.components[i].logic_type {
            Some(_) => if logic is Some { None } else { Some((st1, i)) },
            None => match logic {
                None => Some((st1, i)),
                Some(l) => {
                    let c = st1.components[i];
                    let db2 = DatabaseView {
                        components: st1.db.components.with_rows(
                            update_key::<Component>(st1.db.components.rows, c.id, |r: ComponentView| ComponentView { logic_type: Some(l), ..r }),
                        ),
                        ..st1.db
                    };
                    Some((CatalogView { db: db2, components: st1.components.update(i, ComponentView { logic_type: Some(l), ..c }) }, i))
                },
            },
        },
        None => if pftype != "Group"@ && pftype != "Class"@ {
            None
        } else if st1.db.components.last_id >= i32::MAX {
            None
        } else {
            let row = ComponentView { id: (st1.db.components.last_id + 1) as i32, name, pftype, logic_type: logic };
            Some((
                CatalogView { db: DatabaseView { components: st1.db.components.push(row), ..st1.db }, components: st1.components.push(row) },
                st1.components.len() as int,
            ))
        },
    }
}

/// The class named `name`: its component, and a class row with `credits` where the
/// store has no class of that name.
pub open spec fn created_class(st: CatalogView, name: Seq<char>, credits: i32, logic: Option<Seq<char>>) -> Option<(CatalogView, int)> {
    match created_component(st, name, "Class"@, logic) {
        None => None,
        Some((st1, idx)) => match class_named(st1.db.classes.rows, name) {
            Some(_) => Some((st1, idx)),
            None => if st1.db.classes.last_id >= i32::MAX || idx < 0 || idx >= st1.components.len() {
                None
            } else {
                let row = ClassView {
                    id: (st1.db.classes.last_id + 1) as i32,
                    name,
                    description: None,
                    credits: Some(credits),
                    pftype: Seq::empty(),
                    subject: None,
                    course_no: None,
                    options: None,
                    component_id: Some(st1.components[idx].id),
                };
                Some((CatalogView { db: DatabaseView { classes: st1.db.classes.push(row), ..st1.db }, ..st1 }, idx))
            },
        },
    }
}

/// The component of an entry: a group, or a class (three credits for a simple
/// class); a degree is no component.
pub open spec fn parsed_item(st: CatalogView, inst: InstView, logic: Option<Seq<char>>) -> Option<(CatalogView, int)> {
    match inst {
        InstView::Group(n) => created_component(st, n, "Group"@, logic),
        InstView::SimpleClass(n) => created_class(st, n, 3, logic),
        InstView::Class(n, c) => created_class(st, n, c, logic),
        InstView::Degree(..) => None,
    }
}

/// The positions of the components of `insts[k..]`, after `acc`.
pub open spec fn indices_of(st: CatalogView, insts: Seq<InstView>, k: int, acc: Seq<int>) -> Option<(CatalogView, Seq<int>)>
    decreases insts.len() - k,
{
    if k < 0 || k >= insts.len() {
        Some((st, acc))
    } else {
        match parsed_item(st, insts[k], None) {
            None => None,
            Some((st1, i)) => indices_of(st1, insts, k + 1, acc.push(i)),
        }
    }
}

/// The first pass over the catalog `cat[k..]`: each parent entry takes its logic,
/// then its entries are resolved; the answer pairs each parent with its children.
pub open spec fn initial_pass(st: CatalogView, cat: Seq<(InstView, LogicView)>, k: int, parsed: Seq<(int, Seq<int>)>) -> Option<(CatalogView, Seq<(int, Seq<int>)>)>
    decreases cat.len() - k,
{
    if k < 0 || k >= cat.len() {
        Some((st, parsed))
    } else {
        match parsed_item(st, cat[k].0, Some(cat[k].1.name)) {
            None => None,
            Some((st1, p)) => match indices_of(st1, cat[k].1.entries, 0, Seq::empty()) {
                None => None,
                Some((st2, kids)) => initial_pass(st2, cat, k + 1, parsed.push((p, kids))),
            },
        }
    }
}

/// The store after linking the components at `kids[j..]` under the component at `p`.
pub open spec fn link_children(st: CatalogView, p: int, kids: Seq<int>, j: int) -> Option<CatalogView>
    decreases kids.len() - j,
{
    if j < 0 || j >= kids.len() {
        Some(st)
    } else if p < 0 || p >= st.components.len() || kids[j] < 0 || kids[j] >= st.components.len()
        || st.db.component_assocs.last_id >= i32::MAX {
        None
    } else {
        let row = ComponentToComponentView {
            id: (st.db.component_assocs.last_id + 1) as i32,
            parent_id: st.components[p].id,
            child_id: st.components[kids[j]].id,
            association_type: Seq::empty(),
            logic_type: Seq::empty(),
        };
        link_children(CatalogView { db: DatabaseView { component_assocs: st.db.component_assocs.push(row), ..st.db }, ..st }, p, kids, j + 1)
    }
}

/// The store after linking every parsed parent with its children.
pub open spec fn assoc_pass(st: CatalogView, parsed: Seq<(int, Seq<int>)>, k: int) -> Option<CatalogView>
    decreases parsed.len() - k,
{
    if k < 0 || k >= parsed.len() {
        Some(st)
    } else {
        match link_children(st, parsed[k].0, parsed[k].1, 0) {
            None => None,
            Some(st1) => assoc_pass(st1, parsed, k + 1),
        }
    }
}

/// The catalog run of `parse_initial_catalog`.
pub open spec fn initial_catalog(st: CatalogView, cat: Seq<(InstView, LogicView)>) -> Option<CatalogView> {
    match initial_pass(st, cat, 0, Seq::empty()) {
        None => None,
        Some((st1, parsed)) => assoc_pass(st1, parsed, 0),
    }
}

/// The store after requiring the components at `idxs[j..]` for the degree `did`.
pub open spec fn add_requirements(st: CatalogView, did: i32, idxs: Seq<int>, j: int) -> Option<CatalogView>
    decreases idxs.len() - j,
{
    if j < 0 || j >= idxs.len() {
        Some(st)
    } else if idxs[j] < 0 || idxs[j] >= st.components.len() || st.db.degree_assocs.last_id >= i32::MAX {
        None
    } else {
        let row = DegreeToComponentView {
            id: (st.db.degree_assocs.last_id + 1) as i32,
            degree_id: did,
            component_id: st.components[idxs[j]].id,
        };
        add_requirements(CatalogView { db: DatabaseView { degree_assocs: st.db.degree_assocs.push(row), ..st.db }, ..st }, did, idxs, j + 1)
    }
}

/// The store after storing the degrees of `reqs[k..]` with their requirements.
pub open spec fn degree_pass(st: CatalogView, reqs: Seq<(InstView, Seq<InstView>)>, k: int) -> Option<CatalogView>
    decreases reqs.len() - k,
{
    if k < 0 || k >= reqs.len() {
        Some(st)
    } else {
        match reqs[k].0 {
            InstView::Degree(code, name, pftype, description) => if st.db.degrees.last_id >= i32::MAX {
                None
            } else {
                let d = DegreeView {
                    id: (st.db.degrees.last_id + 1) as i32,
                    name,
                    pftype,
                    code,
                    description: Some(description),
                    subdivision: None,
                };
                let st1 = CatalogView { db: DatabaseView { degrees: st.db.degrees.push(d), ..st.db }, ..st };
                match indices_of(st1, reqs[k].1, 0, Seq::empty()) {
                    None => None,
                    Some((st2, idxs)) => match add_requirements(st2, d.id, idxs, 0) {
                        None => None,
                        Some(st3) => degree_pass(st3, reqs, k + 1),
                    },
                }
            },
            _ => None,
        }
    }
}

/// The name of an optional logic type.
pub open spec fn logic_opt(l: Option<&LogicalType>) -> Option<Seq<char>> {
    match l {
        Some(l) => Some(logic_name(*l)),
        None => None,
    }
}

/// Positions as integers.
pub open spec fn positions(v: Seq<usize>) -> Seq<int> {
    v.map_values(|x: usize| x as int)
}

/// A catalog, as values.
pub open spec fn catalog_view(v: Seq<(InstantiationType, LogicalType)>) -> Seq<(InstView, LogicView)> {
    v.map_values(|e: (InstantiationType, LogicalType)| (inst_view(e.0), logic_view(e.1)))
}

/// Degree requirements, as values.
pub open spec fn requirements_view(v: Seq<(InstantiationType, Vec<InstantiationType>)>) -> Seq<(InstView, Seq<InstView>)> {
    v.map_values(|e: (InstantiationType, Vec<InstantiationType>)| (inst_view(e.0), insts_view(e.1@)))
}

/// Parents with the positions of their children, as values.
pub open spec fn parsed_view(v: Seq<(usize, ParsedLogicType)>) -> Seq<(int, Seq<int>)> {
    v.map_values(|e: (usize, ParsedLogicType)| (e.0 as int, positions(parsed_positions(e.1))))
}

/// Builds the catalog into a store: components, classes, their links and the
/// requirements of degrees, each entry stored once.
pub struct Catalog {
    conn: Database,
    components: Vec<Component>,
}

impl View for Catalog {
    type V = CatalogView;

    closed spec fn view(&self) -> CatalogView {
        run_state(self.conn@, self.components@)
    }
}

impl Catalog {
    /// The store is well formed.
    pub closed spec fn wf(&self) -> bool {
        self.conn.wf()
    }

    /// A catalog over the store `conn`, with no component met yet.
    pub fn new(conn: Database) -> (c: Self)
        requires
            conn.wf(),
        ensures
            c.wf(),
            c@ == (CatalogView { db: conn@, components: Seq::empty() }),
    {
        let c = Catalog { conn, components: Vec::new() };
        assert(c@.components =~= Seq::<ComponentView>::empty());
        c
    }

    /// The store.
    pub fn database(&self) -> (d: &Database)
        ensures
            d@ == self@.db,
            self.wf() ==> d.wf(),
    {
        &self.conn
    }

    /// The store, giving up the catalog.
    pub fn into_database(self) -> (d: Database)
        ensures
            d@ == self@.db,
            self.wf() ==> d.wf(),
    {
        self.conn
    }


    /// The position of the component named `name`: among those met, else from the
    /// store (it is then met).
    fn check_for_component(&mut self, name: &str) -> (r: Option<usize>)
        requires
            old(self).wf(),
        ensures
            final(self).wf(),
            final(self)@ == lookup(old(self)@, name@).0,
            match r {
                Some(i) => lookup(old(self)@, name@).1 == Some(i as int) && i < final(self)@.components.len(),
                None => lookup(old(self)@, name@).1 is None,
            },
    {
        locate_component(&mut self.conn, &mut self.components, name)
    }
}

pub proof fn lemma_first_cached_unique(cache: Seq<ComponentView>, name: Seq<char>, i: int, j: int)
    requires
        first_cached(cache, name, i),
        first_cached(cache, name, j),
    ensures
        i == j,
{
    if i < j {
        assert(cache[i].name != name);
    } else if j < i {
        assert(cache[j].name != name);
    }
}

/// The state of a catalog run over the store `db` with the components `cache` met.
pub open spec fn run_state(db: DatabaseView, cache: Seq<Component>) -> CatalogView {
    CatalogView { db, components: cache.map_values(|c: Component| c@) }
}

/// The position of the component named `name` among the components met,
/// `components`; where none is named so, the first one of the store is met.
pub(crate) fn locate_component(conn: &mut Database, components: &mut Vec<Component>, name: &str) -> (r: Option<usize>)
    requires
        old(conn).wf(),
    ensures
        final(conn).wf(),
        run_state(final(conn)@, final(components)@) == lookup(run_state(old(conn)@, old(components)@), name@).0,
        match r {
            Some(i) => lookup(run_state(old(conn)@, old(components)@), name@).1 == Some(i as int)
                && i < final(components)@.len(),
            None => lookup(run_state(old(conn)@, old(components)@), name@).1 is None,
        },
{
    let ghost cache = run_state(conn@, components@).components;
    let wanted = name.to_owned();
    let n = components.len();
    let mut i: usize = 0;
    while i < n
        invariant
            n == components.len(),
            conn.wf(),
            cache == run_state(conn@, components@).components,
            wanted@ == name@,
            0 <= i <= n,
            forall|j: int| 0 <= j < i ==> (#[trigger] cache[j]).name != name@,
        decreases n - i,
    {
        if components[i].name == wanted {
            proof {
                assert(first_cached(cache, name@, i as int));
                let k = choose|k: int| first_cached(cache, name@, k);
                lemma_first_cached_unique(cache, name@, i as int, k);
            }
            return Some(i);
        }
        i = i + 1;
    }
    assert(!cached(cache, name@));
    match Component::find_by_name(name, conn) {
        Ok(c) => {
            components.push(c);
            assert(run_state(conn@, components@).components =~= cache.push(c@));
            Some(components.len() - 1)
        },
        Err(_) => None,
    }
}

impl Catalog {
    /// The position of the component named `name`, of type `pftype`; it takes the
    /// logic `logic_type` where it has none yet, and is stored where it is new.
    fn create_component(&mut self, name: &str, pftype: &str, logic_type: Option<&LogicalType>) -> (r: usize)
        requires
            old(self).wf(),
            created_component(old(self)@, name@, pftype@, logic_opt(logic_type)) is Some,
        ensures
            final(self).wf(),
            created_component(old(self)@, name@, pftype@, logic_opt(logic_type)) == Some((final(self)@, r as int)),
            r < final(self)@.components.len(),
    {
        let ghost st = self@;
        if let Some(index) = self.check_for_component(name) {
            if self.components[index].logic_type.is_none() {
                if let Some(l) = logic_type {
                    let id = self.components[index].id;
                    let ls = l.to_string();
                    let ghost lsv = ls@;
                    let _ = Component::update_logic_type(&id, ls, &mut self.conn);
                    let updated = Component {
                        id,
                        name: self.components[index].name.clone(),
                        pftype: self.components[index].pftype.clone(),
                        logic_type: Some(l.to_string()),
                    };
                    let ghost before = self@.components;
                    self.components.set(index, updated);
                    proof {
                        let ln = logic_name(*l);
                        assert(self@.components =~= before.update(index as int, ComponentView { logic_type: Some(ln), ..before[index as int] }));
                        assert((|r: ComponentView| ComponentView { logic_type: Some(ln), ..r })
                            =~= (|c: ComponentView| ComponentView { logic_type: Some(lsv), ..c }));
                    }
                }
            }
            return index;
        }
        let logic_str = match logic_type {
            Some(l) => Some(l.to_string()),
            None => None,
        };
        let new_component = NewComponent {
            name: Some(name.to_owned()),
            pftype: Some(pftype.to_owned()),
            logic_type: logic_str,
        };
        match new_component.create(&mut self.conn) {
            Ok(component) => {
                let ghost before = self@.components;
                self.components.push(component);
                assert(self@.components =~= before.push(component@));
                self.components.len() - 1
            },
            // an exhausted id sequence is ruled out by the precondition
            Err(_) => 0,
        }
    }

    /// The position of the component of the class named `name`; the class is stored,
    /// with `credits`, where the store has none of that name.
    fn create_class(&mut self, name: &str, credits: i32, logic_type: Option<&LogicalType>) -> (r: usize)
        requires
            old(self).wf(),
            created_class(old(self)@, name@, credits, logic_opt(logic_type)) is Some,
        ensures
            final(self).wf(),
            created_class(old(self)@, name@, credits, logic_opt(logic_type)) == Some((final(self)@, r as int)),
            r < final(self)@.components.len(),
    {
        let index = self.create_component(name, "Class", logic_type);
        match Class::find_by_name(name, &mut self.conn) {
            Ok(_) => {},
            Err(_) => {
                let new_class = NewClass {
                    name: Some(name.to_owned()),
                    description: None,
                    credits: Some(credits),
                    pftype: None,
                    subject: None,
                    course_no: None,
                    options: None,
                    component_id: Some(self.components[index].id),
                };
                let ghost st1 = self@;
                let _ = new_class.create(&mut self.conn);
                assert(self@.components == st1.components);
            },
        }
        index
    }

    /// The position of the component of a catalog entry, with logic `logic_type`.
    fn parse_catalog_item(&mut self, instantiation_type: &InstantiationType, logic_type: Option<&LogicalType>) -> (r: usize)
        requires
            old(self).wf(),
            parsed_item(old(self)@, inst_view(*instantiation_type), logic_opt(logic_type)) is Some,
        ensures
            final(self).wf(),
            parsed_item(old(self)@, inst_view(*instantiation_type), logic_opt(logic_type)) == Some((final(self)@, r as int)),
            r < final(self)@.components.len(),
    {
        match instantiation_type {
            InstantiationType::Group(name) => self.create_component(name, "Group", logic_type),
            InstantiationType::SimpleClass(name) => self.create_class(name, 3, logic_type),
            InstantiationType::Class((name, credits)) => self.create_class(name, *credits, logic_type),
            // a degree is no component: the precondition rules it out
            InstantiationType::Degree(_) => 0,
        }
    }
}

impl Catalog {
    /// Appends to `indices` the positions of the components of `instantiations`.
    fn instantiations_to_indices(&mut self, indices: &mut Vec<usize>, instantiations: &Vec<InstantiationType>)
        requires
            old(self).wf(),
            indices_of(old(self)@, insts_view(instantiations@), 0, positions(old(indices)@)) is Some,
        ensures
            final(self).wf(),
            indices_of(old(self)@, insts_view(instantiations@), 0, positions(old(indices)@))
                == Some((final(self)@, positions(final(indices)@))),
    {
        let ghost iv = insts_view(instantiations@);
        let ghost total = indices_of(self@, iv, 0, positions(indices@));
        let n = instantiations.len();
        let mut k: usize = 0;
        while k < n
            invariant
                n == instantiations@.len() == iv.len(),
                iv == insts_view(instantiations@),
                0 <= k <= n,
                self.wf(),
                total is Some,
                indices_of(self@, iv, k as int, positions(indices@)) == total,
            decreases n - k,
        {
            let i = self.parse_catalog_item(&instantiations[k], None);
            let ghost before = indices@;
            indices.push(i);
            assert(positions(indices@) =~= positions(before).push(i as int));
            k = k + 1;
        }
    }

    /// Links each component at `parsed_children_indices` under the component at
    /// `parent_indice`.
    fn create_component_assoc(&mut self, parent_indice: usize, parsed_children_indices: &ParsedLogicType)
        requires
            old(self).wf(),
            link_children(old(self)@, parent_indice as int, positions(parsed_positions(*parsed_children_indices)), 0) is Some,
        ensures
            final(self).wf(),
            link_children(old(self)@, parent_indice as int, positions(parsed_positions(*parsed_children_indices)), 0)
                == Some(final(self)@),
    {
        let kids = parsed_children_indices.indices();
        let ghost kv = positions(kids@);
        let ghost total = link_children(self@, parent_indice as int, kv, 0);
        let n = kids.len();
        let mut j: usize = 0;
        while j < n
            invariant
                n == kids@.len() == kv.len(),
                kv == positions(kids@),
                0 <= j <= n,
                self.wf(),
                total is Some,
                link_children(self@, parent_indice as int, kv, j as int) == total,
            decreases n - j,
        {
            let assoc = NewComponentAssoc {
                parent_id: self.components[parent_indice].id,
                child_id: self.components[kids[j]].id,
                association_type: None,
                logic_type: None,
            };
            let _ = assoc.create(&mut self.conn);
            j = j + 1;
        }
    }

    /// Requires each component at `requirements` for `degree`.
    fn add_degree_requirements(&mut self, degree: Degree, requirements: Vec<usize>)
        requires
            old(self).wf(),
            add_requirements(old(self)@, degree.id, positions(requirements@), 0) is Some,
        ensures
            final(self).wf(),
            add_requirements(old(self)@, degree.id, positions(requirements@), 0) == Some(final(self)@),
    {
        let ghost rv = positions(requirements@);
        let ghost total = add_requirements(self@, degree.id, rv, 0);
        let n = requirements.len();
        let mut j: usize = 0;
        while j < n
            invariant
                n == requirements@.len() == rv.len(),
                rv == positions(requirements@),
                0 <= j <= n,
                self.wf(),
                total is Some,
                add_requirements(self@, degree.id, rv, j as int) == total,
            decreases n - j,
        {
            let assoc = NewDegreeToComponent {
                degree_id: degree.id,
                component_id: self.components[requirements[j]].id,
            };
            let _ = assoc.create(&mut self.conn);
            j = j + 1;
        }
    }
}

impl Catalog {
    /// Stores the catalog: each parent entry with its logic, then its entries, and
    /// then the links from every parent to its entries.
    pub fn parse_initial_catalog(&mut self, catalog: Vec<(InstantiationType, LogicalType)>)
        requires
            old(self).wf(),
            initial_catalog(old(self)@, catalog_view(catalog@)) is Some,
        ensures
            final(self).wf(),
            initial_catalog(old(self)@, catalog_view(catalog@)) == Some(final(self)@),
    {
        let ghost cv = catalog_view(catalog@);
        let ghost first = initial_pass(self@, cv, 0, Seq::empty());
        let mut parsed_assocs: Vec<(usize, ParsedLogicType)> = Vec::new();
        assert(parsed_view(parsed_assocs@) =~= Seq::<(int, Seq<int>)>::empty());
        let n = catalog.len();
        let mut k: usize = 0;
        while k < n
            invariant
                n == catalog@.len() == cv.len(),
                cv == catalog_view(catalog@),
                0 <= k <= n,
                self.wf(),
                first is Some,
                initial_pass(self@, cv, k as int, parsed_view(parsed_assocs@)) == first,
            decreases n - k,
        {
            let item = &catalog[k];
            let parent_indice = self.parse_catalog_item(&item.0, Some(&item.1));
            let mut indices: Vec<usize> = Vec::new();
            assert(positions(indices@) =~= Seq::<int>::empty());
            self.instantiations_to_indices(&mut indices, item.1.entries());
            let ghost kids = indices@;
            let parsed = match &item.1 {
                LogicalType::AND(_) => ParsedLogicType::AND(indices),
                LogicalType::OR(_) => ParsedLogicType::OR(indices),
                LogicalType::GroupAND(_) => ParsedLogicType::GroupAND(indices),
                LogicalType::GroupOR(_) => ParsedLogicType::GroupOR(indices),
                LogicalType::PrereqAND(_) => ParsedLogicType::PrereqAND(indices),
                LogicalType::PrereqOR(_) => ParsedLogicType::PrereqOR(indices),
            };
            assert(parsed_positions(parsed) == kids);
            let ghost before = parsed_assocs@;
            parsed_assocs.push((parent_indice, parsed));
            assert(parsed_view(parsed_assocs@) =~= parsed_view(before).push((parent_indice as int, positions(kids))));
            k = k + 1;
        }
        let ghost pv = parsed_view(parsed_assocs@);
        let m = parsed_assocs.len();
        let mut j: usize = 0;
        while j < m
            invariant
                m == parsed_assocs@.len() == pv.len(),
                pv == parsed_view(parsed_assocs@),
                0 <= j <= m,
                self.wf(),
                initial_catalog(old(self)@, cv) == assoc_pass(self@, pv, j as int),
                assoc_pass(self@, pv, j as int) is Some,
            decreases m - j,
        {
            self.create_component_assoc(parsed_assocs[j].0, &parsed_assocs[j].1);
            j = j + 1;
        }
    }

    /// Stores each degree of `degree_requirements` and requires of it the components
    /// of its entries.
    fn parse_degree_requirements(&mut self, degree_requirements: Vec<(InstantiationType, Vec<InstantiationType>)>)
        requires
            old(self).wf(),
            degree_pass(old(self)@, requirements_view(degree_requirements@), 0) is Some,
        ensures
            final(self).wf(),
            degree_pass(old(self)@, requirements_view(degree_requirements@), 0) == Some(final(self)@),
    {
        let ghost rv = requirements_view(degree_requirements@);
        let ghost total = degree_pass(self@, rv, 0);
        let n = degree_requirements.len();
        let mut k: usize = 0;
        while k < n
            invariant
                n == degree_requirements@.len() == rv.len(),
                rv == requirements_view(degree_requirements@),
                0 <= k <= n,
                self.wf(),
                total is Some,
                degree_pass(self@, rv, k as int) == total,
            decreases n - k,
        {
            let item = &degree_requirements[k];
            match item.0 {
                InstantiationType::Degree((code, name, pftype, description)) => {
                    let new_degree = NewDegree {
                        code: Some(code.to_owned()),
                        name: Some(name.to_owned()),
                        pftype: Some(pftype.to_owned()),
                        description: Some(description.to_owned()),
                    };
                    match new_degree.create(&mut self.conn) {
                        Ok(degree) => {
                            let mut indices: Vec<usize> = Vec::new();
                            assert(positions(indices@) =~= Seq::<int>::empty());
                            self.instantiations_to_indices(&mut indices, &item.1);
                            self.add_degree_requirements(degree, indices);
                        },
                        // an exhausted id sequence is ruled out by the precondition
                        Err(_) => {},
                    }
                },
                // every entry is a degree: the precondition rules out any other
                _ => {},
            }
            k = k + 1;
        }
    }
}

impl Catalog {
    /// Stores the test catalog and the test degrees.
    pub fn gen_test_catalog(&mut self)
        requires
            old(self).wf(),
            catalog_run(old(self)@, test_catalog(), test_requirements()) is Some,
        ensures
            final(self).wf(),
            catalog_run(old(self)@, test_catalog(), test_requirements()) == Some(final(self)@),
    {
        let catalog = test_catalog_entries();
        let degree_requirements = test_requirement_entries();
        self.parse_initial_catalog(catalog);
        self.parse_degree_requirements(degree_requirements);
    }

    /// Stores the full catalog and its degrees.
    pub fn gen_full_catalog(&mut self)
        requires
            old(self).wf(),
            catalog_run(old(self)@, full_catalog(), full_requirements()) is Some,
        ensures
            final(self).wf(),
            catalog_run(old(self)@, full_catalog(), full_requirements()) == Some(final(self)@),
    {
        let catalog = full_catalog_entries();
        self.parse_initial_catalog(catalog);
        let degree_requirements = full_requirement_entries();
        self.parse_degree_requirements(degree_requirements);
    }
}

} // verus!
