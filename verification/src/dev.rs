use vstd::prelude::*;
use crate::db::{Record, Table, TableView};

verus! {

/// A class row of the seeding tool's store: the name and the credits it is
/// seeded with; the columns it leaves unset keep their defaults.
#[derive(Debug)]
pub struct SeedClass {
    pub id: i32,
    pub name: String,
    pub credits: i32,
}

pub struct SeedClassView {
    pub id: i32,
    pub name: Seq<char>,
    pub credits: i32,
}

impl View for SeedClass {
    type V = SeedClassView;

    open spec fn view(&self) -> SeedClassView {
        SeedClassView { id: self.id, name: self.name@, credits: self.credits }
    }
}

impl Record for SeedClass {
    open spec fn key_of(v: SeedClassView) -> i32 {
        v.id
    }

    fn id_of(&self) -> (r: i32) {
        self.id
    }

    fn duplicate(&self) -> (r: SeedClass) {
        SeedClass { id: self.id, name: self.name.clone(), credits: self.credits }
    }
}

/// A component row of the seeding tool's store: its title and the class it stands
/// for; the columns it leaves unset keep their defaults.
#[derive(Debug)]
pub struct SeedComponent {
    pub id: i32,
    pub title: String,
    pub class: Option<i32>,
}

pub struct SeedComponentView {
    pub id: i32,
    pub title: Seq<char>,
    pub class: Option<i32>,
}

impl View for SeedComponent {
    type V = SeedComponentView;

    open spec fn view(&self) -> SeedComponentView {
        SeedComponentView { id: self.id, title: self.title@, class: self.class }
    }
}

impl Record for SeedComponent {
    open spec fn key_of(v: SeedComponentView) -> i32 {
        v.id
    }

    fn id_of(&self) -> (r: i32) {
        self.id
    }

    fn duplicate(&self) -> (r: SeedComponent) {
        SeedComponent { id: self.id, title: self.title.clone(), class: self.class }
    }
}

/// The store of the seeding tool: its class table and its component table, where
/// a component names the class it stands for.
pub struct SeedStore {
    pub class: Table<SeedClass>,
    pub component: Table<SeedComponent>,
}

pub struct SeedStoreView {
    pub class: TableView<SeedClassView>,
    pub component: TableView<SeedComponentView>,
}

impl View for SeedStore {
    type V = SeedStoreView;

    open spec fn view(&self) -> SeedStoreView {
        SeedStoreView { class: self.class@, component: self.component@ }
    }
}

impl SeedStore {
    /// Both tables are well formed.
    pub open spec fn wf(&self) -> bool {
        self.class.wf() && self.component.wf()
    }

    /// An empty store.
    pub fn new() -> (s: SeedStore)
        ensures
            s.wf(),
            s@.class.rows.len() == 0 && s@.class.last_id == 0,
            s@.component.rows.len() == 0 && s@.component.last_id == 0,
    {
        SeedStore { class: Table::new(), component: Table::new() }
    }
}

/// The classes of the catalog, with their credits.
pub open spec fn seed_classes() -> Seq<(Seq<char>, i32)> {
    seq![
        ("CNIT 15501"@, 3),
        ("CNIT 17600"@, 3),
        ("CNIT 18000"@, 3),
        ("CNIT 24200"@, 3),
        ("CNIT 25501"@, 3),
        ("CNIT 27000"@, 3),
        ("CNIT 27200"@, 3),
        ("CNIT 28000"@, 3),
        ("CNIT 32000"@, 3),
        ("CNIT 48000"@, 3),
        ("CNIT 37200"@, 3),
        ("CNIT 39200"@, 3),
        ("CNIT 31500"@, 3),
        ("CNIT 32500"@, 3),
        ("CNIT 38000"@, 3),
        ("CGT 25600"@, 3),
        ("CNIT 32200"@, 3),
        ("CNIT 24000"@, 3),
        ("CNIT 34500"@, 3),
        ("CNIT 34600"@, 3),
        ("CNIT 34400"@, 3),
        ("CNIT 34000"@, 3),
        ("CNIT 34010"@, 1),
        ("CNIT 34210"@, 1),
        ("CNIT 34220"@, 2),
        ("CNIT 37000"@, 3),
        ("CNIT 42000"@, 3),
        ("CNIT 42200"@, 3),
        ("CNIT 45500"@, 3),
        ("CNIT 47000"@, 3),
        ("CNIT 47100"@, 3),
        ("ITSEL 00000"@, 3),
        ("CSECSEL 00000"@, 3),
        ("SCLA 10100"@, 3),
        ("SCLA 10200"@, 3),
        ("TECH 12000"@, 3),
        ("MA 16010"@, 4),
        ("MA 16020"@, 4),
        ("OLS 25200"@, 3),
        ("TLI 11200"@, 3),
        ("COMSEL 00000"@, 3),
        ("ECONSEL 00000"@, 3),
        ("SCISEL 00000"@, 4),
        ("LABSCISEL 00000"@, 4),
        ("ACCSEL 00000"@, 3),
        ("STATSEL 00000"@, 3),
        ("SPEAKSEL 00000"@, 3),
        ("WRITINGSEL 00000"@, 3),
        ("INTERDISC 00000"@, 3),
        ("IET 10400"@, 3),
        ("IT 10400"@, 3),
        ("TLI 11100"@, 3),
        ("TLI 15200"@, 3),
        ("PHIL 15000"@, 3),
        ("HUMSEL 00000"@, 3),
        ("BEHAVSCISEL 00000"@, 3),
        ("FOUNDSEL 00000"@, 3),
        ("FREE 00000"@, 3),
        ("SAADSEL 00000"@, 3),
    ]
}

/// The store after seeding the class `name` of `credits` credits and a component
/// titled with its name that stands for it.
pub open spec fn class_seeded(db: SeedStoreView, name: Seq<char>, credits: i32) -> SeedStoreView {
    let class_id = (db.class.last_id + 1) as i32;
    SeedStoreView {
        class: db.class.push(SeedClassView { id: class_id, name, credits }),
        component: db.component.push(SeedComponentView { id: (db.component.last_id + 1) as i32, title: name, class: Some(class_id) }),
    }
}

/// The store after seeding the classes `list[k..]`.
pub open spec fn seeded(db: SeedStoreView, list: Seq<(Seq<char>, i32)>, k: int) -> SeedStoreView
    decreases list.len() - k,
{
    if k < 0 || k >= list.len() {
        db
    } else {
        seeded(class_seeded(db, list[k].0, list[k].1), list, k + 1)
    }
}

/// The ids of both tables leave room for `n` more rows.
pub open spec fn room_for(db: SeedStoreView, n: int) -> bool {
    db.class.last_id + n <= i32::MAX && db.component.last_id + n <= i32::MAX
}

/// Stores a class named `name` of `credits` credits.
fn create_class(conn: &mut SeedStore, name: &str, credits: i32) -> (c: SeedClass)
    requires
        old(conn).wf(),
        old(conn)@.class.last_id < i32::MAX,
    ensures
        final(conn).wf(),
        c@ == (SeedClassView { id: (old(conn)@.class.last_id + 1) as i32, name: name@, credits }),
        final(conn)@ == (SeedStoreView { class: old(conn)@.class.push(c@), ..old(conn)@ }),
{
    let id = conn.class.next_id().expect("error saving new class");
    let row = SeedClass { id, name: name.to_owned(), credits };
    let out = row.duplicate();
    conn.class.insert(row);
    out
}

/// Stores a component titled as `class` that stands for it.
fn create_class_component(conn: &mut SeedStore, class: SeedClass) -> (c: SeedComponent)
    requires
        old(conn).wf(),
        old(conn)@.component.last_id < i32::MAX,
    ensures
        final(conn).wf(),
        c@ == (SeedComponentView { id: (old(conn)@.component.last_id + 1) as i32, title: class.name@, class: Some(class.id) }),
        final(conn)@ == (SeedStoreView { component: old(conn)@.component.push(c@), ..old(conn)@ }),
{
    let id = conn.component.next_id().expect("Error creating class component");
    let row = SeedComponent { id, title: class.name, class: Some(class.id) };
    let out = row.duplicate();
    conn.component.insert(row);
    out
}

/// Stores each class of the catalog, with a component that stands for it.
fn push_classes(conn: &mut SeedStore, comp_classes: &mut Vec<SeedComponent>)
    requires
        old(conn).wf(),
        room_for(old(conn)@, seed_classes().len() as int),
    ensures
        final(conn).wf(),
        final(conn)@ == seeded(old(conn)@, seed_classes(), 0),
        final(comp_classes)@ == old(comp_classes)@,
{
    let classes: Vec<(&str, i32)> = vec![
        ("CNIT 15501", 3),
        ("CNIT 17600", 3),
        ("CNIT 18000", 3),
        ("CNIT 24200", 3),
        ("CNIT 25501", 3),
        ("CNIT 27000", 3),
        ("CNIT 27200", 3),
        ("CNIT 28000", 3),
        ("CNIT 32000", 3),
        ("CNIT 48000", 3),
        ("CNIT 37200", 3),
        ("CNIT 39200", 3),
        ("CNIT 31500", 3),
        ("CNIT 32500", 3),
        ("CNIT 38000", 3),
        ("CGT 25600", 3),
        ("CNIT 32200", 3),
        ("CNIT 24000", 3),
        ("CNIT 34500", 3),
        ("CNIT 34600", 3),
        ("CNIT 34400", 3),
        ("CNIT 34000", 3),
        ("CNIT 34010", 1),
        ("CNIT 34210", 1),
        ("CNIT 34220", 2),
        ("CNIT 37000", 3),
        ("CNIT 42000", 3),
        ("CNIT 42200", 3),
        ("CNIT 45500", 3),
        ("CNIT 47000", 3),
        ("CNIT 47100", 3),
        ("ITSEL 00000", 3),
        ("CSECSEL 00000", 3),
        ("SCLA 10100", 3),
        ("SCLA 10200", 3),
        ("TECH 12000", 3),
        ("MA 16010", 4),
        ("MA 16020", 4),
        ("OLS 25200", 3),
        ("TLI 11200", 3),
        ("COMSEL 00000", 3),
        ("ECONSEL 00000", 3),
        ("SCISEL 00000", 4),
        ("LABSCISEL 00000", 4),
        ("ACCSEL 00000", 3),
        ("STATSEL 00000", 3),
        ("SPEAKSEL 00000", 3),
        ("WRITINGSEL 00000", 3),
        ("INTERDISC 00000", 3),
        ("IET 10400", 3),
        ("IT 10400", 3),
        ("TLI 11100", 3),
        ("TLI 15200", 3),
        ("PHIL 15000", 3),
        ("HUMSEL 00000", 3),
        ("BEHAVSCISEL 00000", 3),
        ("FOUNDSEL 00000", 3),
        ("FREE 00000", 3),
        ("SAADSEL 00000", 3)
    ];
    assert(classes@.map_values(|p: (&str, i32)| (p.0@, p.1)) =~~= seed_classes());
    let ghost list = seed_classes();
    let ghost total = seeded(conn@, list, 0);
    let n = classes.len();
    let mut k: usize = 0;
    while k < n
        invariant
            n == classes@.len() == list.len(),
            list == classes@.map_values(|p: (&str, i32)| (p.0@, p.1)),
            0 <= k <= n,
            conn.wf(),
            room_for(conn@, n - k),
            seeded(conn@, list, k as int) == total,
        decreases n - k,
    {
        let (name, credits) = classes[k];
        assert(list[k as int] == (name@, credits));
        let ghost before = conn@;
        let db_class = create_class(conn, name, credits);
        let _class_component = create_class_component(conn, db_class);
        assert(conn@ == class_seeded(before, name@, credits));
        k = k + 1;
    }
}

/// The requirement groups of the catalog; they are not stored.
fn push_components(conn: &mut SeedStore, components: &mut Vec<SeedComponent>)
    ensures
        *final(conn) == *old(conn),
        final(components)@ == old(components)@,
{
    let component_strs: Vec<&str> = vec![
        "CNIT CORE",
        "CNIT DB PROGRAMMING",
        "CNIT SYS/APP DEV",
        "GENERAL BUSINESS SELECTIVE",
        "UNIV CORE",
        "CNIT/SAAD INTERDISC",
        "CSEC INTERDISC",
        "NENT INTERDISC",
        "CNIT IT SELECTIVES",
        "NENT IT SELECTIVES",
        "SAAD IT SELECTIVES",
        "CSEC SELECTIVES",
        "SAAD SELECTIVES",
    ];
}

/// Seeds the store with the classes of the catalog, each with a component that
/// stands for it.
pub fn insert_catalog(conn: &mut SeedStore) -> (r: Result<String, String>)
    requires
        old(conn).wf(),
        room_for(old(conn)@, seed_classes().len() as int),
    ensures
        final(conn).wf(),
        final(conn)@ == seeded(old(conn)@, seed_classes(), 0),
        r matches Ok(s) && s@ == "Nice"@,
{
    let mut classes: Vec<SeedComponent> = Vec::new();
    let mut components: Vec<SeedComponent> = Vec::new();
    push_classes(conn, &mut classes);
    push_components(conn, &mut components);
    Ok("Nice".to_string())
}

} // verus!
