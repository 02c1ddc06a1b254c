use vstd::prelude::*;
use crate::catalog::{
    assoc_pass, cached, created_class, created_component, degree_pass, first_cached, indices_of, initial_catalog,
    initial_pass, link_children, lookup, parsed_item, add_requirements, CatalogView, InstView, LogicView,
};
use crate::catalog_data::catalog_run;
use crate::catalog_maker::{class_step, entry_step, maker_links, parsed_kids, parsed_name, reg_step, EntryView};
use crate::db::{has_key, lemma_key_unique, remove_key, row_with_key, table_wf, update_key, Record, TableView};
use crate::graph::{with_edge, NodeView};
use crate::models::class::{class_named, ClassView};
use crate::planner::{cheapest, eval_children, sat_group, Kid};
use crate::queue_planner::{level, period_classes, period_count, queue_children, queue_visit, queued};
use crate::req_holder::{component_req, link};
use crate::requirements_graph::{associate, degree_graph, component_ids, lemma_pending_add, lemma_pending_grow};
use crate::models::associations::{children_of, degree_components, links_to, ComponentToComponentView, DegreeToComponentView};
use crate::types::{ReqView, Status};
use crate::models::component::{Component, component_named, first_component_named, has_component_named, ComponentView};

verus! {

/// A row stored with the next id of a well-formed table is found again by that
/// id, its id is above every id already there, no other id reads differently, and
/// the table stays well formed: what `create` stores, `find` reads back.
pub proof fn law_created_row_is_found<R: Record>(t: TableView<R::V>, row: R::V)
    requires
        table_wf::<R>(t),
        t.last_id < i32::MAX,
        R::key_of(row) == t.last_id + 1,
    ensures
        table_wf::<R>(t.push(row)),
        forall|i: int| 0 <= i < t.rows.len() ==> R::key_of(#[trigger] t.rows[i]) < R::key_of(row),
        row_with_key::<R>(t.push(row).rows, R::key_of(row)) == Some(row),
        forall|id: i32| id != R::key_of(row) ==> #[trigger] row_with_key::<R>(t.push(row).rows, id) == row_with_key::<R>(t.rows, id),
{
    let u = t.push(row);
    let n = t.rows.len() as int;
    assert(u.rows[n] == row);
    crate::db::lemma_row_with_key::<R>(u, R::key_of(row), n);
    assert forall|id: i32| id != R::key_of(row) implies #[trigger] row_with_key::<R>(u.rows, id) == row_with_key::<R>(t.rows, id) by {
        if has_key::<R>(t.rows, id) {
            let i = choose|i: int| 0 <= i < t.rows.len() && R::key_of(t.rows[i]) == id;
            assert(u.rows[i] == t.rows[i]);
            crate::db::lemma_row_with_key::<R>(u, id, i);
            crate::db::lemma_row_with_key::<R>(t, id, i);
        } else {
            assert forall|j: int| 0 <= j < u.rows.len() implies R::key_of(#[trigger] u.rows[j]) != id by {
                if j < n {
                    assert(u.rows[j] == t.rows[j]);
                }
            }
        }
    }
}

/// After the row with id `id` is deleted from a well-formed table, no row has that
/// id, every other id reads as before, and the table stays well formed: `find`
/// after `destroy` is `NotFound`.
pub proof fn law_destroyed_row_is_gone<R: Record>(t: TableView<R::V>, id: i32)
    requires
        table_wf::<R>(t),
    ensures
        table_wf::<R>(t.with_rows(remove_key::<R>(t.rows, id))),
        row_with_key::<R>(remove_key::<R>(t.rows, id), id) is None,
        forall|other: i32| other != id ==> #[trigger] row_with_key::<R>(remove_key::<R>(t.rows, id), other) == row_with_key::<R>(t.rows, other),
{
    if has_key::<R>(t.rows, id) {
        let i = choose|i: int| 0 <= i < t.rows.len() && R::key_of(t.rows[i]) == id;
        let rows = t.rows.remove(i);
        let u = t.with_rows(rows);
        assert(forall|j: int| 0 <= j < rows.len() ==> #[trigger] rows[j] == (if j < i { t.rows[j] } else { t.rows[j + 1] }));
        assert(table_wf::<R>(u)) by {
            assert forall|a: int, b: int| 0 <= a < b < rows.len() implies R::key_of(#[trigger] rows[a]) < R::key_of(#[trigger] rows[b]) by {
                let a0 = if a < i { a } else { a + 1 };
                let b0 = if b < i { b } else { b + 1 };
                assert(rows[a] == t.rows[a0]);
                assert(rows[b] == t.rows[b0]);
            }
        }
        assert forall|j: int| 0 <= j < rows.len() implies R::key_of(#[trigger] rows[j]) != id by {
            let j0 = if j < i { j } else { j + 1 };
            assert(rows[j] == t.rows[j0]);
            if R::key_of(t.rows[j0]) == id {
                lemma_key_unique::<R>(t, id, i, j0);
            }
        }
        assert forall|other: i32| other != id implies #[trigger] row_with_key::<R>(rows, other) == row_with_key::<R>(t.rows, other) by {
            if has_key::<R>(t.rows, other) {
                let k = choose|k: int| 0 <= k < t.rows.len() && R::key_of(t.rows[k]) == other;
                assert(k != i);
                let k1 = if k < i { k } else { k - 1 };
                assert(rows[k1] == t.rows[k]);
                crate::db::lemma_row_with_key::<R>(u, other, k1);
                crate::db::lemma_row_with_key::<R>(t, other, k);
            } else {
                assert forall|j: int| 0 <= j < rows.len() implies R::key_of(#[trigger] rows[j]) != other by {
                    let j0 = if j < i { j } else { j + 1 };
                    assert(rows[j] == t.rows[j0]);
                }
            }
        }
    } else {
        assert(t.with_rows(t.rows) == t);
    }
}

/// Changing the row with id `id` of a well-formed table by a change that keeps
/// ids: that id then reads as the changed row, every other id reads as before, and
/// the table stays well formed: `find` after `update` gives the updated row.
pub proof fn law_updated_row_is_read_back<R: Record>(t: TableView<R::V>, id: i32, f: spec_fn(R::V) -> R::V)
    requires
        table_wf::<R>(t),
        forall|v: R::V| R::key_of(#[trigger] f(v)) == R::key_of(v),
    ensures
        table_wf::<R>(t.with_rows(update_key::<R>(t.rows, id, f))),
        row_with_key::<R>(update_key::<R>(t.rows, id, f), id) == (match row_with_key::<R>(t.rows, id) {
            Some(v) => Some(f(v)),
            None => None,
        }),
        forall|other: i32| other != id ==> #[trigger] row_with_key::<R>(update_key::<R>(t.rows, id, f), other) == row_with_key::<R>(t.rows, other),
{
    if has_key::<R>(t.rows, id) {
        let i = choose|i: int| 0 <= i < t.rows.len() && R::key_of(t.rows[i]) == id;
        let rows = t.rows.update(i, f(t.rows[i]));
        let u = t.with_rows(rows);
        assert(R::key_of(f(t.rows[i])) == R::key_of(t.rows[i]));
        assert forall|j: int| 0 <= j < rows.len() implies R::key_of(#[trigger] rows[j]) == R::key_of(t.rows[j]) by {
            if j == i {
                assert(R::key_of(f(t.rows[i])) == R::key_of(t.rows[i]));
            }
        }
        assert(table_wf::<R>(u)) by {
            assert forall|a: int, b: int| 0 <= a < b < rows.len() implies R::key_of(#[trigger] rows[a]) < R::key_of(#[trigger] rows[b]) by {
                assert(R::key_of(rows[a]) == R::key_of(t.rows[a]));
                assert(R::key_of(rows[b]) == R::key_of(t.rows[b]));
            }
            assert forall|a: int| 0 <= a < rows.len() implies 1 <= #[trigger] R::key_of(rows[a]) <= u.last_id by {
                assert(R::key_of(rows[a]) == R::key_of(t.rows[a]));
            }
        }
        crate::db::lemma_row_with_key::<R>(u, id, i);
        crate::db::lemma_row_with_key::<R>(t, id, i);
        assert forall|other: i32| other != id implies #[trigger] row_with_key::<R>(rows, other) == row_with_key::<R>(t.rows, other) by {
            if has_key::<R>(t.rows, other) {
                let k = choose|k: int| 0 <= k < t.rows.len() && R::key_of(t.rows[k]) == other;
                assert(k != i);
                assert(rows[k] == t.rows[k]);
                crate::db::lemma_row_with_key::<R>(u, other, k);
                crate::db::lemma_row_with_key::<R>(t, other, k);
            } else {
                assert forall|j: int| 0 <= j < rows.len() implies R::key_of(#[trigger] rows[j]) != other by {
                    assert(R::key_of(rows[j]) == R::key_of(t.rows[j]));
                }
            }
        }
    } else {
        assert(t.with_rows(t.rows) == t);
    }
}

/// A component named `name` at position `i` has a first one of that name.
proof fn lemma_first_named(rows: Seq<ComponentView>, name: Seq<char>, i: int)
    requires
        0 <= i < rows.len(),
        rows[i].name == name,
    ensures
        exists|j: int| first_component_named(rows, name, j),
    decreases i,
{
    if forall|j: int| 0 <= j < i ==> (#[trigger] rows[j]).name != name {
        assert(first_component_named(rows, name, i));
    } else {
        let j = choose|j: int| 0 <= j < i && (#[trigger] rows[j]).name == name;
        lemma_first_named(rows, name, j);
    }
}

/// The position that `lookup` answers is the first one of that name among the
/// components met after it.
proof fn lemma_lookup_first(st: CatalogView, name: Seq<char>)
    ensures
        lookup(st, name).1 matches Some(i) ==> first_cached(lookup(st, name).0.components, name, i),
        lookup(st, name).1 is None ==> lookup(st, name).0 == st && !cached(st.components, name),
        lookup(st, name).0.db == st.db,
{
    if cached(st.components, name) {
        let i = choose|i: int| first_cached(st.components, name, i);
    } else {
        let rows = st.db.components.rows;
        if has_component_named(rows, name) {
            let k = choose|k: int| 0 <= k < rows.len() && (#[trigger] rows[k]).name == name;
            lemma_first_named(rows, name, k);
            let c = component_named(rows, name).unwrap();
            assert(c.name == name);
            let cache = st.components.push(c);
            let n = st.components.len() as int;
            assert forall|j: int| 0 <= j < n implies (#[trigger] cache[j]).name != name by {
                assert(cache[j] == st.components[j]);
                if st.components[j].name == name {
                    lemma_first_cached_exists(st.components, name, j);
                }
            }
            assert(first_cached(cache, name, n));
        }
    }
}

/// A component met named `name` at position `i` has a first one of that name.
proof fn lemma_first_cached_exists(cache: Seq<ComponentView>, name: Seq<char>, i: int)
    requires
        0 <= i < cache.len(),
        cache[i].name == name,
    ensures
        cached(cache, name),
    decreases i,
{
    if forall|j: int| 0 <= j < i ==> (#[trigger] cache[j]).name != name {
        assert(first_cached(cache, name, i));
    } else {
        let j = choose|j: int| 0 <= j < i && (#[trigger] cache[j]).name == name;
        lemma_first_cached_exists(cache, name, j);
    }
}

/// Where `i` is the first position of `name` among the components met, looking
/// `name` up answers `i` and changes nothing.
proof fn lemma_lookup_cached(st: CatalogView, name: Seq<char>, i: int)
    requires
        first_cached(st.components, name, i),
    ensures
        lookup(st, name) == (st, Some(i)),
{
    let k = choose|k: int| first_cached(st.components, name, k);
    crate::catalog::lemma_first_cached_unique(st.components, name, i, k);
}

/// Looking up a name a second time finds the same component and changes nothing;
/// a lookup that finds nothing changes nothing either.
pub proof fn law_lookup_idempotent(st: CatalogView, name: Seq<char>)
    ensures
        lookup(st, name).1 is Some ==> lookup(lookup(st, name).0, name) == lookup(st, name),
        lookup(st, name).1 is None ==> lookup(st, name).0 == st,
{
    lemma_lookup_first(st, name);
    if let Some(i) = lookup(st, name).1 {
        lemma_lookup_cached(lookup(st, name).0, name, i);
    }
}

/// An entry of the catalog is stored once: asking again for a component that was
/// just resolved, with no logic, answers the same position and changes nothing;
/// giving it a logic where it got one is refused.
pub proof fn law_component_entry_stored_once(st: CatalogView, name: Seq<char>, pftype: Seq<char>, logic: Option<Seq<char>>)
    requires
        created_component(st, name, pftype, logic) is Some,
    ensures
        ({
            let (st1, i) = created_component(st, name, pftype, logic).unwrap();
            &&& created_component(st1, name, pftype, None) == Some((st1, i))
            &&& logic is Some ==> forall|l: Seq<char>| #[trigger] created_component(st1, name, pftype, Some(l)) is None
        }),
{
    let (st1, i) = created_component(st, name, pftype, logic).unwrap();
    lemma_lookup_first(st, name);
    let (sl, found) = lookup(st, name);
    match found {
        Some(j) => {
            assert(j == i);
            assert(first_cached(st1.components, name, i));
            lemma_lookup_cached(st1, name, i);
        },
        None => {
            let n = st.components.len() as int;
            assert(st1.components[n].name == name);
            assert forall|j: int| 0 <= j < n implies (#[trigger] st1.components[j]).name != name by {
                assert(st1.components[j] == st.components[j]);
                if st.components[j].name == name {
                    lemma_first_cached_exists(st.components, name, j);
                }
            }
            assert(first_cached(st1.components, name, n));
            lemma_lookup_cached(st1, name, n);
        },
    }
}

/// A class is stored once: asking again for a class that was just resolved, with
/// no logic, answers the same position and changes nothing, whatever the credits.
pub proof fn law_class_entry_stored_once(st: CatalogView, name: Seq<char>, credits: i32, logic: Option<Seq<char>>, credits2: i32)
    requires
        created_class(st, name, credits, logic) is Some,
    ensures
        ({
            let (st1, i) = created_class(st, name, credits, logic).unwrap();
            created_class(st1, name, credits2, None) == Some((st1, i))
        }),
{
    let (sc, i) = created_component(st, name, "Class"@, logic).unwrap();
    law_component_entry_stored_once(st, name, "Class"@, logic);
    lemma_lookup_first(st, name);
    assert(first_cached(sc.components, name, i)) by {
        let (sl, found) = lookup(st, name);
        if found is None {
            let n = st.components.len() as int;
            assert forall|j: int| 0 <= j < n implies (#[trigger] sc.components[j]).name != name by {
                assert(sc.components[j] == st.components[j]);
                if st.components[j].name == name {
                    lemma_first_cached_exists(st.components, name, j);
                }
            }
        }
    }
    let (st1, i1) = created_class(st, name, credits, logic).unwrap();
    assert(i1 == i);
    assert(st1.components == sc.components);
    lemma_lookup_cached(st1, name, i);
    let rows = st1.db.classes.rows;
    match class_named(sc.db.classes.rows, name) {
        Some(_) => {},
        None => {
            let k = rows.len() - 1;
            assert(rows[k].name == name);
            lemma_first_class_named(rows, name, k);
        },
    }
}

/// A class named `name` at position `i` makes `class_named` answer some class.
proof fn lemma_first_class_named(rows: Seq<ClassView>, name: Seq<char>, i: int)
    requires
        0 <= i < rows.len(),
        rows[i].name == name,
    ensures
        class_named(rows, name) is Some,
{
    let p = |c: ClassView| c.name == name;
    assert(p(rows[i]));
}

/// The requirements of the catalog maker are stored once: asking again for an
/// entry that was just resolved answers the same position and changes nothing,
/// as a requirement or as a class of any credits.
pub proof fn law_maker_entry_stored_once(st: CatalogView, name: Seq<char>, credits: i32, credits2: i32, as_class: bool)
    requires
        (if as_class { class_step(st, name, credits) } else { reg_step(st, name) }) is Some,
    ensures
        ({
            let (st1, i) = (if as_class { class_step(st, name, credits) } else { reg_step(st, name) }).unwrap();
            &&& reg_step(st1, name) == Some((st1, i))
            &&& class_step(st1, name, credits2) == Some((st1, i))
        }),
{
    let (st1, i) = (if as_class { class_step(st, name, credits) } else { reg_step(st, name) }).unwrap();
    lemma_lookup_first(st, name);
    let (sl, found) = lookup(st, name);
    match found {
        Some(j) => {
            lemma_lookup_cached(st1, name, i);
        },
        None => {
            let n = st.components.len() as int;
            assert forall|j: int| 0 <= j < n implies (#[trigger] st1.components[j]).name != name by {
                assert(st1.components[j] == st.components[j]);
                if st.components[j].name == name {
                    lemma_first_cached_exists(st.components, name, j);
                }
            }
            assert(first_cached(st1.components, name, n));
            lemma_lookup_cached(st1, name, n);
        },
    }
}

/// Linking a parent to a child in the requirement graph adds exactly one edge each
/// way: the child gains the parent, unchecked, after its other parents; the parent
/// gains the child, unchecked and with no position, after its other children;
/// nothing else changes.
pub proof fn law_link_adds_one_edge(g: Map<i32, ReqView>, parent: i32, child: i32)
    requires
        g.contains_key(parent),
        g.contains_key(child),
    ensures
        link(g, parent, child).dom() == g.dom(),
        parent != child ==> link(g, parent, child)[child] == (ReqView { parents: g[child].parents.push((parent, Status::Unchecked)), ..g[child] }),
        parent != child ==> link(g, parent, child)[parent] == (ReqView { children: g[parent].children.push((child, Status::Unchecked, None)), ..g[parent] }),
        parent == child ==> link(g, parent, child)[parent] == (ReqView {
            parents: g[parent].parents.push((parent, Status::Unchecked)),
            children: g[parent].children.push((child, Status::Unchecked, None)),
            ..g[parent]
        }),
        forall|id: i32| id != parent && id != child ==> #[trigger] link(g, parent, child).index(id) == g.index(id),
{
    assert(link(g, parent, child).dom() =~= g.dom());
}

/// An edge added to the graph is recorded at both ends: `to` is the last child of
/// `from`, `from` the last parent of `to`, the other lists of both nodes are kept,
/// and no other node changes.
pub proof fn law_edge_recorded(g: Map<usize, NodeView>, from: usize, to: usize)
    requires
        g.contains_key(from),
        g.contains_key(to),
    ensures
        with_edge(g, from, to).dom() == g.dom(),
        with_edge(g, from, to)[from].children == g[from].children.push(to),
        with_edge(g, from, to)[to].parents == g[to].parents.push(from),
        from != to ==> with_edge(g, from, to)[from].parents == g[from].parents,
        from != to ==> with_edge(g, from, to)[to].children == g[to].children,
        with_edge(g, from, to)[from].id == g[from].id && with_edge(g, from, to)[to].id == g[to].id,
        forall|id: usize| id != from && id != to ==> #[trigger] with_edge(g, from, to).index(id) == g.index(id),
{
    assert(with_edge(g, from, to).dom() =~= g.dom());
}

/// The number of requirements in the first `n` periods of the schedule of `q`.
pub open spec fn scheduled_count(g: Map<i32, ReqView>, q: Seq<(i32, i32)>, n: int) -> int
    decreases n,
{
    if n <= 0 {
        0
    } else {
        scheduled_count(g, q, n - 1) + period_classes(g, q, n - 1).len()
    }
}

/// The periods of the queue `q.push(x)` are those of `q`, with `g[x.0]` added to
/// the period of the level of `x`.
proof fn lemma_period_push(g: Map<i32, ReqView>, q: Seq<(i32, i32)>, x: (i32, i32), t: int)
    ensures
        period_classes(g, q.push(x), t) == (if level(x.1) == t { period_classes(g, q, t).push(g[x.0]) } else { period_classes(g, q, t) }),
{
    let f = |it: (i32, i32)| if level(it.1) == t { Some(g[it.0]) } else { None };
    assert(q.push(x).drop_last() =~= q);
    reveal_with_fuel(Seq::filter_map, 1);
    if level(x.1) == t {
        assert(q.filter_map(f) + seq![g[x.0]] =~= q.filter_map(f).push(g[x.0]));
    }
}

proof fn lemma_scheduled_count_push(g: Map<i32, ReqView>, q: Seq<(i32, i32)>, x: (i32, i32), n: int)
    requires
        n >= 0,
    ensures
        scheduled_count(g, q.push(x), n) == scheduled_count(g, q, n) + (if level(x.1) < n { 1int } else { 0int }),
    decreases n,
{
    if n > 0 {
        lemma_scheduled_count_push(g, q, x, n - 1);
        lemma_period_push(g, q, x, n - 1);
    }
}

proof fn lemma_scheduled_count(g: Map<i32, ReqView>, q: Seq<(i32, i32)>, n: int)
    requires
        n >= 0,
        forall|i: int| 0 <= i < q.len() ==> level(#[trigger] q[i].1) < n,
    ensures
        scheduled_count(g, q, n) == q.len(),
    decreases q.len(),
{
    if q.len() == 0 {
        lemma_scheduled_count_empty(g, q, n);
    } else {
        let r = q.drop_last();
        assert forall|i: int| 0 <= i < r.len() implies level(#[trigger] r[i].1) < n by {
            assert(r[i] == q[i]);
        }
        lemma_scheduled_count(g, r, n);
        assert(r.push(q.last()) =~= q);
        assert(level(q[q.len() - 1].1) < n);
        lemma_scheduled_count_push(g, r, q.last(), n);
    }
}

proof fn lemma_scheduled_count_empty(g: Map<i32, ReqView>, q: Seq<(i32, i32)>, n: int)
    requires
        n >= 0,
        q.len() == 0,
    ensures
        scheduled_count(g, q, n) == 0,
    decreases n,
{
    if n > 0 {
        lemma_scheduled_count_empty(g, q, n - 1);
        reveal_with_fuel(Seq::filter_map, 1);
    }
}

/// The schedule of a queue holds each queued requirement once: the periods hold as
/// many requirements together as the queue has items, and each item's requirement
/// is in the period of its queue number.
pub proof fn law_schedule_covers_queue(g: Map<i32, ReqView>, q: Seq<(i32, i32)>)
    ensures
        scheduled_count(g, q, period_count(q)) == q.len(),
        forall|i: int| 0 <= i < q.len() ==> period_classes(g, q, level(#[trigger] q[i].1)).contains(g[q[i].0]),
{
    crate::queue_planner::lemma_max_level(q);
    lemma_scheduled_count(g, q, period_count(q));
    assert forall|i: int| 0 <= i < q.len() implies period_classes(g, q, level(#[trigger] q[i].1)).contains(g[q[i].0]) by {
        lemma_period_contains(g, q, i);
    }
}

proof fn lemma_period_contains(g: Map<i32, ReqView>, q: Seq<(i32, i32)>, i: int)
    requires
        0 <= i < q.len(),
    ensures
        period_classes(g, q, level(q[i].1)).contains(g[q[i].0]),
    decreases q.len(),
{
    let r = q.drop_last();
    let t = level(q[i].1);
    assert(r.push(q.last()) =~= q);
    lemma_period_push(g, r, q.last(), t);
    if i == q.len() - 1 {
        let s = period_classes(g, r, t).push(g[q[i].0]);
        assert(s[s.len() - 1] == g[q[i].0]);
    } else {
        assert(r[i] == q[i]);
        lemma_period_contains(g, r, i);
        let s = period_classes(g, r, t);
        let k = choose|k: int| 0 <= k < s.len() && s[k] == g[q[i].0];
        if level(q.last().1) == t {
            assert(s.push(g[q.last().0])[k] == g[q[i].0]);
        }
    }
}

/// The child that an OR group selects is its cheapest: no child of known cost
/// below `i32::MAX` costs less, the first one is taken among equal costs, and the
/// answer names that child; where no child has such a cost there is none.
pub proof fn law_cheapest_is_minimal(kids: Seq<Kid>, n: int)
    requires
        0 <= n <= kids.len() <= usize::MAX,
    ensures
        forall|j: int| 0 <= j < n && (#[trigger] kids[j]).2 is Some ==> cheapest(kids, n).1 <= kids[j].2->0,
        0 <= cheapest(kids, n).0 < n ==> ({
            let (i, c, id) = cheapest(kids, n);
            &&& kids[i].2 == Some(c)
            &&& kids[i].0 == id
            &&& c < i32::MAX
            &&& forall|j: int| 0 <= j < i && (#[trigger] kids[j]).2 is Some ==> c < kids[j].2->0
        }),
        !(0 <= cheapest(kids, n).0 < n) ==> cheapest(kids, n) == (usize::MAX as int, i32::MAX, i32::MAX)
            && forall|j: int| 0 <= j < n && (#[trigger] kids[j]).2 is Some ==> kids[j].2->0 == i32::MAX,
    decreases n,
{
    if n > 0 {
        law_cheapest_is_minimal(kids, n - 1);
    }
}

/// A requirement put in the holder is what a read of its id gives back, and no
/// other id reads differently; after it is taken, its id reads nothing.
pub proof fn law_holder_read_back(g: Map<i32, ReqView>, id: i32, v: ReqView)
    ensures
        g.insert(id, v).contains_key(id) && g.insert(id, v)[id] == v,
        forall|other: i32| other != id ==> (#[trigger] g.insert(id, v).contains_key(other)) == g.contains_key(other)
            && (g.contains_key(other) ==> g.insert(id, v)[other] == g[other]),
        !g.insert(id, v).remove(id).contains_key(id),
{
}

/// The components met during a catalog run are the stored ones: the component
/// table is well formed, each component met reads the same in the store, and no
/// two components met share a name.
pub open spec fn cache_coherent(st: CatalogView) -> bool {
    &&& table_wf::<Component>(st.db.components)
    &&& forall|i: int| 0 <= i < st.components.len() ==>
        row_with_key::<Component>(st.db.components.rows, #[trigger] st.components[i].id) == Some(st.components[i])
    &&& forall|i: int, j: int| 0 <= i < j < st.components.len() ==>
        (#[trigger] st.components[i]).name != (#[trigger] st.components[j]).name
}

/// Two components met with the same id are the same one.
proof fn lemma_coherent_ids(st: CatalogView, i: int, j: int)
    requires
        cache_coherent(st),
        0 <= i < st.components.len(),
        0 <= j < st.components.len(),
        st.components[i].id == st.components[j].id,
    ensures
        i == j,
{
    if i < j {
        assert(st.components[i].name != st.components[j].name);
    } else if j < i {
        assert(st.components[j].name != st.components[i].name);
    }
}

/// A component appended to the cache and the store alike keeps them coherent.
proof fn lemma_coherent_push(st: CatalogView, row: ComponentView)
    requires
        cache_coherent(st),
        st.db.components.last_id < i32::MAX,
        row.id == st.db.components.last_id + 1,
        !cached(st.components, row.name),
    ensures
        cache_coherent(CatalogView {
            db: crate::db::DatabaseView { components: st.db.components.push(row), ..st.db },
            components: st.components.push(row),
        }),
{
    let t = st.db.components;
    law_created_row_is_found::<Component>(t, row);
    let c2 = st.components.push(row);
    let n = st.components.len() as int;
    assert forall|i: int| 0 <= i < c2.len() implies
        row_with_key::<Component>(t.push(row).rows, #[trigger] c2[i].id) == Some(c2[i]) by {
        if i < n {
            assert(c2[i] == st.components[i]);
            assert(row_with_key::<Component>(t.rows, st.components[i].id) == Some(st.components[i]));
            if st.components[i].id == row.id {
                let k = choose|k: int| 0 <= k < t.rows.len() && t.rows[k].id == row.id;
                assert(t.rows[k].id <= t.last_id);
            }
        }
    }
    assert forall|i: int, j: int| 0 <= i < j < c2.len() implies (#[trigger] c2[i]).name != (#[trigger] c2[j]).name by {
        if j == n {
            assert(c2[i] == st.components[i]);
            if st.components[i].name == row.name {
                lemma_first_cached_exists(st.components, row.name, i);
            }
        } else {
            assert(c2[i] == st.components[i]);
            assert(c2[j] == st.components[j]);
        }
    }
}

/// A lookup keeps the components met coherent with the store.
proof fn lemma_coherent_lookup(st: CatalogView, name: Seq<char>)
    requires
        cache_coherent(st),
    ensures
        cache_coherent(lookup(st, name).0),
{
    lemma_lookup_first(st, name);
    if !cached(st.components, name) {
        let rows = st.db.components.rows;
        if has_component_named(rows, name) {
            let k0 = choose|k: int| 0 <= k < rows.len() && (#[trigger] rows[k]).name == name;
            lemma_first_named(rows, name, k0);
            let k = choose|k: int| first_component_named(rows, name, k);
            let c = rows[k];
            crate::db::lemma_row_with_key::<Component>(st.db.components, c.id, k);
            let c2 = st.components.push(c);
            let n = st.components.len() as int;
            assert forall|i: int| 0 <= i < c2.len() implies
                row_with_key::<Component>(rows, #[trigger] c2[i].id) == Some(c2[i]) by {
                if i < n {
                    assert(c2[i] == st.components[i]);
                }
            }
            assert forall|i: int, j: int| 0 <= i < j < c2.len() implies (#[trigger] c2[i]).name != (#[trigger] c2[j]).name by {
                assert(c2[i] == st.components[i]);
                if j == n {
                    if st.components[i].name == name {
                        lemma_first_cached_exists(st.components, name, i);
                    }
                } else {
                    assert(c2[j] == st.components[j]);
                }
            }
        }
    }
}

/// Resolving a component keeps the components met coherent with the store.
proof fn lemma_coherent_component(st: CatalogView, name: Seq<char>, pftype: Seq<char>, logic: Option<Seq<char>>)
    requires
        cache_coherent(st),
        created_component(st, name, pftype, logic) is Some,
    ensures
        cache_coherent(created_component(st, name, pftype, logic).unwrap().0),
{
    lemma_coherent_lookup(st, name);
    lemma_lookup_first(st, name);
    let (st1, found) = lookup(st, name);
    match found {
        Some(i) => {
            if st1.components[i].logic_type is None && logic is Some {
                let l = logic->0;
                let c = st1.components[i];
                let f = |r: ComponentView| ComponentView { logic_type: Some(l), ..r };
                let t = st1.db.components;
                law_updated_row_is_read_back::<Component>(t, c.id, f);
                let (st2, _) = created_component(st, name, pftype, logic)->0;
                assert(st2.components == st1.components.update(i, f(c)));
                assert(st2.db.components.rows == update_key::<Component>(t.rows, c.id, f));
                assert forall|j: int| 0 <= j < st2.components.len() implies
                    row_with_key::<Component>(st2.db.components.rows, #[trigger] st2.components[j].id) == Some(st2.components[j]) by {
                    if j != i {
                        assert(st2.components[j] == st1.components[j]);
                        if st1.components[j].id == c.id {
                            lemma_coherent_ids(st1, i, j);
                        }
                    }
                }
                assert forall|a: int, b: int| 0 <= a < b < st2.components.len() implies
                    (#[trigger] st2.components[a]).name != (#[trigger] st2.components[b]).name by {
                    assert(st2.components[a].name == st1.components[a].name);
                    assert(st2.components[b].name == st1.components[b].name);
                }
            }
        },
        None => {
            let row = ComponentView { id: (st1.db.components.last_id + 1) as i32, name, pftype, logic_type: logic };
            lemma_coherent_push(st1, row);
        },
    }
}

/// Resolving a class keeps the components met coherent with the store.
proof fn lemma_coherent_class(st: CatalogView, name: Seq<char>, credits: i32, logic: Option<Seq<char>>)
    requires
        cache_coherent(st),
        created_class(st, name, credits, logic) is Some,
    ensures
        cache_coherent(created_class(st, name, credits, logic).unwrap().0),
{
    lemma_coherent_component(st, name, "Class"@, logic);
}

/// Resolving an entry keeps the components met coherent with the store.
proof fn lemma_coherent_item(st: CatalogView, inst: InstView, logic: Option<Seq<char>>)
    requires
        cache_coherent(st),
        parsed_item(st, inst, logic) is Some,
    ensures
        cache_coherent(parsed_item(st, inst, logic).unwrap().0),
{
    match inst {
        InstView::Group(n) => lemma_coherent_component(st, n, "Group"@, logic),
        InstView::SimpleClass(n) => lemma_coherent_class(st, n, 3, logic),
        InstView::Class(n, c) => lemma_coherent_class(st, n, c, logic),
        InstView::Degree(..) => {},
    }
}

proof fn lemma_coherent_indices(st: CatalogView, insts: Seq<InstView>, k: int, acc: Seq<int>)
    requires
        cache_coherent(st),
        indices_of(st, insts, k, acc) is Some,
    ensures
        cache_coherent(indices_of(st, insts, k, acc).unwrap().0),
    decreases insts.len() - k,
{
    if 0 <= k < insts.len() {
        lemma_coherent_item(st, insts[k], None);
        let (st1, i) = parsed_item(st, insts[k], None)->0;
        lemma_coherent_indices(st1, insts, k + 1, acc.push(i));
    }
}

proof fn lemma_coherent_initial_pass(st: CatalogView, cat: Seq<(InstView, LogicView)>, k: int, parsed: Seq<(int, Seq<int>)>)
    requires
        cache_coherent(st),
        initial_pass(st, cat, k, parsed) is Some,
    ensures
        cache_coherent(initial_pass(st, cat, k, parsed).unwrap().0),
    decreases cat.len() - k,
{
    if 0 <= k < cat.len() {
        lemma_coherent_item(st, cat[k].0, Some(cat[k].1.name));
        let (st1, p) = parsed_item(st, cat[k].0, Some(cat[k].1.name))->0;
        lemma_coherent_indices(st1, cat[k].1.entries, 0, Seq::empty());
        let (st2, kids) = indices_of(st1, cat[k].1.entries, 0, Seq::empty())->0;
        lemma_coherent_initial_pass(st2, cat, k + 1, parsed.push((p, kids)));
    }
}

proof fn lemma_coherent_links(st: CatalogView, p: int, kids: Seq<int>, j: int)
    requires
        cache_coherent(st),
        link_children(st, p, kids, j) is Some,
    ensures
        cache_coherent(link_children(st, p, kids, j)->0),
    decreases kids.len() - j,
{
    if 0 <= j < kids.len() {
        let row = crate::models::associations::ComponentToComponentView {
            id: (st.db.component_assocs.last_id + 1) as i32,
            parent_id: st.components[p].id,
            child_id: st.components[kids[j]].id,
            association_type: Seq::empty(),
            logic_type: Seq::empty(),
        };
        let st1 = CatalogView { db: crate::db::DatabaseView { component_assocs: st.db.component_assocs.push(row), ..st.db }, ..st };
        lemma_coherent_links(st1, p, kids, j + 1);
    }
}

proof fn lemma_coherent_assoc_pass(st: CatalogView, parsed: Seq<(int, Seq<int>)>, k: int)
    requires
        cache_coherent(st),
        assoc_pass(st, parsed, k) is Some,
    ensures
        cache_coherent(assoc_pass(st, parsed, k)->0),
    decreases parsed.len() - k,
{
    if 0 <= k < parsed.len() {
        lemma_coherent_links(st, parsed[k].0, parsed[k].1, 0);
        lemma_coherent_assoc_pass(link_children(st, parsed[k].0, parsed[k].1, 0)->0, parsed, k + 1);
    }
}

proof fn lemma_coherent_requirements(st: CatalogView, did: i32, idxs: Seq<int>, j: int)
    requires
        cache_coherent(st),
        add_requirements(st, did, idxs, j) is Some,
    ensures
        cache_coherent(add_requirements(st, did, idxs, j)->0),
    decreases idxs.len() - j,
{
    if 0 <= j < idxs.len() {
        let row = crate::models::associations::DegreeToComponentView {
            id: (st.db.degree_assocs.last_id + 1) as i32,
            degree_id: did,
            component_id: st.components[idxs[j]].id,
        };
        let st1 = CatalogView { db: crate::db::DatabaseView { degree_assocs: st.db.degree_assocs.push(row), ..st.db }, ..st };
        lemma_coherent_requirements(st1, did, idxs, j + 1);
    }
}

proof fn lemma_coherent_degree_pass(st: CatalogView, reqs: Seq<(InstView, Seq<InstView>)>, k: int)
    requires
        cache_coherent(st),
        degree_pass(st, reqs, k) is Some,
    ensures
        cache_coherent(degree_pass(st, reqs, k)->0),
    decreases reqs.len() - k,
{
    if 0 <= k < reqs.len() {
        if let InstView::Degree(code, name, pftype, description) = reqs[k].0 {
            let d = crate::models::degree::DegreeView {
                id: (st.db.degrees.last_id + 1) as i32,
                name,
                pftype,
                code,
                description: Some(description),
                subdivision: None,
            };
            let st1 = CatalogView { db: crate::db::DatabaseView { degrees: st.db.degrees.push(d), ..st.db }, ..st };
            lemma_coherent_indices(st1, reqs[k].1, 0, Seq::empty());
            let (st2, idxs) = indices_of(st1, reqs[k].1, 0, Seq::empty())->0;
            lemma_coherent_requirements(st2, d.id, idxs, 0);
            lemma_coherent_degree_pass(add_requirements(st2, d.id, idxs, 0)->0, reqs, k + 1);
        }
    }
}


/// The store holds exactly the components met, in the order they were met, and
/// they are coherent with it.
pub open spec fn mirrored(st: CatalogView) -> bool {
    &&& cache_coherent(st)
    &&& st.db.components.rows == st.components
}

proof fn lemma_mirrored_lookup(st: CatalogView, name: Seq<char>)
    requires
        mirrored(st),
    ensures
        lookup(st, name).0 == st,
{
    if !cached(st.components, name) {
        let rows = st.db.components.rows;
        if has_component_named(rows, name) {
            let k = choose|k: int| 0 <= k < rows.len() && (#[trigger] rows[k]).name == name;
            lemma_first_cached_exists(st.components, name, k);
        }
    }
}

proof fn lemma_mirrored_component(st: CatalogView, name: Seq<char>, pftype: Seq<char>, logic: Option<Seq<char>>)
    requires
        mirrored(st),
        created_component(st, name, pftype, logic) is Some,
    ensures
        mirrored(created_component(st, name, pftype, logic).unwrap().0),
{
    lemma_coherent_component(st, name, pftype, logic);
    lemma_mirrored_lookup(st, name);
    lemma_lookup_first(st, name);
    let (st1, found) = lookup(st, name);
    let st2 = created_component(st, name, pftype, logic).unwrap().0;
    match found {
        Some(i) => {
            if st1.components[i].logic_type is None && logic is Some {
                let l = logic->0;
                let c = st1.components[i];
                let f = |r: ComponentView| ComponentView { logic_type: Some(l), ..r };
                let t = st1.db.components;
                let rows = t.rows;
                assert(rows[i] == c);
                assert(has_key::<Component>(rows, c.id));
                let j = choose|j: int| 0 <= j < rows.len() && Component::key_of(rows[j]) == c.id;
                lemma_key_unique::<Component>(t, c.id, i, j);
                assert(update_key::<Component>(rows, c.id, f) == rows.update(i, f(c)));
                assert(st2.db.components.rows =~= st2.components);
            }
        },
        None => {
            assert(st2.db.components.rows =~= st2.components);
        },
    }
}

proof fn lemma_mirrored_class(st: CatalogView, name: Seq<char>, credits: i32, logic: Option<Seq<char>>)
    requires
        mirrored(st),
        created_class(st, name, credits, logic) is Some,
    ensures
        mirrored(created_class(st, name, credits, logic).unwrap().0),
{
    lemma_mirrored_component(st, name, "Class"@, logic);
}

proof fn lemma_mirrored_item(st: CatalogView, inst: InstView, logic: Option<Seq<char>>)
    requires
        mirrored(st),
        parsed_item(st, inst, logic) is Some,
    ensures
        mirrored(parsed_item(st, inst, logic).unwrap().0),
{
    match inst {
        InstView::Group(n) => lemma_mirrored_component(st, n, "Group"@, logic),
        InstView::SimpleClass(n) => lemma_mirrored_class(st, n, 3, logic),
        InstView::Class(n, c) => lemma_mirrored_class(st, n, c, logic),
        InstView::Degree(..) => {},
    }
}

proof fn lemma_mirrored_indices(st: CatalogView, insts: Seq<InstView>, k: int, acc: Seq<int>)
    requires
        mirrored(st),
        indices_of(st, insts, k, acc) is Some,
    ensures
        mirrored(indices_of(st, insts, k, acc).unwrap().0),
    decreases insts.len() - k,
{
    if 0 <= k < insts.len() {
        lemma_mirrored_item(st, insts[k], None);
        let (st1, i) = parsed_item(st, insts[k], None)->0;
        lemma_mirrored_indices(st1, insts, k + 1, acc.push(i));
    }
}

proof fn lemma_mirrored_initial_pass(st: CatalogView, cat: Seq<(InstView, LogicView)>, k: int, parsed: Seq<(int, Seq<int>)>)
    requires
        mirrored(st),
        initial_pass(st, cat, k, parsed) is Some,
    ensures
        mirrored(initial_pass(st, cat, k, parsed).unwrap().0),
    decreases cat.len() - k,
{
    if 0 <= k < cat.len() {
        lemma_mirrored_item(st, cat[k].0, Some(cat[k].1.name));
        let (st1, p) = parsed_item(st, cat[k].0, Some(cat[k].1.name))->0;
        lemma_mirrored_indices(st1, cat[k].1.entries, 0, Seq::empty());
        let (st2, kids) = indices_of(st1, cat[k].1.entries, 0, Seq::empty())->0;
        lemma_mirrored_initial_pass(st2, cat, k + 1, parsed.push((p, kids)));
    }
}

proof fn lemma_mirrored_links(st: CatalogView, p: int, kids: Seq<int>, j: int)
    requires
        mirrored(st),
        link_children(st, p, kids, j) is Some,
    ensures
        mirrored(link_children(st, p, kids, j)->0),
    decreases kids.len() - j,
{
    if 0 <= j < kids.len() {
        let row = crate::models::associations::ComponentToComponentView {
            id: (st.db.component_assocs.last_id + 1) as i32,
            parent_id: st.components[p].id,
            child_id: st.components[kids[j]].id,
            association_type: Seq::empty(),
            logic_type: Seq::empty(),
        };
        let st1 = CatalogView { db: crate::db::DatabaseView { component_assocs: st.db.component_assocs.push(row), ..st.db }, ..st };
        lemma_mirrored_links(st1, p, kids, j + 1);
    }
}

proof fn lemma_mirrored_assoc_pass(st: CatalogView, parsed: Seq<(int, Seq<int>)>, k: int)
    requires
        mirrored(st),
        assoc_pass(st, parsed, k) is Some,
    ensures
        mirrored(assoc_pass(st, parsed, k)->0),
    decreases parsed.len() - k,
{
    if 0 <= k < parsed.len() {
        lemma_mirrored_links(st, parsed[k].0, parsed[k].1, 0);
        lemma_mirrored_assoc_pass(link_children(st, parsed[k].0, parsed[k].1, 0)->0, parsed, k + 1);
    }
}

proof fn lemma_mirrored_requirements(st: CatalogView, did: i32, idxs: Seq<int>, j: int)
    requires
        mirrored(st),
        add_requirements(st, did, idxs, j) is Some,
    ensures
        mirrored(add_requirements(st, did, idxs, j)->0),
    decreases idxs.len() - j,
{
    if 0 <= j < idxs.len() {
        let row = crate::models::associations::DegreeToComponentView {
            id: (st.db.degree_assocs.last_id + 1) as i32,
            degree_id: did,
            component_id: st.components[idxs[j]].id,
        };
        let st1 = CatalogView { db: crate::db::DatabaseView { degree_assocs: st.db.degree_assocs.push(row), ..st.db }, ..st };
        lemma_mirrored_requirements(st1, did, idxs, j + 1);
    }
}

proof fn lemma_mirrored_degree_pass(st: CatalogView, reqs: Seq<(InstView, Seq<InstView>)>, k: int)
    requires
        mirrored(st),
        degree_pass(st, reqs, k) is Some,
    ensures
        mirrored(degree_pass(st, reqs, k)->0),
    decreases reqs.len() - k,
{
    if 0 <= k < reqs.len() {
        if let InstView::Degree(code, name, pftype, description) = reqs[k].0 {
            let d = crate::models::degree::DegreeView {
                id: (st.db.degrees.last_id + 1) as i32,
                name,
                pftype,
                code,
                description: Some(description),
                subdivision: None,
            };
            let st1 = CatalogView { db: crate::db::DatabaseView { degrees: st.db.degrees.push(d), ..st.db }, ..st };
            lemma_mirrored_indices(st1, reqs[k].1, 0, Seq::empty());
            let (st2, idxs) = indices_of(st1, reqs[k].1, 0, Seq::empty())->0;
            lemma_mirrored_requirements(st2, d.id, idxs, 0);
            lemma_mirrored_degree_pass(add_requirements(st2, d.id, idxs, 0)->0, reqs, k + 1);
        }
    }
}

/// Every step of a catalog run keeps the components it has met coherent with the
/// store (each reads in the store as it is remembered, and no name is met twice):
/// a component's logic is set on both at once, so the store is never read again
/// for a component already met.
pub proof fn law_catalog_keeps_cache_coherent(
    st: CatalogView,
    name: Seq<char>,
    pftype: Seq<char>,
    logic: Option<Seq<char>>,
    cat: Seq<(InstView, LogicView)>,
    reqs: Seq<(InstView, Seq<InstView>)>,
)
    requires
        cache_coherent(st),
    ensures
        cache_coherent(lookup(st, name).0),
        created_component(st, name, pftype, logic) is Some ==> cache_coherent(created_component(st, name, pftype, logic).unwrap().0),
        initial_catalog(st, cat) is Some ==> cache_coherent(initial_catalog(st, cat)->0),
        catalog_run(st, cat, reqs) is Some ==> cache_coherent(catalog_run(st, cat, reqs)->0),
{
    lemma_coherent_lookup(st, name);
    if created_component(st, name, pftype, logic) is Some {
        lemma_coherent_component(st, name, pftype, logic);
    }
    if initial_pass(st, cat, 0, Seq::empty()) is Some {
        lemma_coherent_initial_pass(st, cat, 0, Seq::empty());
        let (st1, parsed) = initial_pass(st, cat, 0, Seq::empty())->0;
        if assoc_pass(st1, parsed, 0) is Some {
            lemma_coherent_assoc_pass(st1, parsed, 0);
            let st2 = assoc_pass(st1, parsed, 0)->0;
            if degree_pass(st2, reqs, 0) is Some {
                lemma_coherent_degree_pass(st2, reqs, 0);
            }
        }
    }
}

/// A catalog over a well-formed store starts coherent: it has met no component.
pub proof fn law_new_catalog_is_coherent(db: crate::db::DatabaseView)
    requires
        table_wf::<Component>(db.components),
    ensures
        cache_coherent(CatalogView { db, components: Seq::empty() }),
{
}

/// The catalog maker's steps keep the components it has met coherent with the
/// store as well.
pub proof fn law_maker_keeps_cache_coherent(st: CatalogView, name: Seq<char>, credits: i32)
    requires
        cache_coherent(st),
    ensures
        reg_step(st, name) is Some ==> cache_coherent(reg_step(st, name).unwrap().0),
        class_step(st, name, credits) is Some ==> cache_coherent(class_step(st, name, credits).unwrap().0),
{
    lemma_coherent_lookup(st, name);
    lemma_lookup_first(st, name);
    let (st1, found) = lookup(st, name);
    if found is None {
        let row = ComponentView { id: (st1.db.components.last_id + 1) as i32, name, pftype: "logical"@, logic_type: None };
        if st1.db.components.last_id < i32::MAX {
            lemma_coherent_push(st1, row);
            let row2 = ComponentView { pftype: "class"@, ..row };
            lemma_coherent_push(st1, row2);
        }
    }
}

/// A child entry names `b`.
pub open spec fn names_child(b: i32) -> spec_fn(Kid) -> bool {
    |k: Kid| k.0 == b
}

/// A parent entry names `a`.
pub open spec fn names_parent(a: i32) -> spec_fn((i32, Status)) -> bool {
    |p: (i32, Status)| p.0 == a
}

/// How many child entries of `kids` name `b`.
pub open spec fn child_count(kids: Seq<Kid>, b: i32) -> nat {
    kids.filter(names_child(b)).len()
}

/// How many parent entries of `ps` name `a`.
pub open spec fn parent_count(ps: Seq<(i32, Status)>, a: i32) -> nat {
    ps.filter(names_parent(a)).len()
}

/// Every edge of the requirement graph is recorded at both ends, as often at one
/// end as at the other, and only between requirements of the graph.
pub open spec fn edges_symmetric(g: Map<i32, ReqView>) -> bool {
    &&& forall|a: i32, j: int| #[trigger] g.contains_key(a) && 0 <= j < g[a].children.len()
        ==> g.contains_key(#[trigger] g[a].children[j].0)
    &&& forall|a: i32, j: int| #[trigger] g.contains_key(a) && 0 <= j < g[a].parents.len()
        ==> g.contains_key(#[trigger] g[a].parents[j].0)
    &&& forall|a: i32, b: i32| #[trigger] g.contains_key(a) && #[trigger] g.contains_key(b)
        ==> child_count(g[a].children, b) == parent_count(g[b].parents, a)
}

proof fn lemma_child_count_push(kids: Seq<Kid>, x: Kid, b: i32)
    ensures
        child_count(kids.push(x), b) == child_count(kids, b) + (if x.0 == b { 1nat } else { 0nat }),
{
    reveal_with_fuel(Seq::filter, 1);
    assert(kids.push(x).drop_last() =~= kids);
}

proof fn lemma_parent_count_push(ps: Seq<(i32, Status)>, x: (i32, Status), a: i32)
    ensures
        parent_count(ps.push(x), a) == parent_count(ps, a) + (if x.0 == a { 1nat } else { 0nat }),
{
    reveal_with_fuel(Seq::filter, 1);
    assert(ps.push(x).drop_last() =~= ps);
}

proof fn lemma_count_zero_kids(kids: Seq<Kid>, b: i32)
    requires
        forall|j: int| 0 <= j < kids.len() ==> (#[trigger] kids[j]).0 != b,
    ensures
        child_count(kids, b) == 0,
{
    let f = names_child(b);
    if kids.filter(f).len() > 0 {
        kids.lemma_filter_pred(f, 0);
        kids.lemma_filter_contains_rev(f, kids.filter(f)[0]);
        let j = choose|j: int| 0 <= j < kids.len() && kids[j] == kids.filter(f)[0];
        assert(kids[j].0 != b);
    }
}

proof fn lemma_count_zero_parents(ps: Seq<(i32, Status)>, a: i32)
    requires
        forall|j: int| 0 <= j < ps.len() ==> (#[trigger] ps[j]).0 != a,
    ensures
        parent_count(ps, a) == 0,
{
    let f = names_parent(a);
    if ps.filter(f).len() > 0 {
        ps.lemma_filter_pred(f, 0);
        ps.lemma_filter_contains_rev(f, ps.filter(f)[0]);
        let j = choose|j: int| 0 <= j < ps.len() && ps[j] == ps.filter(f)[0];
        assert(ps[j].0 != a);
    }
}

/// Linking two requirements of a graph whose edges are symmetric keeps them so.
proof fn lemma_link_symmetric(g: Map<i32, ReqView>, parent: i32, child: i32)
    requires
        edges_symmetric(g),
        g.contains_key(parent),
        g.contains_key(child),
    ensures
        edges_symmetric(link(g, parent, child)),
        link(g, parent, child).dom() == g.dom(),
{
    let h = link(g, parent, child);
    law_link_adds_one_edge(g, parent, child);
    assert(h.dom() =~= g.dom());
    let pe = (parent, Status::Unchecked);
    let ce = (child, Status::Unchecked, None::<i32>);
    assert(h[child].parents == (if parent == child { g[child].parents.push(pe) } else { g[child].parents.push(pe) }));
    assert(h[parent].children == g[parent].children.push(ce));
    assert forall|a: i32, j: int| #[trigger] h.contains_key(a) && 0 <= j < h[a].children.len()
        implies h.contains_key(#[trigger] h[a].children[j].0) by {
        if a == parent {
            if j < g[a].children.len() {
                assert(h[a].children[j] == g[a].children[j]);
            }
        } else {
            assert(h[a].children == g[a].children);
        }
    }
    assert forall|a: i32, j: int| #[trigger] h.contains_key(a) && 0 <= j < h[a].parents.len()
        implies h.contains_key(#[trigger] h[a].parents[j].0) by {
        if a == child {
            if j < g[a].parents.len() {
                assert(h[a].parents[j] == g[a].parents[j]);
            }
        } else {
            assert(h[a].parents == g[a].parents);
        }
    }
    assert forall|a: i32, b: i32| #[trigger] h.contains_key(a) && #[trigger] h.contains_key(b)
        implies child_count(h[a].children, b) == parent_count(h[b].parents, a) by {
        assert(g.contains_key(a) && g.contains_key(b));
        if a == parent {
            lemma_child_count_push(g[a].children, ce, b);
        } else {
            assert(h[a].children == g[a].children);
        }
        if b == child {
            lemma_parent_count_push(g[b].parents, pe, a);
        } else {
            assert(h[b].parents == g[b].parents);
        }
    }
}

/// Adding a requirement that the graph does not hold, with no edges, keeps the
/// edges symmetric.
proof fn lemma_insert_symmetric(g: Map<i32, ReqView>, id: i32, r: ReqView)
    requires
        edges_symmetric(g),
        !g.contains_key(id),
        r.children.len() == 0,
        r.parents.len() == 0,
    ensures
        edges_symmetric(g.insert(id, r)),
{
    let h = g.insert(id, r);
    assert forall|a: i32, j: int| #[trigger] h.contains_key(a) && 0 <= j < h[a].children.len()
        implies h.contains_key(#[trigger] h[a].children[j].0) by {
        if a != id {
            assert(g.contains_key(g[a].children[j].0));
        }
    }
    assert forall|a: i32, j: int| #[trigger] h.contains_key(a) && 0 <= j < h[a].parents.len()
        implies h.contains_key(#[trigger] h[a].parents[j].0) by {
        if a != id {
            assert(g.contains_key(g[a].parents[j].0));
        }
    }
    assert forall|a: i32, b: i32| #[trigger] h.contains_key(a) && #[trigger] h.contains_key(b)
        implies child_count(h[a].children, b) == parent_count(h[b].parents, a) by {
        if a == id {
            lemma_count_zero_kids(h[a].children, b);
            if b == id {
                lemma_count_zero_parents(h[b].parents, a);
            } else {
                assert forall|j: int| 0 <= j < g[b].parents.len() implies (#[trigger] g[b].parents[j]).0 != a by {
                    assert(g.contains_key(g[b].parents[j].0));
                }
                lemma_count_zero_parents(g[b].parents, a);
            }
        } else if b == id {
            lemma_count_zero_parents(h[b].parents, a);
            assert forall|j: int| 0 <= j < g[a].children.len() implies (#[trigger] g[a].children[j]).0 != b by {
                assert(g.contains_key(g[a].children[j].0));
            }
            lemma_count_zero_kids(g[a].children, b);
        }
    }
}

/// Associating a list of components with a parent, depth first as the graph
/// builder does, keeps every edge of the graph recorded at both ends, keeps every
/// requirement already there, and, where it succeeds, leaves each associated
/// component in the graph.
pub proof fn law_associate_keeps_edges_symmetric(
    db: crate::db::DatabaseView,
    g: Map<i32, ReqView>,
    parent: i32,
    comps: Seq<ComponentView>,
    k: int,
)
    requires
        0 <= k,
        edges_symmetric(g),
        associate(db, g, parent, comps, k) matches Some((_, Ok(()))),
    ensures
        edges_symmetric(associate(db, g, parent, comps, k).unwrap().0),
        g.dom().subset_of(associate(db, g, parent, comps, k).unwrap().0.dom()),
        forall|i: int| k <= i < comps.len() ==> associate(db, g, parent, comps, k).unwrap().0.contains_key(#[trigger] comps[i].id),
    decreases crate::requirements_graph::pending(db, g).len(), comps.len() - k,
{
    if 0 <= k < comps.len() {
        let c = comps[k];
        if g.contains_key(parent) && g.contains_key(c.id) {
            lemma_link_symmetric(g, parent, c.id);
            law_associate_keeps_edges_symmetric(db, link(g, parent, c.id), parent, comps, k + 1);
            let gf = associate(db, g, parent, comps, k).unwrap().0;
            assert(link(g, parent, c.id).contains_key(c.id));
            assert(gf.contains_key(c.id));
            assert forall|i: int| k <= i < comps.len() implies gf.contains_key(#[trigger] comps[i].id) by {
                if i == k {
                    assert(comps[i].id == c.id);
                }
            }
        } else {
            let g1 = g.insert(c.id, component_req(c, db.classes.rows));
            assert(g1.contains_key(parent));
            assert(!g.contains_key(c.id));
            lemma_insert_symmetric(g, c.id, component_req(c, db.classes.rows));
            let g2 = link(g1, parent, c.id);
            lemma_link_symmetric(g1, parent, c.id);
            assert(g.dom().subset_of(g2.dom()));
            lemma_pending_add(db, g, g2, c.id);
            assert(component_ids(db).contains(c.id));
            assert(associate(db, g2, c.id, children_of(db, c.id), 0) matches Some((_, Ok(()))));
            law_associate_keeps_edges_symmetric(db, g2, c.id, children_of(db, c.id), 0);
            let g3 = associate(db, g2, c.id, children_of(db, c.id), 0).unwrap().0;
            assert(g2.dom().subset_of(g3.dom()));
            lemma_pending_grow(db, g2, g3);
            assert(associate(db, g, parent, comps, k) == associate(db, g3, parent, comps, k + 1));
            law_associate_keeps_edges_symmetric(db, g3, parent, comps, k + 1);
            let gf = associate(db, g, parent, comps, k).unwrap().0;
            assert(g3.contains_key(c.id));
            assert(gf.contains_key(c.id));
            assert forall|i: int| k <= i < comps.len() implies gf.contains_key(#[trigger] comps[i].id) by {
                if i == k {
                    assert(comps[i].id == c.id);
                }
            }
        }
    }
}

/// `b` starts with `a`: entries are only appended after those of `a`.
pub open spec fn extends<T>(a: Seq<T>, b: Seq<T>) -> bool {
    a.len() <= b.len() && b.subrange(0, a.len() as int) == a
}

/// `h` keeps every requirement of `g` as it was, but for parents appended after
/// the ones it had and, for `p` alone, children appended after its own.
pub open spec fn keeps_requirements(g: Map<i32, ReqView>, h: Map<i32, ReqView>, p: i32) -> bool {
    &&& g.dom().subset_of(h.dom())
    &&& forall|x: i32| #[trigger] g.contains_key(x) ==> {
        &&& h[x] == ReqView { children: h[x].children, parents: h[x].parents, ..g[x] }
        &&& extends(g[x].parents, h[x].parents)
        &&& extends(g[x].children, h[x].children)
        &&& x != p ==> h[x].children == g[x].children
    }
}

/// The child entries that associating `comps` appends: each component, unchecked
/// and with no position, in order.
pub open spec fn appended_children(comps: Seq<ComponentView>) -> Seq<Kid> {
    comps.map_values(|c: ComponentView| (c.id, Status::Unchecked, None::<i32>))
}

proof fn lemma_extends_trans<T>(a: Seq<T>, b: Seq<T>, c: Seq<T>)
    requires
        extends(a, b),
        extends(b, c),
    ensures
        extends(a, c),
{
    assert(c.subrange(0, a.len() as int) =~= b.subrange(0, a.len() as int));
}

proof fn lemma_keeps_trans(g: Map<i32, ReqView>, m: Map<i32, ReqView>, h: Map<i32, ReqView>, p: i32, q: i32)
    requires
        keeps_requirements(g, m, p),
        keeps_requirements(m, h, q),
        p == q || !g.contains_key(q),
    ensures
        keeps_requirements(g, h, p),
{
    assert forall|x: i32| #[trigger] g.contains_key(x) implies {
        &&& h[x] == ReqView { children: h[x].children, parents: h[x].parents, ..g[x] }
        &&& extends(g[x].parents, h[x].parents)
        &&& extends(g[x].children, h[x].children)
        &&& x != p ==> h[x].children == g[x].children
    } by {
        assert(m.contains_key(x));
        lemma_extends_trans(g[x].parents, m[x].parents, h[x].parents);
        lemma_extends_trans(g[x].children, m[x].children, h[x].children);
    }
}

proof fn lemma_link_keeps(g: Map<i32, ReqView>, parent: i32, child: i32)
    requires
        g.contains_key(parent),
        g.contains_key(child),
    ensures
        keeps_requirements(g, link(g, parent, child), parent),
        link(g, parent, child)[parent].children == g[parent].children.push((child, Status::Unchecked, None::<i32>)),
{
    let h = link(g, parent, child);
    assert forall|x: i32| #[trigger] g.contains_key(x) implies {
        &&& h[x] == ReqView { children: h[x].children, parents: h[x].parents, ..g[x] }
        &&& extends(g[x].parents, h[x].parents)
        &&& extends(g[x].children, h[x].children)
        &&& x != parent ==> h[x].children == g[x].children
    } by {
        assert(g[x].parents.push((parent, Status::Unchecked)).subrange(0, g[x].parents.len() as int) =~= g[x].parents);
        assert(g[x].children.push((child, Status::Unchecked, None::<i32>)).subrange(0, g[x].children.len() as int) =~= g[x].children);
        assert(g[x].parents.subrange(0, g[x].parents.len() as int) =~= g[x].parents);
        assert(g[x].children.subrange(0, g[x].children.len() as int) =~= g[x].children);
    }
}

/// Associating the components `comps[k..]` with `parent` keeps every requirement
/// already in the graph, with edges only appended after the ones it had; the
/// parent's children gain exactly one unchecked entry per component, in order,
/// and no other requirement already there gains a child; each component is then
/// in the graph.
pub proof fn law_associate_appends_components(
    db: crate::db::DatabaseView,
    g: Map<i32, ReqView>,
    parent: i32,
    comps: Seq<ComponentView>,
    k: int,
)
    requires
        0 <= k <= comps.len(),
        g.contains_key(parent),
        associate(db, g, parent, comps, k) matches Some((_, Ok(()))),
    ensures
        ({
            let h = associate(db, g, parent, comps, k).unwrap().0;
            &&& keeps_requirements(g, h, parent)
            &&& h[parent].children == g[parent].children + appended_children(comps.subrange(k, comps.len() as int))
            &&& forall|i: int| k <= i < comps.len() ==> h.contains_key(#[trigger] comps[i].id)
        }),
    decreases crate::requirements_graph::pending(db, g).len(), comps.len() - k,
{
    let h = associate(db, g, parent, comps, k).unwrap().0;
    if k >= comps.len() {
        assert(h == g);
        assert(appended_children(comps.subrange(k, comps.len() as int)) =~= Seq::<Kid>::empty());
        assert(g[parent].children + Seq::<Kid>::empty() =~= g[parent].children);
        assert forall|x: i32| #[trigger] g.contains_key(x) implies {
            &&& h[x] == ReqView { children: h[x].children, parents: h[x].parents, ..g[x] }
            &&& extends(g[x].parents, h[x].parents)
            &&& extends(g[x].children, h[x].children)
            &&& x != parent ==> h[x].children == g[x].children
        } by {
            assert(g[x].parents.subrange(0, g[x].parents.len() as int) =~= g[x].parents);
            assert(g[x].children.subrange(0, g[x].children.len() as int) =~= g[x].children);
        }
    } else {
        let c = comps[k];
        let entry: Kid = (c.id, Status::Unchecked, None::<i32>);
        let rest = appended_children(comps.subrange(k + 1, comps.len() as int));
        assert(appended_children(comps.subrange(k, comps.len() as int)) =~= seq![entry] + rest);
        if g.contains_key(parent) && g.contains_key(c.id) {
            let g1 = link(g, parent, c.id);
            lemma_link_keeps(g, parent, c.id);
            assert(link(g, parent, c.id).dom() =~= g.dom());
            law_associate_appends_components(db, g1, parent, comps, k + 1);
            lemma_keeps_trans(g, g1, h, parent, parent);
            assert(g[parent].children.push(entry) + rest =~= g[parent].children + (seq![entry] + rest));
            assert(g1.contains_key(c.id));
            assert forall|i: int| k <= i < comps.len() implies h.contains_key(#[trigger] comps[i].id) by {
                if i == k {
                    assert(comps[i].id == c.id);
                }
            }
        } else {
            let g1 = g.insert(c.id, component_req(c, db.classes.rows));
            assert(!g.contains_key(c.id));
            assert(keeps_requirements(g, g1, parent)) by {
                assert forall|x: i32| #[trigger] g.contains_key(x) implies {
                    &&& g1[x] == ReqView { children: g1[x].children, parents: g1[x].parents, ..g[x] }
                    &&& extends(g[x].parents, g1[x].parents)
                    &&& extends(g[x].children, g1[x].children)
                    &&& x != parent ==> g1[x].children == g[x].children
                } by {
                    assert(g[x].parents.subrange(0, g[x].parents.len() as int) =~= g[x].parents);
                    assert(g[x].children.subrange(0, g[x].children.len() as int) =~= g[x].children);
                }
            }
            let g2 = link(g1, parent, c.id);
            lemma_link_keeps(g1, parent, c.id);
            lemma_keeps_trans(g, g1, g2, parent, parent);
            assert(g.dom().subset_of(g2.dom()));
            lemma_pending_add(db, g, g2, c.id);
            assert(component_ids(db).contains(c.id));
            let kids = children_of(db, c.id);
            assert(associate(db, g2, c.id, kids, 0) matches Some((_, Ok(()))));
            law_associate_appends_components(db, g2, c.id, kids, 0);
            let g3 = associate(db, g2, c.id, kids, 0).unwrap().0;
            lemma_keeps_trans(g, g2, g3, parent, c.id);
            assert(g3[parent].children == g2[parent].children);
            lemma_pending_grow(db, g2, g3);
            assert(associate(db, g, parent, comps, k) == associate(db, g3, parent, comps, k + 1));
            assert(g3.contains_key(parent));
            law_associate_appends_components(db, g3, parent, comps, k + 1);
            lemma_keeps_trans(g, g3, h, parent, parent);
            assert(g[parent].children.push(entry) + rest =~= g[parent].children + (seq![entry] + rest));
            assert(g3.contains_key(c.id));
            assert forall|i: int| k <= i < comps.len() implies h.contains_key(#[trigger] comps[i].id) by {
                if i == k {
                    assert(comps[i].id == c.id);
                }
            }
        }
    }
}

/// The catalog maker links the components at `kids[j..]` under the component at
/// `p` with one row per child, in order and with the next ids of the link table;
/// each row carries the association type and the logic name of its line. The rows
/// already there stay, and nothing else of the store changes.
pub proof fn law_maker_links_carry_line_logic(
    st: CatalogView,
    p: int,
    kids: Seq<int>,
    logic: Seq<char>,
    assoc: Seq<char>,
    j: int,
)
    requires
        0 <= j <= kids.len(),
        0 <= st.db.component_assocs.last_id,
        maker_links(st, p, kids, logic, assoc, j) is Some,
    ensures
        ({
            let r = maker_links(st, p, kids, logic, assoc, j).unwrap();
            let (before, after) = (st.db.component_assocs, r.db.component_assocs);
            &&& r.components == st.components
            &&& r.db == (crate::db::DatabaseView { component_assocs: after, ..st.db })
            &&& after.rows.len() == before.rows.len() + (kids.len() - j)
            &&& forall|i: int| 0 <= i < before.rows.len() ==> after.rows[i] == before.rows[i]
            &&& forall|i: int| j <= i < kids.len() ==> {
                let row = #[trigger] after.rows[before.rows.len() + (i - j)];
                &&& row.id == before.last_id + 1 + (i - j)
                &&& row.parent_id == st.components[p].id
                &&& row.child_id == st.components[kids[i]].id
                &&& row.association_type == assoc
                &&& row.logic_type == logic
            }
        }),
    decreases kids.len() - j,
{
    if j < kids.len() {
        let row = ComponentToComponentView {
            id: (st.db.component_assocs.last_id + 1) as i32,
            parent_id: st.components[p].id,
            child_id: st.components[kids[j]].id,
            association_type: assoc,
            logic_type: logic,
        };
        let st1 = CatalogView { db: crate::db::DatabaseView { component_assocs: st.db.component_assocs.push(row), ..st.db }, ..st };
        law_maker_links_carry_line_logic(st1, p, kids, logic, assoc, j + 1);
        let r = maker_links(st, p, kids, logic, assoc, j).unwrap();
        let before = st.db.component_assocs;
        let after = r.db.component_assocs;
        assert forall|i: int| j <= i < kids.len() implies {
            let row = #[trigger] after.rows[before.rows.len() + (i - j)];
            &&& row.id == before.last_id + 1 + (i - j)
            &&& row.parent_id == st.components[p].id
            &&& row.child_id == st.components[kids[i]].id
            &&& row.association_type == assoc
            &&& row.logic_type == logic
        } by {
            if i == j {
                assert(st1.db.component_assocs.rows[before.rows.len() as int] == row);
                assert(after.rows[before.rows.len() as int] == st1.db.component_assocs.rows[before.rows.len() as int]);
                assert(before.rows.len() + (i - j) == before.rows.len());
            } else {
                let t = st1.db.component_assocs.rows.len() + (i - (j + 1));
                assert(before.rows.len() + (i - j) == t);
                assert(after.rows[t].id == st1.db.component_assocs.last_id + 1 + (i - (j + 1)));
            }
        }
    }
}

/// The links the catalog maker stores for an OR line are OR links and those for
/// an AND line are AND links.
pub proof fn law_maker_line_links_name_their_logic(st: CatalogView, p: int, l: crate::catalog_maker::ParsedLogicType, assoc: Seq<char>)
    requires
        0 <= st.db.component_assocs.last_id,
        maker_links(st, p, parsed_kids(l), parsed_name(l), assoc, 0) is Some,
    ensures
        ({
            let (before, after) = (st.db.component_assocs, maker_links(st, p, parsed_kids(l), parsed_name(l), assoc, 0).unwrap().db.component_assocs);
            forall|i: int| before.rows.len() <= i < after.rows.len() ==> (#[trigger] after.rows[i]).logic_type == (match l {
                crate::catalog_maker::ParsedLogicType::AND(_) => "AND"@,
                crate::catalog_maker::ParsedLogicType::OR(_) => "OR"@,
            })
        }),
{
    law_maker_links_carry_line_logic(st, p, parsed_kids(l), parsed_name(l), assoc, 0);
    let before = st.db.component_assocs;
    let after = maker_links(st, p, parsed_kids(l), parsed_name(l), assoc, 0).unwrap().db.component_assocs;
    assert forall|i: int| before.rows.len() <= i < after.rows.len() implies (#[trigger] after.rows[i]).logic_type == parsed_name(l) by {
        let t = i - before.rows.len();
        assert(after.rows[before.rows.len() + (t - 0)].logic_type == parsed_name(l));
    }
}

/// How many children the parsed entries `parsed[k..]` list together.
pub open spec fn entry_count(parsed: Seq<(int, Seq<int>)>, k: int) -> int
    decreases parsed.len() - k,
{
    if k < 0 || k >= parsed.len() {
        0
    } else {
        parsed[k].1.len() + entry_count(parsed, k + 1)
    }
}

/// Linking the children `kids[j..]` under the component at `p` stores one link
/// row per child, in order, from the component at `p` to the child's component,
/// with the next ids of the link table; the rows already there stay, and nothing
/// else of the store changes.
pub proof fn law_link_children_one_row_per_child(st: CatalogView, p: int, kids: Seq<int>, j: int)
    requires
        0 <= j <= kids.len(),
        0 <= st.db.component_assocs.last_id,
        link_children(st, p, kids, j) is Some,
    ensures
        ({
            let r = link_children(st, p, kids, j).unwrap();
            let (before, after) = (st.db.component_assocs, r.db.component_assocs);
            &&& r.components == st.components
            &&& r.db == (crate::db::DatabaseView { component_assocs: after, ..st.db })
            &&& after.rows.len() == before.rows.len() + (kids.len() - j)
            &&& after.last_id == before.last_id + (kids.len() - j)
            &&& forall|i: int| 0 <= i < before.rows.len() ==> after.rows[i] == before.rows[i]
            &&& forall|i: int| j <= i < kids.len() ==> {
                let row = #[trigger] after.rows[before.rows.len() + (i - j)];
                &&& row.id == before.last_id + 1 + (i - j)
                &&& row.parent_id == st.components[p].id
                &&& row.child_id == st.components[kids[i]].id
            }
        }),
    decreases kids.len() - j,
{
    if j < kids.len() {
        let row = ComponentToComponentView {
            id: (st.db.component_assocs.last_id + 1) as i32,
            parent_id: st.components[p].id,
            child_id: st.components[kids[j]].id,
            association_type: Seq::empty(),
            logic_type: Seq::empty(),
        };
        let st1 = CatalogView { db: crate::db::DatabaseView { component_assocs: st.db.component_assocs.push(row), ..st.db }, ..st };
        law_link_children_one_row_per_child(st1, p, kids, j + 1);
        let r = link_children(st, p, kids, j).unwrap();
        let before = st.db.component_assocs;
        let after = r.db.component_assocs;
        assert forall|i: int| j <= i < kids.len() implies {
            let row = #[trigger] after.rows[before.rows.len() + (i - j)];
            &&& row.id == before.last_id + 1 + (i - j)
            &&& row.parent_id == st.components[p].id
            &&& row.child_id == st.components[kids[i]].id
        } by {
            if i == j {
                assert(st1.db.component_assocs.rows[before.rows.len() as int] == row);
                assert(after.rows[before.rows.len() as int] == st1.db.component_assocs.rows[before.rows.len() as int]);
                assert(before.rows.len() + (i - j) == before.rows.len());
            } else {
                let t = st1.db.component_assocs.rows.len() + (i - (j + 1));
                assert(before.rows.len() + (i - j) == t);
                assert(after.rows[t].id == st1.db.component_assocs.last_id + 1 + (i - (j + 1)));
            }
        }
    }
}

/// Linking every parsed parent with its children stores exactly one link row per
/// child entry: the link table grows by the number of entries and keeps its rows,
/// and nothing else of the store changes.
pub proof fn law_assoc_pass_one_row_per_entry(st: CatalogView, parsed: Seq<(int, Seq<int>)>, k: int)
    requires
        0 <= k,
        0 <= st.db.component_assocs.last_id,
        assoc_pass(st, parsed, k) is Some,
    ensures
        ({
            let r = assoc_pass(st, parsed, k).unwrap();
            let (before, after) = (st.db.component_assocs, r.db.component_assocs);
            &&& r.components == st.components
            &&& r.db == (crate::db::DatabaseView { component_assocs: after, ..st.db })
            &&& after.rows.len() == before.rows.len() + entry_count(parsed, k)
            &&& forall|i: int| 0 <= i < before.rows.len() ==> after.rows[i] == before.rows[i]
        }),
    decreases parsed.len() - k,
{
    if k < parsed.len() {
        law_link_children_one_row_per_child(st, parsed[k].0, parsed[k].1, 0);
        let st1 = link_children(st, parsed[k].0, parsed[k].1, 0).unwrap();
        law_assoc_pass_one_row_per_entry(st1, parsed, k + 1);
    }
}

/// How many entries the logic lists of the catalog `cat[k..]` hold together.
pub open spec fn catalog_entries(cat: Seq<(InstView, LogicView)>, k: int) -> int
    decreases cat.len() - k,
{
    if k < 0 || k >= cat.len() {
        0
    } else {
        cat[k].1.entries.len() + catalog_entries(cat, k + 1)
    }
}

proof fn lemma_entry_count_push(s: Seq<(int, Seq<int>)>, x: (int, Seq<int>), k: int)
    requires
        0 <= k <= s.len(),
    ensures
        entry_count(s.push(x), k) == entry_count(s, k) + x.1.len(),
    decreases s.len() - k,
{
    if k < s.len() {
        lemma_entry_count_push(s, x, k + 1);
        assert(s.push(x)[k] == s[k]);
    } else {
        assert(s.push(x)[k] == x);
        assert(entry_count(s.push(x), k + 1) == 0);
    }
}

proof fn lemma_parsed_item_keeps_links(st: CatalogView, inst: InstView, logic: Option<Seq<char>>)
    requires
        parsed_item(st, inst, logic) is Some,
    ensures
        parsed_item(st, inst, logic).unwrap().0.db.component_assocs == st.db.component_assocs,
{
}

proof fn lemma_indices_of_one_per_entry(st: CatalogView, insts: Seq<InstView>, k: int, acc: Seq<int>)
    requires
        0 <= k <= insts.len(),
        indices_of(st, insts, k, acc) is Some,
    ensures
        indices_of(st, insts, k, acc).unwrap().1.len() == acc.len() + (insts.len() - k),
        indices_of(st, insts, k, acc).unwrap().0.db.component_assocs == st.db.component_assocs,
    decreases insts.len() - k,
{
    if k < insts.len() {
        lemma_parsed_item_keeps_links(st, insts[k], None);
        let (st1, i) = parsed_item(st, insts[k], None).unwrap();
        lemma_indices_of_one_per_entry(st1, insts, k + 1, acc.push(i));
    }
}

proof fn lemma_initial_pass_counts(st: CatalogView, cat: Seq<(InstView, LogicView)>, k: int, parsed: Seq<(int, Seq<int>)>)
    requires
        0 <= k <= cat.len(),
        initial_pass(st, cat, k, parsed) is Some,
    ensures
        entry_count(initial_pass(st, cat, k, parsed).unwrap().1, 0) == entry_count(parsed, 0) + catalog_entries(cat, k),
        initial_pass(st, cat, k, parsed).unwrap().0.db.component_assocs == st.db.component_assocs,
    decreases cat.len() - k,
{
    if k < cat.len() {
        lemma_parsed_item_keeps_links(st, cat[k].0, Some(cat[k].1.name));
        let (st1, p) = parsed_item(st, cat[k].0, Some(cat[k].1.name)).unwrap();
        lemma_indices_of_one_per_entry(st1, cat[k].1.entries, 0, Seq::empty());
        let (st2, kids) = indices_of(st1, cat[k].1.entries, 0, Seq::empty()).unwrap();
        lemma_entry_count_push(parsed, (p, kids), 0);
        lemma_initial_pass_counts(st2, cat, k + 1, parsed.push((p, kids)));
    }
}

/// Storing a catalog links each parent with each entry of its logic list once: the
/// link table grows by exactly as many rows as the catalog's lists hold entries,
/// and keeps the rows it had.
pub proof fn law_initial_catalog_one_link_per_entry(st: CatalogView, cat: Seq<(InstView, LogicView)>)
    requires
        0 <= st.db.component_assocs.last_id,
        initial_catalog(st, cat) is Some,
    ensures
        ({
            let (before, after) = (st.db.component_assocs, initial_catalog(st, cat).unwrap().db.component_assocs);
            &&& after.rows.len() == before.rows.len() + catalog_entries(cat, 0)
            &&& forall|i: int| 0 <= i < before.rows.len() ==> after.rows[i] == before.rows[i]
        }),
{
    lemma_initial_pass_counts(st, cat, 0, Seq::empty());
    assert(entry_count(Seq::<(int, Seq<int>)>::empty(), 0) == 0);
    let (st1, parsed) = initial_pass(st, cat, 0, Seq::empty()).unwrap();
    law_assoc_pass_one_row_per_entry(st1, parsed, 0);
}

/// The requirement graph of a degree, built into an empty graph from a root
/// without edges, records every edge at both ends.
pub proof fn law_requirement_graph_edges_symmetric(db: crate::db::DatabaseView, degree_id: i32, root: ReqView)
    requires
        root.children.len() == 0,
        root.parents.len() == 0,
        degree_graph(db, Map::empty(), degree_id, root) matches Some((_, Ok(()))),
    ensures
        edges_symmetric(degree_graph(db, Map::empty(), degree_id, root).unwrap().0),
{
    let e = Map::<i32, ReqView>::empty();
    lemma_insert_symmetric(e, -1i32, root);
    law_associate_keeps_edges_symmetric(db, e.insert(-1i32, root), -1i32, degree_components(db, degree_id), 0);
}

/// The catalog maker's class shorthand is the class entry of three credits.
pub proof fn law_shorthand_is_class_of_three(st: CatalogView, name: Seq<char>)
    ensures
        entry_step(st, EntryView::SimpleClass(name)) == entry_step(st, EntryView::Class(name, 3)),
        entry_step(st, EntryView::SimpleClass(name)) == class_step(st, name, 3),
{
}

/// A filter of rows whose ids increase has increasing ids too.
proof fn lemma_filter_ids_increase(rows: Seq<ComponentView>, p: spec_fn(ComponentView) -> bool)
    requires
        forall|i: int, j: int| 0 <= i < j < rows.len() ==> (#[trigger] rows[i]).id < (#[trigger] rows[j]).id,
    ensures
        forall|i: int, j: int| 0 <= i < j < rows.filter(p).len() ==> (#[trigger] rows.filter(p)[i]).id < (#[trigger] rows.filter(p)[j]).id,
    decreases rows.len(),
{
    reveal_with_fuel(Seq::filter, 1);
    if rows.len() > 0 {
        let r = rows.drop_last();
        assert forall|i: int, j: int| 0 <= i < j < r.len() implies (#[trigger] r[i]).id < (#[trigger] r[j]).id by {
            assert(r[i] == rows[i] && r[j] == rows[j]);
        }
        lemma_filter_ids_increase(r, p);
        if p(rows.last()) {
            let f = rows.filter(p);
            let fr = r.filter(p);
            assert(f =~= fr.push(rows.last()));
            assert forall|i: int, j: int| 0 <= i < j < f.len() implies (#[trigger] f[i]).id < (#[trigger] f[j]).id by {
                if j == f.len() - 1 {
                    assert(f[i] == fr[i]);
                    r.lemma_filter_contains_rev(p, fr[i]);
                    let t = choose|t: int| 0 <= t < r.len() && r[t] == fr[i];
                    assert(rows[t] == r[t]);
                    assert(rows[t].id < rows[rows.len() - 1].id);
                } else {
                    assert(f[i] == fr[i] && f[j] == fr[j]);
                }
            }
        }
    }
}

/// Once an edge links `p` to the component `c` of a well-formed store, the
/// children of `p` hold `c`, and hold it once however many edges link them; every
/// child listed is a component linked under `p`.
pub proof fn law_linked_child_listed_once(db: crate::db::DatabaseView, p: i32, c: ComponentView, edge: ComponentToComponentView)
    requires
        table_wf::<Component>(db.components),
        db.components.rows.contains(c),
        edge.parent_id == p,
        edge.child_id == c.id,
    ensures
        ({
            let db2 = crate::db::DatabaseView { component_assocs: db.component_assocs.push(edge), ..db };
            let kids = children_of(db2, p);
            &&& kids.contains(c)
            &&& forall|i: int, j: int| 0 <= i < j < kids.len() ==> (#[trigger] kids[i]).id != (#[trigger] kids[j]).id
            &&& forall|i: int| 0 <= i < kids.len() ==> #[trigger] links_to(db2.component_assocs.rows, p, kids[i].id)
                && db.components.rows.contains(kids[i])
        }),
{
    let db2 = crate::db::DatabaseView { component_assocs: db.component_assocs.push(edge), ..db };
    let assocs = db2.component_assocs.rows;
    let rows = db.components.rows;
    let pr = |x: ComponentView| links_to(db2.component_assocs.rows, p, x.id);
    assert(children_of(db2, p) == rows.filter(pr));
    let n = db.component_assocs.rows.len() as int;
    assert(assocs[n] == edge);
    assert(links_to(assocs, p, c.id));
    let k = choose|k: int| 0 <= k < rows.len() && rows[k] == c;
    rows.lemma_filter_contains(pr, k);
    assert forall|i: int, j: int| 0 <= i < j < rows.len() implies (#[trigger] rows[i]).id < (#[trigger] rows[j]).id by {
        assert(Component::key_of(rows[i]) < Component::key_of(rows[j]));
    }
    lemma_filter_ids_increase(rows, pr);
    assert forall|i: int| 0 <= i < rows.filter(pr).len() implies #[trigger] links_to(assocs, p, rows.filter(pr)[i].id)
        && rows.contains(rows.filter(pr)[i]) by {
        rows.lemma_filter_pred(pr, i);
        rows.lemma_filter_contains_rev(pr, rows.filter(pr)[i]);
    }
}

proof fn lemma_ids_of_joined(
    comps: Seq<ComponentView>,
    s: Seq<DegreeToComponentView>,
    d: i32,
    f: spec_fn(DegreeToComponentView) -> Option<ComponentView>,
    p: spec_fn(DegreeToComponentView) -> bool,
)
    requires
        forall|a: DegreeToComponentView| #[trigger] p(a) == (a.degree_id == d),
        forall|a: DegreeToComponentView| #[trigger] f(a) == (if a.degree_id == d { row_with_key::<Component>(comps, a.component_id) } else { None }),
        forall|i: int| 0 <= i < s.len() && (#[trigger] s[i]).degree_id == d ==> has_key::<Component>(comps, s[i].component_id),
    ensures
        s.filter_map(f).map_values(|c: ComponentView| c.id) == s.filter(p).map_values(|a: DegreeToComponentView| a.component_id),
    decreases s.len(),
{
    reveal_with_fuel(Seq::filter, 1);
    reveal_with_fuel(Seq::filter_map, 1);
    if s.len() > 0 {
        let r = s.drop_last();
        assert forall|i: int| 0 <= i < r.len() && (#[trigger] r[i]).degree_id == d implies has_key::<Component>(comps, r[i].component_id) by {
            assert(r[i] == s[i]);
        }
        lemma_ids_of_joined(comps, r, d, f, p);
        let a = s.last();
        if a.degree_id == d {
            assert(has_key::<Component>(comps, s[s.len() - 1].component_id));
            let c = f(a).unwrap();
            assert(c.id == a.component_id);
            assert(s.filter_map(f) =~= r.filter_map(f) + seq![c]);
            assert(s.filter(p) =~= r.filter(p).push(a));
            assert(s.filter_map(f).map_values(|c: ComponentView| c.id) =~= r.filter_map(f).map_values(|c: ComponentView| c.id).push(c.id));
            assert(s.filter(p).map_values(|a: DegreeToComponentView| a.component_id) =~= r.filter(p).map_values(|a: DegreeToComponentView| a.component_id).push(a.component_id));
        } else {
            assert(s.filter_map(f) =~= r.filter_map(f));
            assert(s.filter(p) =~= r.filter(p));
        }
    }
}

/// Where every requirement row of a degree names a stored component, the rows
/// that `get_component_ids` answers name, in order, exactly the components that
/// `get_components` answers.
pub proof fn law_component_ids_match_components(db: crate::db::DatabaseView, d: i32)
    requires
        forall|i: int| 0 <= i < db.degree_assocs.rows.len() && (#[trigger] db.degree_assocs.rows[i]).degree_id == d
            ==> has_key::<Component>(db.components.rows, db.degree_assocs.rows[i].component_id),
    ensures
        degree_components(db, d).map_values(|c: ComponentView| c.id)
            == db.degree_assocs.rows.filter(|a: DegreeToComponentView| a.degree_id == d).map_values(|a: DegreeToComponentView| a.component_id),
{
    let f = |a: DegreeToComponentView| if a.degree_id == d { row_with_key::<Component>(db.components.rows, a.component_id) } else { None };
    let p = |a: DegreeToComponentView| a.degree_id == d;
    assert(degree_components(db, d) == db.degree_assocs.rows.filter_map(f));
    lemma_ids_of_joined(db.components.rows, db.degree_assocs.rows, d, f, p);
}

/// Deleting a row a second time changes nothing: a destroy of an id already
/// destroyed leaves the table as the first one left it.
pub proof fn law_destroy_twice_changes_nothing<R: Record>(t: TableView<R::V>, id: i32)
    requires
        table_wf::<R>(t),
    ensures
        remove_key::<R>(remove_key::<R>(t.rows, id), id) == remove_key::<R>(t.rows, id),
{
    law_destroyed_row_is_gone::<R>(t, id);
    let rows = remove_key::<R>(t.rows, id);
    if has_key::<R>(rows, id) {
        let i = choose|i: int| 0 <= i < rows.len() && R::key_of(rows[i]) == id;
        crate::db::lemma_row_with_key::<R>(t.with_rows(rows), id, i);
    }
}

/// An OR group reached from a parent selects its cheapest child: after its
/// children are analysed, the child at the first position of least known cost is
/// marked selected, the other children keep their analysed status, and no child
/// of known cost costs less.
pub proof fn law_or_group_selects_cheapest(fuel: nat, g: Map<i32, ReqView>, pid: i32, id: i32)
    requires
        sat_group(fuel, g, Some(pid), id) matches Some((_, Ok(_))),
        g.contains_key(id),
        g[id].logic_type == Some("OR"@),
        eval_children((fuel - 1) as nat, g, id).unwrap().1.len() <= usize::MAX,
    ensures
        ({
            let kids = eval_children((fuel - 1) as nat, g, id).unwrap().1;
            let best = cheapest(kids, kids.len() as int);
            let out = sat_group(fuel, g, Some(pid), id).unwrap().0;
            &&& 0 <= best.0 < kids.len()
            &&& out.contains_key(id)
            &&& out[id].children == kids.update(best.0, (kids[best.0].0, Status::Selected, kids[best.0].2))
            &&& forall|j: int| 0 <= j < kids.len() && (#[trigger] kids[j]).2 is Some ==> best.1 <= kids[j].2->0
            &&& forall|j: int| 0 <= j < best.0 && (#[trigger] kids[j]).2 is Some ==> best.1 < kids[j].2->0
        }),
{
    reveal_strlit("OR");
    reveal_strlit("AND");
    assert("OR"@ != "AND"@) by {
        assert("OR"@[0] != "AND"@[0]);
    }
    let (g1, kids) = eval_children((fuel - 1) as nat, g, id).unwrap();
    law_cheapest_is_minimal(kids, kids.len() as int);
    let best = cheapest(kids, kids.len() as int);
    let kids2 = kids.update(best.0, (kids[best.0].0, Status::Selected, kids[best.0].2));
    let ga = g1.insert(id, ReqView { children: kids2, ..g1[id] });
    assert(ga[id].children == kids2);
}

/// The analysis of a group writes only the group's own entry: every other
/// requirement is as the analyses of its children left it, and no requirement is
/// added or removed.
pub proof fn law_group_analysis_writes_only_itself(fuel: nat, g: Map<i32, ReqView>, parent: Option<i32>, id: i32)
    requires
        sat_group(fuel, g, parent, id) is Some,
    ensures
        ({
            let g1 = eval_children((fuel - 1) as nat, g, id).unwrap().0;
            let out = sat_group(fuel, g, parent, id).unwrap().0;
            &&& out.dom() == g1.dom()
            &&& forall|k: i32| k != id && #[trigger] out.contains_key(k) ==> out[k] == g1[k]
        }),
{
    let g1 = eval_children((fuel - 1) as nat, g, id).unwrap().0;
    let out = sat_group(fuel, g, parent, id).unwrap().0;
    assert(out.dom() =~= g1.dom());
}

/// A catalog run into a store with no components stores each component name
/// once: the names of the components stored are distinct.
pub proof fn law_catalog_names_distinct(
    db: crate::db::DatabaseView,
    cat: Seq<(InstView, LogicView)>,
    reqs: Seq<(InstView, Seq<InstView>)>,
)
    requires
        table_wf::<Component>(db.components),
        db.components.rows.len() == 0,
        catalog_run(CatalogView { db, components: Seq::empty() }, cat, reqs) is Some,
    ensures
        ({
            let rows = catalog_run(CatalogView { db, components: Seq::empty() }, cat, reqs).unwrap().db.components.rows;
            forall|i: int, j: int| 0 <= i < j < rows.len() ==> (#[trigger] rows[i]).name != (#[trigger] rows[j]).name
        }),
{
    let st = CatalogView { db, components: Seq::empty() };
    assert(db.components.rows =~= Seq::<ComponentView>::empty());
    assert(mirrored(st));
    lemma_mirrored_initial_pass(st, cat, 0, Seq::empty());
    let (st1, parsed) = initial_pass(st, cat, 0, Seq::empty()).unwrap();
    lemma_mirrored_assoc_pass(st1, parsed, 0);
    let st2 = assoc_pass(st1, parsed, 0).unwrap();
    lemma_mirrored_degree_pass(st2, reqs, 0);
}

/// The queue grows only at its end, and a class requirement that is visited ends
/// up queued.
proof fn lemma_queue_grows(fuel: nat, g: Map<i32, ReqView>, id: i32, q: Seq<(i32, i32)>)
    requires
        queue_visit(fuel, g, id, q) is Some,
    ensures
        ({
            let q2 = queue_visit(fuel, g, id, q).unwrap().0;
            &&& q.len() <= q2.len()
            &&& q2.take(q.len() as int) == q
            &&& g.contains_key(id) && g[id].class is Some ==> queued(q2, id)
        }),
    decreases fuel, 0int, 0int,
{
    if fuel > 0 && !queued(q, id) {
        lemma_queue_children_grow((fuel - 1) as nat, g, g[id].children, 0, q);
        let q2 = queue_children((fuel - 1) as nat, g, g[id].children, 0, q).unwrap();
        if g[id].class is Some {
            let m = crate::queue_planner::min_number(q2);
            let item = (id, if m == i32::MAX { 0i32 } else { (m + 1) as i32 });
            let q3 = q2.push(item);
            assert(q3.take(q.len() as int) =~= q2.take(q.len() as int));
            assert(q3[q3.len() - 1].0 == id);
        } else {
            assert(q2.take(q.len() as int) == q);
        }
    } else if fuel > 0 {
        assert(q.take(q.len() as int) =~= q);
    }
}

/// Visiting the children `kids[k..]` grows the queue only at its end and queues
/// each selected class among them.
proof fn lemma_queue_children_grow(fuel: nat, g: Map<i32, ReqView>, kids: Seq<Kid>, k: int, q: Seq<(i32, i32)>)
    requires
        0 <= k,
        queue_children(fuel, g, kids, k, q) is Some,
    ensures
        ({
            let q2 = queue_children(fuel, g, kids, k, q).unwrap();
            &&& q.len() <= q2.len()
            &&& q2.take(q.len() as int) == q
            &&& forall|j: int| k <= j < kids.len() && 0 <= j && (#[trigger] kids[j]).1 == Status::Selected
                && g.contains_key(kids[j].0) && g[kids[j].0].class is Some ==> queued(q2, kids[j].0)
        }),
    decreases fuel, 1int, kids.len() - k,
{
    if k >= kids.len() {
        assert(q.take(q.len() as int) =~= q);
    } else {
        let q1 = if kids[k].1 == Status::Selected {
            lemma_queue_grows(fuel, g, kids[k].0, q);
            queue_visit(fuel, g, kids[k].0, q).unwrap().0
        } else {
            q
        };
        if kids[k].1 != Status::Selected {
            assert(q.take(q.len() as int) =~= q);
        }
        lemma_queue_children_grow(fuel, g, kids, k + 1, q1);
        let q2 = queue_children(fuel, g, kids, k + 1, q1).unwrap();
        assert(q2.take(q.len() as int) =~= q2.take(q1.len() as int).take(q.len() as int));
        assert forall|j: int| k <= j < kids.len() && 0 <= j && (#[trigger] kids[j]).1 == Status::Selected
            && g.contains_key(kids[j].0) && g[kids[j].0].class is Some implies queued(q2, kids[j].0) by {
            if j == k {
                let t = choose|t: int| 0 <= t < q1.len() && (#[trigger] q1[t]).0 == kids[j].0;
                assert(q2.take(q1.len() as int)[t] == q1[t]);
                assert(q2[t] == q1[t]);
            }
        }
    }
}

/// The queue places a class after its selected prerequisites: when a class that
/// is not queued yet is visited, it is queued last, and each of its selected
/// children that is a class is queued before it; the queue only grows at its end.
pub proof fn law_queue_after_prerequisites(fuel: nat, g: Map<i32, ReqView>, id: i32, q: Seq<(i32, i32)>)
    requires
        queue_visit(fuel, g, id, q) is Some,
        !queued(q, id),
        g.contains_key(id),
        g[id].class is Some,
    ensures
        ({
            let q3 = queue_visit(fuel, g, id, q).unwrap().0;
            &&& q3.len() > q.len()
            &&& q3.take(q.len() as int) == q
            &&& q3.last().0 == id
            &&& forall|j: int| 0 <= j < g[id].children.len() && (#[trigger] g[id].children[j]).1 == Status::Selected
                && g.contains_key(g[id].children[j].0) && g[g[id].children[j].0].class is Some
                ==> queued(q3.drop_last(), g[id].children[j].0)
        }),
{
    lemma_queue_children_grow((fuel - 1) as nat, g, g[id].children, 0, q);
    let q2 = queue_children((fuel - 1) as nat, g, g[id].children, 0, q).unwrap();
    let m = crate::queue_planner::min_number(q2);
    let item = (id, if m == i32::MAX { 0i32 } else { (m + 1) as i32 });
    let q3 = q2.push(item);
    assert(q3.drop_last() =~= q2);
    assert(q3.take(q.len() as int) =~= q2.take(q.len() as int));
}

} // verus!
