use vstd::prelude::*;
use crate::analysis_common::{modify_parent, modify_parent_status};
use crate::db::{Database, DatabaseView, DbError};
use crate::models::degree::{degree_coded, Degree, DegreeView};
use crate::planner::Kid;
use crate::req_holder::ReqHolder;
use crate::requirements_graph::{degree_graph, degree_root};
use crate::types::{copy_children, copy_parents, Period, Req, ReqView, Schedule, ScheduleError, Status};

verus! {

/// The level of a queue number: negative numbers count as zero.
pub open spec fn level(p: i32) -> int {
    if p < 0 { 0 } else { p as int }
}

/// The highest level of the queue, `-1` for an empty queue.
pub open spec fn max_level(q: Seq<(i32, i32)>) -> int
    decreases q.len(),
{
    if q.len() == 0 {
        -1
    } else {
        let m = max_level(q.drop_last());
        let l = level(q.last().1);
        if m < l { l } else { m }
    }
}

/// The number of periods of the schedule made from the queue.
pub open spec fn period_count(q: Seq<(i32, i32)>) -> int {
    max_level(q) + 1
}

/// The term of the `t`-th period: spring first, then fall, in turn.
pub open spec fn term_name(t: int) -> Seq<char> {
    if t % 2 == 0 { "Spring"@ } else { "Fall"@ }
}

/// The requirements taken in the `t`-th period: those of the queue items at level
/// `t`, in queue order.
pub open spec fn period_classes(g: Map<i32, ReqView>, q: Seq<(i32, i32)>, t: int) -> Seq<ReqView> {
    q.filter_map(|it: (i32, i32)| if level(it.1) == t { Some(g[it.0]) } else { None })
}

pub proof fn lemma_max_level(q: Seq<(i32, i32)>)
    ensures
        forall|i: int| 0 <= i < q.len() ==> level(#[trigger] q[i].1) <= max_level(q),
        q.len() > 0 ==> exists|i: int| 0 <= i < q.len() && level(#[trigger] q[i].1) == max_level(q),
        max_level(q) >= -1,
    decreases q.len(),
{
    if q.len() > 0 {
        let r = q.drop_last();
        lemma_max_level(r);
        assert forall|i: int| 0 <= i < q.len() implies level(#[trigger] q[i].1) <= max_level(q) by {
            if i < q.len() - 1 {
                assert(q[i] == r[i]);
            }
        }
        if max_level(r) < level(q.last().1) {
            assert(level(q[q.len() - 1].1) == max_level(q));
        } else if r.len() > 0 {
            let i = choose|i: int| 0 <= i < r.len() && level(#[trigger] r[i].1) == max_level(r);
            assert(q[i] == r[i]);
        } else {
            assert(level(q[q.len() - 1].1) == max_level(q));
        }
    }
}

/// The schedule made from a queue of requirements: the `t`-th period is the
/// spring (`t` even) or fall (`t` odd) of year `2023 + t / 2` and holds the
/// requirements whose queue number is `t` (a negative number counting as zero),
/// in queue order; the last period is that of the highest queue number.
pub open spec fn schedule_matches(g: Map<i32, ReqView>, q: Seq<(i32, i32)>, s: Schedule) -> bool {
    &&& s.periods@.len() == period_count(q)
    &&& forall|t: int| 0 <= t < s.periods@.len() ==> {
        &&& (#[trigger] s.periods@[t]).year == 2023 + t / 2
        &&& s.periods@[t].time@ == term_name(t)
        &&& s.periods@[t].classes@.map_values(|r: Req| r@) == period_classes(g, q, t)
    }
}

/// Makes the schedule of a queue of (requirement, queue number) pairs.
pub fn schedule_from_queue(req_holder: &ReqHolder, queue: &Vec<(i32, i32)>) -> (s: Schedule)
    requires
        forall|i: int| 0 <= i < queue@.len() ==> (#[trigger] queue@[i]).1 < i32::MAX,
        forall|i: int| 0 <= i < queue@.len() ==> req_holder@.contains_key((#[trigger] queue@[i]).0),
    ensures
        schedule_matches(req_holder@, queue@, s),
{
    let ghost g = req_holder@;
    let ghost q = queue@;
    proof {
        lemma_max_level(q);
    }
    let mut schedule = Schedule::new();
    let mut max_queue_no: i32 = 0;
    let mut time_counter: u32 = 0;
    let mut more = queue.len() > 0;
    while more
        invariant
            g == req_holder@,
            q == queue@,
            forall|i: int| 0 <= i < q.len() ==> (#[trigger] q[i]).1 < i32::MAX,
            forall|i: int| 0 <= i < q.len() ==> g.contains_key((#[trigger] q[i]).0),
            forall|i: int| 0 <= i < q.len() ==> level(#[trigger] q[i].1) <= max_level(q),
            q.len() > 0 ==> exists|i: int| 0 <= i < q.len() && level(#[trigger] q[i].1) == max_level(q),
            max_level(q) >= -1,
            0 <= max_queue_no,
            time_counter == max_queue_no,
            schedule.periods@.len() == max_queue_no,
            more <==> max_queue_no <= max_level(q),
            max_queue_no <= max_level(q) + 1,
            forall|t: int| 0 <= t < schedule.periods@.len() ==> {
                &&& (#[trigger] schedule.periods@[t]).year == 2023 + t / 2
                &&& schedule.periods@[t].time@ == term_name(t as int)
                &&& schedule.periods@[t].classes@.map_values(|r: Req| r@) == period_classes(g, q, t)
            },
        decreases max_level(q) + 1 - max_queue_no,
    {
        let year: u32 = 2023 + time_counter / 2;
        let time = if time_counter % 2 == 0 {
            "Spring".to_owned()
        } else {
            "Fall".to_owned()
        };
        let ghost t = max_queue_no as int;
        let ghost f = |it: (i32, i32)| if level(it.1) == t { Some(g[it.0]) } else { None };
        let mut classes: Vec<Req> = Vec::new();
        let mut later = false;
        let mut i: usize = 0;
        while i < queue.len()
            invariant
                g == req_holder@,
                q == queue@,
                t == max_queue_no,
                0 <= t,
                f == (|it: (i32, i32)| if level(it.1) == t { Some(g[it.0]) } else { None }),
                forall|i: int| 0 <= i < q.len() ==> g.contains_key((#[trigger] q[i]).0),
                0 <= i <= q.len(),
                classes@.map_values(|r: Req| r@) == q.take(i as int).filter_map(f),
                later <==> exists|j: int| 0 <= j < i && level(#[trigger] q[j].1) > t,
            decreases q.len() - i,
        {
            let item = queue[i];
            proof {
                q.lemma_filter_map_take_succ(f, i as int);
            }
            let lvl_here = if item.1 < 0 { 0 } else { item.1 };
            if lvl_here == max_queue_no {
                let req = req_holder.get_req(item.0).unwrap();
                classes.push(req.duplicate());
            }
            if item.1 > max_queue_no {
                later = true;
            }
            proof {
                assert(classes@.map_values(|r: Req| r@) =~= q.take(i + 1).filter_map(f));
                assert(level(q[i as int].1) > t <==> item.1 > max_queue_no);
            }
            i = i + 1;
        }
        assert(q.take(q.len() as int) =~= q);
        let new_period = Period { year, time, classes };
        schedule.periods.push(new_period);
        proof {
            if later {
                let j = choose|j: int| 0 <= j < q.len() && level(#[trigger] q[j].1) > t;
                assert(level(q[j].1) <= max_level(q));
            } else {
                if t < max_level(q) {
                    let j = choose|j: int| 0 <= j < q.len() && level(#[trigger] q[j].1) == max_level(q);
                    assert(level(q[j].1) > t);
                }
            }
            assert(q[0].1 < i32::MAX);
        }
        max_queue_no = max_queue_no + 1;
        time_counter = time_counter + 1;
        more = later;
    }
    schedule
}

/// The state of the walk over the children of a requirement: the children with
/// their new statuses, the cheapest child so far (position and cost) and whether
/// every prerequisite could be associated.
pub struct Walk {
    pub kids: Seq<Kid>,
    pub best: (int, i32),
    pub can_associate: bool,
}

/// `kids` with the status of the `k`-th child set to `st`.
pub open spec fn with_status(kids: Seq<Kid>, k: int, st: Status) -> Seq<Kid> {
    kids.update(k, (kids[k].0, st, kids[k].2))
}

/// The graph where the requirement `id` gets the children `kids` and is no longer
/// in analysis; `None` where it is missing.
pub open spec fn finish(g: Map<i32, ReqView>, id: i32, kids: Seq<Kid>) -> Option<(Map<i32, ReqView>, Result<i32, ScheduleError>)> {
    if !g.contains_key(id) {
        None
    } else {
        Some((g.insert(id, ReqView { children: kids, in_analysis: false, ..g[id] }), Ok(0i32)))
    }
}

/// The graph where the class `id` gets the children `kids` and is no longer in
/// analysis, answering its credits; `None` where it has no class or no credits.
pub open spec fn finish_class(g: Map<i32, ReqView>, id: i32, kids: Seq<Kid>) -> Option<(Map<i32, ReqView>, Result<i32, ScheduleError>)> {
    if !g.contains_key(id) {
        None
    } else {
        match g[id].class {
            Some(c) => match c.credits {
                Some(cr) => Some((g.insert(id, ReqView { children: kids, in_analysis: false, ..g[id] }), Ok(cr))),
                None => None,
            },
            None => None,
        }
    }
}

/// The parents with every entry for `pid` given status `st`.
pub open spec fn set_all_parents(ps: Seq<(i32, Status)>, pid: i32, st: Status) -> Seq<(i32, Status)> {
    ps.map_values(|p: (i32, Status)| if p.0 == pid { (pid, st) } else { p })
}

/// The graph where each child of `kids[k..]` marks all its parent entries for `id`
/// selected; `None` where a child is missing.
pub open spec fn select_parents(g: Map<i32, ReqView>, id: i32, kids: Seq<Kid>, k: int) -> Option<Map<i32, ReqView>>
    decreases kids.len() - k,
{
    if k < 0 || k >= kids.len() {
        Some(g)
    } else if !g.contains_key(kids[k].0) {
        None
    } else {
        let c = kids[k].0;
        select_parents(g.insert(c, ReqView { parents: set_all_parents(g[c].parents, id, Status::Selected), ..g[c] }), id, kids, k + 1)
    }
}

/// The children of an OR group parent, reconsidered for the prerequisite `id`:
/// where the parent is required, its other selected children become checked and
/// the entries of `id` become selected.
pub open spec fn reconsider(kids: Seq<Kid>, id: i32, required: bool) -> Seq<Kid> {
    kids.map_values(|c: Kid|
        if c.0 != id {
            if c.1 == Status::Selected && required { (c.0, Status::Checked, c.2) } else { c }
        } else {
            if required { (c.0, Status::Selected, c.2) } else { c }
        })
}

/// Some child other than `id` is unchecked.
pub open spec fn other_unchecked(kids: Seq<Kid>, id: i32) -> bool {
    exists|j: int| 0 <= j < kids.len() && (#[trigger] kids[j]).0 != id && kids[j].1 == Status::Unchecked
}

/// The walk of the prerequisite `id` over its parents `ps[k..]`: a checked AND or
/// OR group parent must have no other unchecked child, and a checked OR group
/// parent is reconsidered; `None` where a parent is missing or of unknown logic.
pub open spec fn prereq_walk(g: Map<i32, ReqView>, id: i32, required: bool, ps: Seq<(i32, Status)>, k: int) -> Option<Map<i32, ReqView>>
    decreases ps.len() - k,
{
    if k < 0 || k >= ps.len() {
        Some(g)
    } else {
        let (pid, pst) = ps[k];
        if !g.contains_key(pid) {
            None
        } else {
            match g[pid].logic_type {
                None => prereq_walk(g, id, required, ps, k + 1),
                Some(pl) => if pl == "GroupAND"@ {
                    if pst == Status::Checked && other_unchecked(g[pid].children, id) {
                        None
                    } else {
                        prereq_walk(g, id, required, ps, k + 1)
                    }
                } else if pl == "GroupOR"@ {
                    if pst == Status::Checked {
                        if other_unchecked(g[pid].children, id) {
                            None
                        } else {
                            prereq_walk(
                                g.insert(pid, ReqView { children: reconsider(g[pid].children, id, required), ..g[pid] }),
                                id, required, ps, k + 1,
                            )
                        }
                    } else {
                        prereq_walk(g, id, required, ps, k + 1)
                    }
                } else if pl == "PrereqAND"@ || pl == "PrereqOR"@ {
                    prereq_walk(g, id, required, ps, k + 1)
                } else {
                    None
                },
            }
        }
    }
}

/// The evaluation of the prerequisite `id`: it fails where it has no parent or is
/// not a group; otherwise its parents are walked and its parent list is kept.
pub open spec fn eval_prereq(g: Map<i32, ReqView>, id: i32, required: bool) -> Option<(Map<i32, ReqView>, Result<(), ScheduleError>)> {
    if !g.contains_key(id) {
        None
    } else if g[id].parents.len() == 0 || g[id].pftype != "Group"@ {
        Some((g, Err(ScheduleError::PrereqError)))
    } else {
        match prereq_walk(g, id, required, g[id].parents, 0) {
            None => None,
            Some(g1) => if !g1.contains_key(id) {
                None
            } else {
                Some((g1.insert(id, ReqView { parents: g[id].parents, ..g1[id] }), Ok(())))
            },
        }
    }
}

/// The satisfaction of the requirement `id` under the logic `logic`: the children
/// are walked (an AND group satisfies each and selects it, an OR group satisfies
/// each as optional and checks it, keeping the cheapest, a prerequisite AND
/// evaluates each prerequisite), then the walk is settled. `None` where it fails
/// or does not end within `fuel` steps.
pub open spec fn sat_req(fuel: nat, g: Map<i32, ReqView>, id: i32, logic: Option<Seq<char>>, required: bool) -> Option<(Map<i32, ReqView>, Result<i32, ScheduleError>)>
    decreases fuel, 0int, 0int,
{
    if fuel == 0 || !g.contains_key(id) {
        None
    } else {
        let g1 = g.insert(id, ReqView { in_analysis: true, ..g[id] });
        let start = Walk { kids: g[id].children, best: (usize::MAX as int, i32::MAX), can_associate: true };
        match req_walk((fuel - 1) as nat, g1, id, logic, required, g[id].children, 0, start) {
            None => None,
            Some((g2, Err(e))) => Some((g2, Err(e))),
            Some((g2, Ok(w))) => settle(g2, id, logic, w),
        }
    }
}

/// The walk over the children `kids[k..]` of `id`.
pub open spec fn req_walk(
    fuel: nat,
    g: Map<i32, ReqView>,
    id: i32,
    logic: Option<Seq<char>>,
    required: bool,
    kids: Seq<Kid>,
    k: int,
    w: Walk,
) -> Option<(Map<i32, ReqView>, Result<Walk, ScheduleError>)>
    decreases fuel, 1int, kids.len() - k,
{
    if k < 0 || k >= kids.len() || w.kids.len() != kids.len() {
        if w.kids.len() != kids.len() { None } else { Some((g, Ok(w))) }
    } else {
        let cid = kids[k].0;
        if !g.contains_key(cid) {
            None
        } else {
            let clogic = g[cid].logic_type;
            match logic {
                None => req_walk(fuel, g, id, logic, required, kids, k + 1, w),
                Some(l) => if l == "GroupAND"@ {
                    match sat_req(fuel, g, cid, clogic, required) {
                        None => None,
                        Some((g1, Err(e))) => Some((g1, Err(e))),
                        Some((g1, Ok(_))) => match modify_parent(g1, Status::Selected, id, cid) {
                            None => None,
                            Some(g2) => req_walk(fuel, g2, id, logic, required, kids, k + 1,
                                Walk { kids: with_status(w.kids, k, Status::Selected), ..w }),
                        },
                    }
                } else if l == "GroupOR"@ {
                    match sat_req(fuel, g, cid, clogic, false) {
                        None => None,
                        Some((g1, Err(e))) => Some((g1, Err(e))),
                        Some((g1, Ok(res))) => match modify_parent(g1, Status::Checked, id, cid) {
                            None => None,
                            Some(g2) => req_walk(fuel, g2, id, logic, required, kids, k + 1,
                                Walk {
                                    kids: with_status(w.kids, k, Status::Checked),
                                    best: if res < w.best.1 { (k, res) } else { w.best },
                                    ..w
                                }),
                        },
                    }
                } else if l == "PrereqAND"@ {
                    match eval_prereq(g, cid, required) {
                        None => None,
                        Some((g1, Ok(()))) => req_walk(fuel, g1, id, logic, required, kids, k + 1,
                            Walk { kids: with_status(w.kids, k, Status::Selected), ..w }),
                        Some((g1, Err(_))) => req_walk(fuel, g1, id, logic, required, kids, k + 1,
                            Walk { can_associate: false, ..w }),
                    }
                } else {
                    req_walk(fuel, g, id, logic, required, kids, k + 1, w)
                },
            }
        }
    }
}

/// The settling of the walk of `id`: an OR group selects its cheapest child; a
/// prerequisite AND whose prerequisites all associate selects every child, and a
/// class then answers its credits; a requirement without logic must be a class
/// and answers its credits; the others answer zero.
pub open spec fn settle(g: Map<i32, ReqView>, id: i32, logic: Option<Seq<char>>, w: Walk) -> Option<(Map<i32, ReqView>, Result<i32, ScheduleError>)> {
    match logic {
        Some(l) => if l == "GroupAND"@ || l == "PrereqOR"@ {
            finish(g, id, w.kids)
        } else if l == "GroupOR"@ {
            if w.best.0 < 0 || w.best.0 >= w.kids.len() || !g.contains_key(id) || w.best.0 >= g[id].children.len() {
                None
            } else {
                match modify_parent(g, Status::Selected, id, g[id].children[w.best.0].0) {
                    None => None,
                    Some(g2) => finish(g2, id, with_status(w.kids, w.best.0, Status::Selected)),
                }
            }
        } else if l == "PrereqAND"@ {
            if w.can_associate {
                let kids2 = w.kids.map_values(|c: Kid| (c.0, Status::Selected, c.2));
                match select_parents(g, id, w.kids, 0) {
                    None => None,
                    Some(g2) => if !g2.contains_key(id) {
                        None
                    } else if g2[id].pftype == "Class"@ {
                        finish_class(g2, id, kids2)
                    } else {
                        finish(g2, id, kids2)
                    },
                }
            } else {
                finish(g, id, w.kids)
            }
        } else {
            None
        },
        None => if g.contains_key(id) && g[id].pftype == "Class"@ {
            finish_class(g, id, w.kids)
        } else {
            None
        },
    }
}

/// The lowest queue number of the queue, `i32::MAX` for an empty queue.
pub open spec fn min_number(q: Seq<(i32, i32)>) -> i32
    decreases q.len(),
{
    if q.len() == 0 {
        i32::MAX
    } else {
        let m = min_number(q.drop_last());
        if q.last().1 < m { q.last().1 } else { m }
    }
}

/// Some item of the queue is the requirement `id`.
pub open spec fn queued(q: Seq<(i32, i32)>, id: i32) -> bool {
    exists|i: int| 0 <= i < q.len() && (#[trigger] q[i]).0 == id
}

/// The queue after visiting `id`, and what the visit answers: a requirement already
/// queued answers nothing; otherwise its selected children are visited first and a
/// class is then queued one after the lowest number so far (at 0 in an empty
/// queue), answering the queue. `None` where a requirement is missing or the visit
/// does not end within `fuel` steps.
pub open spec fn queue_visit(fuel: nat, g: Map<i32, ReqView>, id: i32, q: Seq<(i32, i32)>) -> Option<(Seq<(i32, i32)>, Seq<(i32, i32)>)>
    decreases fuel, 0int, 0int,
{
    if fuel == 0 {
        None
    } else if queued(q, id) {
        Some((q, Seq::empty()))
    } else if !g.contains_key(id) {
        None
    } else {
        match queue_children((fuel - 1) as nat, g, g[id].children, 0, q) {
            None => None,
            Some(q2) => if g[id].class is Some {
                let m = min_number(q2);
                let item = (id, if m == i32::MAX { 0i32 } else { (m + 1) as i32 });
                Some((q2.push(item), q2.push(item)))
            } else {
                Some((q2, q2))
            },
        }
    }
}

/// The queue after visiting the selected children `kids[k..]`.
pub open spec fn queue_children(fuel: nat, g: Map<i32, ReqView>, kids: Seq<Kid>, k: int, q: Seq<(i32, i32)>) -> Option<Seq<(i32, i32)>>
    decreases fuel, 1int, kids.len() - k,
{
    if k < 0 || k >= kids.len() {
        Some(q)
    } else if kids[k].1 == Status::Selected {
        match queue_visit(fuel, g, kids[k].0, q) {
            None => None,
            Some((q2, _)) => queue_children(fuel, g, kids, k + 1, q2),
        }
    } else {
        queue_children(fuel, g, kids, k + 1, q)
    }
}

/// Some child other than `id` is unchecked.
fn has_other_unchecked(kids: &Vec<Kid>, id: i32) -> (b: bool)
    ensures
        b == other_unchecked(kids@, id),
{
    let mut found = false;
    let mut i: usize = 0;
    while i < kids.len()
        invariant
            0 <= i <= kids@.len(),
            found == (exists|j: int| 0 <= j < i && (#[trigger] kids@[j]).0 != id && kids@[j].1 == Status::Unchecked),
        decreases kids@.len() - i,
    {
        if kids[i].0 != id && kids[i].1 == Status::Unchecked {
            found = true;
        }
        i = i + 1;
    }
    found
}

/// The children reconsidered for the prerequisite `id`, as in `reconsider`.
fn reconsidered(kids: &Vec<Kid>, id: i32, required: bool) -> (r: Vec<Kid>)
    ensures
        r@ == reconsider(kids@, id, required),
{
    let mut out: Vec<Kid> = Vec::new();
    let mut i: usize = 0;
    while i < kids.len()
        invariant
            0 <= i <= kids@.len(),
            out@ == reconsider(kids@.take(i as int), id, required),
        decreases kids@.len() - i,
    {
        let c = kids[i];
        let n = if c.0 != id {
            if c.1 == Status::Selected && required { (c.0, Status::Checked, c.2) } else { c }
        } else {
            if required { (c.0, Status::Selected, c.2) } else { c }
        };
        out.push(n);
        assert(out@ =~= reconsider(kids@.take(i + 1), id, required));
        i = i + 1;
    }
    assert(kids@.take(kids@.len() as int) =~= kids@);
    out
}

fn prereq_walk_exec(req_holder: &mut ReqHolder, req_id: i32, required: bool, ps: &Vec<(i32, Status)>, k: usize) -> (ok: bool)
    requires
        old(req_holder).wf(),
        k <= ps@.len(),
    ensures
        final(req_holder).wf(),
        ok ==> prereq_walk(old(req_holder)@, req_id, required, ps@, k as int) == Some(final(req_holder)@),
        !ok ==> prereq_walk(old(req_holder)@, req_id, required, ps@, k as int) is None,
    decreases ps@.len() - k,
{
    if k >= ps.len() {
        return true;
    }
    let (pid, pst) = ps[k];
    let ghost g = req_holder@;
    let parent_logic = match req_holder.get_req(pid) {
        Some(p) => crate::db::copy_text(&p.logic_type),
        None => {
            return false;
        },
    };
    match parent_logic {
        None => prereq_walk_exec(req_holder, req_id, required, ps, k + 1),
        Some(pl) => {
            if pl == "GroupAND".to_owned() {
                if pst == Status::Checked {
                    let bad = match req_holder.get_req(pid) {
                        Some(p) => has_other_unchecked(&p.children, req_id),
                        None => false,
                    };
                    if bad {
                        return false;
                    }
                }
                prereq_walk_exec(req_holder, req_id, required, ps, k + 1)
            } else if pl == "GroupOR".to_owned() {
                if pst == Status::Checked {
                    let mut parent = match req_holder.take(pid) {
                        Some(p) => p,
                        None => {
                            return false;
                        },
                    };
                    if has_other_unchecked(&parent.children, req_id) {
                        return false;
                    }
                    parent.children = reconsidered(&parent.children, req_id, required);
                    req_holder.put(pid, parent);
                    assert(req_holder@ =~= g.insert(pid, ReqView { children: reconsider(g[pid].children, req_id, required), ..g[pid] }));
                }
                prereq_walk_exec(req_holder, req_id, required, ps, k + 1)
            } else if pl == "PrereqAND".to_owned() || pl == "PrereqOR".to_owned() {
                prereq_walk_exec(req_holder, req_id, required, ps, k + 1)
            } else {
                false
            }
        },
    }
}

/// Evaluates the prerequisite `req_id`: it fails where it has no parent or is not a
/// group; otherwise its parents are walked and reconsidered. `None` where the
/// walk cannot run (a parent missing, of unknown logic, or checked with another
/// child unchecked).
fn evaluate_prereq(req_holder: &mut ReqHolder, req_id: i32, parent_required: bool) -> (r: Option<Result<String, ScheduleError>>)
    requires
        old(req_holder).wf(),
    ensures
        final(req_holder).wf(),
        r is None <==> eval_prereq(old(req_holder)@, req_id, parent_required) is None,
        r is Some ==> ({
            let (g, res) = eval_prereq(old(req_holder)@, req_id, parent_required)->0;
            &&& final(req_holder)@ == g
            &&& match res {
                Ok(()) => r matches Some(Ok(s)) && s@ == "Finished"@,
                Err(e) => r == Some(Err::<String, ScheduleError>(e)),
            }
        }),
{
    let ghost g = req_holder@;
    let (updated_parents, is_group) = match req_holder.get_req(req_id) {
        Some(req) => (copy_parents(&req.parents), req.pftype == "Group".to_owned()),
        None => {
            return None;
        },
    };
    if updated_parents.len() == 0 || !is_group {
        return Some(Err(ScheduleError::PrereqError));
    }
    if !prereq_walk_exec(req_holder, req_id, parent_required, &updated_parents, 0) {
        return None;
    }
    let ghost g1 = req_holder@;
    let mut req = match req_holder.take(req_id) {
        Some(r) => r,
        None => {
            return None;
        },
    };
    req.parents = updated_parents;
    req_holder.put(req_id, req);
    assert(req_holder@ =~= g1.insert(req_id, ReqView { parents: g[req_id].parents, ..g1[req_id] }));
    Some(Ok("Finished".to_owned()))
}

/// Marks every parent entry for `pid` with status `st`.
fn set_all_parents_exec(ps: &Vec<(i32, Status)>, pid: i32, st: Status) -> (r: Vec<(i32, Status)>)
    ensures
        r@ == set_all_parents(ps@, pid, st),
{
    let mut out: Vec<(i32, Status)> = Vec::new();
    let mut i: usize = 0;
    while i < ps.len()
        invariant
            0 <= i <= ps@.len(),
            out@ == set_all_parents(ps@.take(i as int), pid, st),
        decreases ps@.len() - i,
    {
        let p = ps[i];
        out.push(if p.0 == pid { (pid, st) } else { p });
        assert(out@ =~= set_all_parents(ps@.take(i + 1), pid, st));
        i = i + 1;
    }
    assert(ps@.take(ps@.len() as int) =~= ps@);
    out
}

fn select_parents_exec(req_holder: &mut ReqHolder, req_id: i32, kids: &Vec<Kid>, k: usize) -> (ok: bool)
    requires
        old(req_holder).wf(),
        k <= kids@.len(),
    ensures
        final(req_holder).wf(),
        ok ==> select_parents(old(req_holder)@, req_id, kids@, k as int) == Some(final(req_holder)@),
        !ok ==> select_parents(old(req_holder)@, req_id, kids@, k as int) is None,
    decreases kids@.len() - k,
{
    if k >= kids.len() {
        return true;
    }
    let c = kids[k].0;
    let ghost g = req_holder@;
    let mut child = match req_holder.take(c) {
        Some(r) => r,
        None => {
            return false;
        },
    };
    child.parents = set_all_parents_exec(&child.parents, req_id, Status::Selected);
    req_holder.put(c, child);
    assert(req_holder@ =~= g.insert(c, ReqView { parents: set_all_parents(g[c].parents, req_id, Status::Selected), ..g[c] }));
    select_parents_exec(req_holder, req_id, kids, k + 1)
}

/// Gives the requirement `id` its children and ends its analysis; a class answers
/// its credits. `None` where it is missing, or is a class without credits.
fn finish_exec(req_holder: &mut ReqHolder, id: i32, kids: Vec<Kid>, class_credits: bool) -> (r: Option<Result<i32, ScheduleError>>)
    requires
        old(req_holder).wf(),
    ensures
        final(req_holder).wf(),
        class_credits ==> match r {
            Some(x) => finish_class(old(req_holder)@, id, kids@) == Some((final(req_holder)@, x)),
            None => finish_class(old(req_holder)@, id, kids@) is None,
        },
        !class_credits ==> match r {
            Some(x) => finish(old(req_holder)@, id, kids@) == Some((final(req_holder)@, x)),
            None => finish(old(req_holder)@, id, kids@) is None,
        },
{
    let ghost g = req_holder@;
    let ghost kv = kids@;
    let mut req = match req_holder.take(id) {
        Some(r) => r,
        None => {
            return None;
        },
    };
    req.children = kids;
    req.in_analysis = false;
    let credits = if class_credits {
        match &req.class {
            Some(c) => match c.credits {
                Some(cr) => cr,
                None => {
                    return None;
                },
            },
            None => {
                return None;
            },
        }
    } else {
        0
    };
    req_holder.put(id, req);
    assert(req_holder@ =~= g.insert(id, ReqView { children: kv, in_analysis: false, ..g[id] }));
    Some(Ok(credits))
}

/// Satisfies the requirement `req_id` under the logic `logic_type`; `None` where
/// the satisfaction fails or does not end within `fuel` steps.
fn satisfy_requirements(
    req_holder: &mut ReqHolder,
    req_id: i32,
    logic_type: Option<String>,
    required: bool,
    fuel: u64,
) -> (r: Option<Result<i32, ScheduleError>>)
    requires
        old(req_holder).wf(),
    ensures
        final(req_holder).wf(),
        match r {
            Some(x) => sat_req(fuel as nat, old(req_holder)@, req_id, logic_type.deep_view(), required) == Some((final(req_holder)@, x)),
            None => sat_req(fuel as nat, old(req_holder)@, req_id, logic_type.deep_view(), required) is None,
        },
    decreases fuel, 0int, 0int,
{
    let ghost g = req_holder@;
    if fuel == 0 {
        return None;
    }
    let mut req = match req_holder.take(req_id) {
        Some(r) => r,
        None => {
            return None;
        },
    };
    let kids = copy_children(&req.children);
    let updated = copy_children(&req.children);
    req.in_analysis = true;
    assert(req@ == ReqView { in_analysis: true, ..g[req_id] });
    req_holder.put(req_id, req);
    assert(req_holder@ =~= g.insert(req_id, ReqView { in_analysis: true, ..g[req_id] }));
    let mut walk_kids = updated;
    let mut best: (usize, i32) = (usize::MAX, i32::MAX);
    let mut can_associate = true;
    let res = req_walk_exec(
        req_holder, req_id, &logic_type, required, &kids, 0, &mut walk_kids, &mut best, &mut can_associate,
        fuel - 1,
    );
    match res {
        None => None,
        Some(Err(e)) => Some(Err(e)),
        Some(Ok(())) => settle_exec(req_holder, req_id, &logic_type, walk_kids, best, can_associate),
    }
}

fn req_walk_exec(
    req_holder: &mut ReqHolder,
    req_id: i32,
    logic_type: &Option<String>,
    required: bool,
    kids: &Vec<Kid>,
    k: usize,
    walk_kids: &mut Vec<Kid>,
    best: &mut (usize, i32),
    can_associate: &mut bool,
    fuel: u64,
) -> (r: Option<Result<(), ScheduleError>>)
    requires
        old(req_holder).wf(),
        k <= kids@.len(),
    ensures
        final(req_holder).wf(),
        r is None <==> req_walk(fuel as nat, old(req_holder)@, req_id, logic_type.deep_view(), required, kids@, k as int,
            Walk { kids: old(walk_kids)@, best: (old(best).0 as int, old(best).1), can_associate: *old(can_associate) }) is None,
        r is Some ==> ({
            let (g, res) = req_walk(fuel as nat, old(req_holder)@, req_id, logic_type.deep_view(), required, kids@, k as int,
                Walk { kids: old(walk_kids)@, best: (old(best).0 as int, old(best).1), can_associate: *old(can_associate) })->0;
            &&& final(req_holder)@ == g
            &&& match res {
                Ok(w) => r == Some(Ok::<(), ScheduleError>(())) && w == Walk { kids: final(walk_kids)@, best: (final(best).0 as int, final(best).1), can_associate: *final(can_associate) },
                Err(e) => r == Some(Err::<(), ScheduleError>(e)),
            }
        }),
    decreases fuel, 1int, kids@.len() - k,
{
    if walk_kids.len() != kids.len() {
        return None;
    }
    if k >= kids.len() {
        return Some(Ok(()));
    }
    let cid = kids[k].0;
    let child_logic = match req_holder.get_req(cid) {
        Some(c) => crate::db::copy_text(&c.logic_type),
        None => {
            return None;
        },
    };
    match logic_type {
        None => req_walk_exec(req_holder, req_id, logic_type, required, kids, k + 1, walk_kids, best, can_associate, fuel),
        Some(l) => {
            if *l == "GroupAND".to_owned() {
                let res = satisfy_requirements(req_holder, cid, child_logic, required, fuel);
                match res {
                    None => None,
                    Some(Err(e)) => Some(Err(e)),
                    Some(Ok(_)) => {
                        if req_holder.get_req(cid).is_none() {
                            return None;
                        }
                        modify_parent_status(req_holder, Status::Selected, req_id, cid);
                        let old_kid = walk_kids[k];
                        walk_kids.set(k, (old_kid.0, Status::Selected, old_kid.2));
                        req_walk_exec(req_holder, req_id, logic_type, required, kids, k + 1, walk_kids, best, can_associate, fuel)
                    },
                }
            } else if *l == "GroupOR".to_owned() {
                let res = satisfy_requirements(req_holder, cid, child_logic, false, fuel);
                match res {
                    None => None,
                    Some(Err(e)) => Some(Err(e)),
                    Some(Ok(result)) => {
                        if req_holder.get_req(cid).is_none() {
                            return None;
                        }
                        if result < best.1 {
                            *best = (k, result);
                        }
                        modify_parent_status(req_holder, Status::Checked, req_id, cid);
                        let old_kid = walk_kids[k];
                        walk_kids.set(k, (old_kid.0, Status::Checked, old_kid.2));
                        req_walk_exec(req_holder, req_id, logic_type, required, kids, k + 1, walk_kids, best, can_associate, fuel)
                    },
                }
            } else if *l == "PrereqAND".to_owned() {
                match evaluate_prereq(req_holder, cid, required) {
                    None => {
                        return None;
                    },
                    Some(Ok(_)) => {
                        let old_kid = walk_kids[k];
                        walk_kids.set(k, (old_kid.0, Status::Selected, old_kid.2));
                    },
                    Some(Err(_)) => {
                        *can_associate = false;
                    },
                }
                req_walk_exec(req_holder, req_id, logic_type, required, kids, k + 1, walk_kids, best, can_associate, fuel)
            } else {
                req_walk_exec(req_holder, req_id, logic_type, required, kids, k + 1, walk_kids, best, can_associate, fuel)
            }
        },
    }
}

fn settle_exec(
    req_holder: &mut ReqHolder,
    req_id: i32,
    logic_type: &Option<String>,
    walk_kids: Vec<Kid>,
    best: (usize, i32),
    can_associate: bool,
) -> (r: Option<Result<i32, ScheduleError>>)
    requires
        old(req_holder).wf(),
    ensures
        final(req_holder).wf(),
        match r {
            Some(x) => settle(old(req_holder)@, req_id, logic_type.deep_view(),
                Walk { kids: walk_kids@, best: (best.0 as int, best.1), can_associate }) == Some((final(req_holder)@, x)),
            None => settle(old(req_holder)@, req_id, logic_type.deep_view(),
                Walk { kids: walk_kids@, best: (best.0 as int, best.1), can_associate }) is None,
        },
{
    let ghost g = req_holder@;
    match logic_type {
        Some(l) => {
            if *l == "GroupAND".to_owned() || *l == "PrereqOR".to_owned() {
                finish_exec(req_holder, req_id, walk_kids, false)
            } else if *l == "GroupOR".to_owned() {
                if best.0 >= walk_kids.len() {
                    return None;
                }
                let child_id = match req_holder.get_req(req_id) {
                    Some(req) => {
                        if best.0 >= req.children.len() {
                            return None;
                        }
                        req.children[best.0].0
                    },
                    None => {
                        return None;
                    },
                };
                if req_holder.get_req(child_id).is_none() {
                    return None;
                }
                modify_parent_status(req_holder, Status::Selected, req_id, child_id);
                let mut kids2 = walk_kids;
                let picked = kids2[best.0];
                kids2.set(best.0, (picked.0, Status::Selected, picked.2));
                finish_exec(req_holder, req_id, kids2, false)
            } else if *l == "PrereqAND".to_owned() {
                if can_associate {
                    if !select_parents_exec(req_holder, req_id, &walk_kids, 0) {
                        return None;
                    }
                    let mut kids2: Vec<Kid> = Vec::new();
                    let mut i: usize = 0;
                    while i < walk_kids.len()
                        invariant
                            0 <= i <= walk_kids@.len(),
                            kids2@ == walk_kids@.take(i as int).map_values(|c: Kid| (c.0, Status::Selected, c.2)),
                        decreases walk_kids@.len() - i,
                    {
                        let c = walk_kids[i];
                        kids2.push((c.0, Status::Selected, c.2));
                        assert(kids2@ =~= walk_kids@.take(i + 1).map_values(|c: Kid| (c.0, Status::Selected, c.2)));
                        i = i + 1;
                    }
                    assert(walk_kids@.take(walk_kids@.len() as int) =~= walk_kids@);
                    let is_class = match req_holder.get_req(req_id) {
                        Some(req) => req.pftype == "Class".to_owned(),
                        None => {
                            return None;
                        },
                    };
                    finish_exec(req_holder, req_id, kids2, is_class)
                } else {
                    finish_exec(req_holder, req_id, walk_kids, false)
                }
            } else {
                None
            }
        },
        None => {
            if req_holder.get_req(req_id).is_none() {
                return None;
            }
            let is_class = match req_holder.get_req(req_id) {
                Some(req) => req.pftype == "Class".to_owned(),
                None => false,
            };
            if !is_class {
                return None;
            }
            finish_exec(req_holder, req_id, walk_kids, true)
        },
    }
}

/// The lowest queue number, `i32::MAX` for an empty queue.
fn lowest_number(q: &Vec<(i32, i32)>) -> (m: i32)
    ensures
        m == min_number(q@),
{
    let mut m: i32 = i32::MAX;
    let mut i: usize = 0;
    assert(q@.take(0) =~= Seq::<(i32, i32)>::empty());
    while i < q.len()
        invariant
            0 <= i <= q@.len(),
            m == min_number(q@.take(i as int)),
        decreases q@.len() - i,
    {
        assert(q@.take(i + 1).drop_last() =~= q@.take(i as int));
        if q[i].1 < m {
            m = q[i].1;
        }
        i = i + 1;
    }
    assert(q@.take(q@.len() as int) =~= q@);
    m
}

/// A copy of a queue.
fn copy_queue(q: &Vec<(i32, i32)>) -> (r: Vec<(i32, i32)>)
    ensures
        r@ == q@,
{
    let mut out: Vec<(i32, i32)> = Vec::new();
    let mut i: usize = 0;
    while i < q.len()
        invariant
            0 <= i <= q@.len(),
            out@ == q@.take(i as int),
        decreases q@.len() - i,
    {
        out.push(q[i]);
        assert(out@ =~= q@.take(i + 1));
        i = i + 1;
    }
    assert(q@.take(q@.len() as int) =~= q@);
    out
}

/// Visits the requirement `id`: its selected children are queued first, then a
/// class is queued one after the lowest number so far. `None` where a requirement
/// is missing or the visit does not end within `fuel` steps.
fn build_queue(
    req_holder: &ReqHolder,
    id: i32,
    parent_queue: &mut Vec<(i32, i32)>,
    fuel: u64,
) -> (r: Option<Vec<(i32, i32)>>)
    ensures
        match r {
            Some(v) => queue_visit(fuel as nat, req_holder@, id, old(parent_queue)@) == Some((final(parent_queue)@, v@)),
            None => queue_visit(fuel as nat, req_holder@, id, old(parent_queue)@) is None,
        },
    decreases fuel, 0int, 0int,
{
    if fuel == 0 {
        return None;
    }
    let mut found = false;
    let mut i: usize = 0;
    while i < parent_queue.len()
        invariant
            0 <= i <= parent_queue@.len(),
            parent_queue@ == old(parent_queue)@,
            found == (exists|j: int| 0 <= j < i && (#[trigger] parent_queue@[j]).0 == id),
        decreases parent_queue@.len() - i,
    {
        if parent_queue[i].0 == id {
            found = true;
        }
        i = i + 1;
    }
    if found {
        return Some(Vec::new());
    }
    let (kids, is_class) = match req_holder.get_req(id) {
        Some(current) => (copy_children(&current.children), current.class.is_some()),
        None => {
            return None;
        },
    };
    if !queue_children_exec(req_holder, &kids, 0, parent_queue, fuel - 1) {
        return None;
    }
    if is_class {
        let m = lowest_number(parent_queue);
        let item = (id, if m == i32::MAX { 0 } else { m + 1 });
        parent_queue.push(item);
    }
    Some(copy_queue(parent_queue))
}

fn queue_children_exec(
    req_holder: &ReqHolder,
    kids: &Vec<Kid>,
    k: usize,
    parent_queue: &mut Vec<(i32, i32)>,
    fuel: u64,
) -> (ok: bool)
    requires
        k <= kids@.len(),
    ensures
        ok ==> queue_children(fuel as nat, req_holder@, kids@, k as int, old(parent_queue)@) == Some(final(parent_queue)@),
        !ok ==> queue_children(fuel as nat, req_holder@, kids@, k as int, old(parent_queue)@) is None,
    decreases fuel, 1int, kids@.len() - k,
{
    if k >= kids.len() {
        return true;
    }
    if kids[k].1 == Status::Selected {
        if build_queue(req_holder, kids[k].0, parent_queue, fuel).is_none() {
            return false;
        }
    }
    queue_children_exec(req_holder, kids, k + 1, parent_queue, fuel)
}

/// The requirement graph of a degree for this planner: its root is the degree
/// itself with GroupAND logic.
pub open spec fn queue_graph(db: DatabaseView, degree: DegreeView) -> Option<(Map<i32, ReqView>, Result<(), ScheduleError>)> {
    degree_graph(db, Map::empty(), degree.id, degree_root(degree.name, "Degree"@, "GroupAND"@))
}

/// The satisfaction of the graph from its root ends without failing (within
/// `u64::MAX` nested steps, more than any run can take).
pub open spec fn satisfaction_ends(g: Map<i32, ReqView>) -> bool {
    sat_req(u64::MAX as nat, g, -1i32, Some("GroupAND"@), true) is Some
}

/// The satisfied graph and the answer of the root, where the satisfaction ends.
pub open spec fn satisfied(g: Map<i32, ReqView>) -> (Map<i32, ReqView>, Result<i32, ScheduleError>) {
    sat_req(u64::MAX as nat, g, -1i32, Some("GroupAND"@), true)->0
}

/// The queue of the graph from `id` ends without failing (within `u64::MAX`
/// nested steps).
pub open spec fn queue_ends(g: Map<i32, ReqView>, id: i32, q: Seq<(i32, i32)>) -> bool {
    queue_visit(u64::MAX as nat, g, id, q) is Some
}

/// The queue after visiting `id`, and the answer of the visit, where it ends.
pub open spec fn queued_from(g: Map<i32, ReqView>, id: i32, q: Seq<(i32, i32)>) -> (Seq<(i32, i32)>, Seq<(i32, i32)>) {
    queue_visit(u64::MAX as nat, g, id, q)->0
}

/// Whether the satisfaction of the graph in `req_holder` from its root ends
/// without failing within `fuel` nested steps; the holder is left as far as the
/// satisfaction got. With `u64::MAX` steps this is exactly `satisfaction_ends`.
pub fn satisfaction_ends_within(req_holder: &mut ReqHolder, fuel: u64) -> (b: bool)
    requires
        old(req_holder).wf(),
    ensures
        final(req_holder).wf(),
        b == (sat_req(fuel as nat, old(req_holder)@, -1i32, Some("GroupAND"@), true) is Some),
{
    let logic = Some("GroupAND".to_owned());
    satisfy_requirements(req_holder, -1, logic, true, fuel).is_some()
}

/// The queue from `id` after `queue`, where the visit ends without failing
/// within `fuel` nested steps; `queue` is left as far as the visit got.
pub fn queue_within(req_holder: &ReqHolder, id: i32, queue: &mut Vec<(i32, i32)>, fuel: u64) -> (r: Option<Vec<(i32, i32)>>)
    ensures
        match r {
            Some(v) => queue_visit(fuel as nat, req_holder@, id, old(queue)@) == Some((final(queue)@, v@)),
            None => queue_visit(fuel as nat, req_holder@, id, old(queue)@) is None,
        },
{
    build_queue(req_holder, id, queue, fuel)
}

/// Whether a queue can be scheduled over the graph, as in `schedulable`.
pub fn is_schedulable(req_holder: &ReqHolder, queue: &Vec<(i32, i32)>) -> (b: bool)
    ensures
        b == schedulable(req_holder@, queue@),
{
    let mut i: usize = 0;
    while i < queue.len()
        invariant
            0 <= i <= queue@.len(),
            forall|j: int| 0 <= j < i ==> (#[trigger] queue@[j]).1 < i32::MAX && req_holder@.contains_key(queue@[j].0),
        decreases queue@.len() - i,
    {
        if queue[i].1 == i32::MAX || req_holder.get_req(queue[i].0).is_none() {
            assert(!((queue@[i as int]).1 < i32::MAX && req_holder@.contains_key(queue@[i as int].0)));
            return false;
        }
        i = i + 1;
    }
    true
}

/// A queue can be scheduled over the graph: every item is a requirement of the
/// graph and no queue number is `i32::MAX`.
pub open spec fn schedulable(g: Map<i32, ReqView>, q: Seq<(i32, i32)>) -> bool {
    &&& forall|i: int| 0 <= i < q.len() ==> (#[trigger] q[i]).1 < i32::MAX
    &&& forall|i: int| 0 <= i < q.len() ==> g.contains_key((#[trigger] q[i]).0)
}

/// Building the schedule of the degree neither fails nor runs forever.
pub open spec fn queue_schedule_possible(db: DatabaseView, degree: DegreeView) -> bool {
    match queue_graph(db, degree) {
        None => false,
        Some((_, Err(_))) => true,
        Some((g, Ok(()))) => satisfaction_ends(g) && match satisfied(g).1 {
            Err(_) => true,
            Ok(_) => queue_ends(satisfied(g).0, -1i32, Seq::empty())
                && schedulable(satisfied(g).0, queued_from(satisfied(g).0, -1i32, Seq::empty()).0),
        },
    }
}

/// What building the schedule of the degree answers: the error of the graph or of
/// its satisfaction, or success.
pub open spec fn queue_schedule_outcome(db: DatabaseView, degree: DegreeView) -> Result<(), ScheduleError> {
    match (queue_graph(db, degree)->0).1 {
        Err(e) => Err(e),
        Ok(()) => match satisfied((queue_graph(db, degree)->0).0).1 {
            Err(e) => Err(e),
            Ok(_) => Ok(()),
        },
    }
}

/// Makes the schedule of a degree by satisfying its requirement graph and queueing
/// the selected classes after their prerequisites.
pub struct ScheduleMaker {
    conn: Database,
    pub degree: Degree,
    schedule: Option<Schedule>,
}

impl ScheduleMaker {
    /// The store that the planner reads.
    pub closed spec fn store(&self) -> DatabaseView {
        self.conn@
    }

    /// The degree that the planner plans.
    pub closed spec fn degree_view(&self) -> DegreeView {
        self.degree@
    }

    /// The store is well formed.
    pub closed spec fn store_wf(&self) -> bool {
        self.conn.wf()
    }

    /// A schedule has been kept by the planner.
    pub closed spec fn has_schedule(&self) -> bool {
        self.schedule is Some
    }

    /// The store, giving up the planner.
    pub fn into_database(self) -> (d: Database)
        ensures
            d@ == self.store(),
            self.store_wf() ==> d.wf(),
    {
        self.conn
    }

    /// A planner for the first degree with code `degree_code`.
    pub fn new(conn: Database, degree_code: &str) -> (r: Result<Self, ScheduleError>)
        requires
            conn.wf(),
        ensures
            match r {
                Ok(m) => degree_coded(conn@.degrees.rows, degree_code@) == Some(m.degree_view())
                    && m.store() == conn@ && m.store_wf() && !m.has_schedule(),
                Err(e) => e == ScheduleError::DieselError(DbError::NotFound)
                    && degree_coded(conn@.degrees.rows, degree_code@) is None,
            },
    {
        let mut conn = conn;
        let degree = match Degree::find_by_code(degree_code, &mut conn) {
            Ok(d) => d,
            Err(e) => {
                return Err(ScheduleError::from_db(e));
            },
        };
        Ok(ScheduleMaker { conn, degree, schedule: None })
    }

    /// Builds the requirement graph of the degree, satisfies it, queues the
    /// selected classes and makes the schedule of the queue.
    pub fn build_schedule(&mut self) -> (r: Result<String, ScheduleError>)
        requires
            old(self).store_wf(),
            queue_schedule_possible(old(self).store(), old(self).degree_view()),
        ensures
            final(self).store_wf(),
            final(self).store() == old(self).store(),
            final(self).degree_view() == old(self).degree_view(),
            match queue_schedule_outcome(old(self).store(), old(self).degree_view()) {
                Ok(()) => r matches Ok(s) && s@ == "Success!"@,
                Err(e) => r == Err::<String, ScheduleError>(e),
            },
    {
        let mut req_holder = ReqHolder::new();
        let root_id = self.build_requirements_graph(&mut req_holder)?;
        self.analyze_requirements_graph(&mut req_holder)?;
        let mut queue: Vec<(i32, i32)> = Vec::new();
        let built = self.build_queue(&req_holder, root_id, &mut queue);
        let _schedule = self.create_schedule_from_queue(&req_holder, queue);
        Ok("Success!".to_owned())
    }

    /// Whether `build_schedule` can run on this planner: the requirement graph of
    /// the degree can be built and, where it is built without error, its
    /// satisfaction ends, and where that succeeds, the queue of the satisfied graph
    /// ends and can be scheduled.
    pub fn can_build_schedule(&mut self) -> (b: bool)
        requires
            old(self).store_wf(),
        ensures
            *final(self) == *old(self),
            b == queue_schedule_possible(old(self).store(), old(self).degree_view()),
    {
        let mut h = ReqHolder::new();
        match crate::requirements_graph::try_build_requirements_graph(&mut self.conn, &self.degree, &mut h, "Degree", "GroupAND") {
            None => false,
            Some(Err(_)) => true,
            Some(Ok(_)) => {
                let logic = Some("GroupAND".to_owned());
                match satisfy_requirements(&mut h, -1, logic, true, u64::MAX) {
                    None => false,
                    Some(Err(_)) => true,
                    Some(Ok(_)) => {
                        let mut queue: Vec<(i32, i32)> = Vec::new();
                        match build_queue(&h, -1, &mut queue, u64::MAX) {
                            None => false,
                            Some(_) => is_schedulable(&h, &queue),
                        }
                    },
                }
            },
        }
    }

    /// Builds into `req_holder` the requirement graph of the degree: its root is the
    /// degree with id `-1` and GroupAND logic.
    pub fn build_requirements_graph(&mut self, req_holder: &mut ReqHolder) -> (r: Result<i32, ScheduleError>)
        requires
            old(self).store_wf(),
            old(req_holder).wf(),
            degree_graph(old(self).store(), old(req_holder)@, old(self).degree_view().id, degree_root(old(self).degree_view().name, "Degree"@, "GroupAND"@)) is Some,
        ensures
            final(self).store_wf(),
            final(self).store() == old(self).store(),
            final(self).degree_view() == old(self).degree_view(),
            final(req_holder).wf(),
            ({
                let (g, res) = degree_graph(old(self).store(), old(req_holder)@, old(self).degree_view().id, degree_root(old(self).degree_view().name, "Degree"@, "GroupAND"@))->0;
                &&& final(req_holder)@ == g
                &&& match res {
                    Ok(()) => r == Ok::<i32, ScheduleError>(-1i32),
                    Err(e) => r == Err::<i32, ScheduleError>(e),
                }
            }),
    {
        crate::requirements_graph::build_requirements_graph(&mut self.conn, &self.degree, req_holder, "Degree", "GroupAND")
    }

    /// Satisfies the requirement graph from its root, which must be satisfied.
    pub fn analyze_requirements_graph(&mut self, req_holder: &mut ReqHolder) -> (r: Result<(), ScheduleError>)
        requires
            old(req_holder).wf(),
            satisfaction_ends(old(req_holder)@),
        ensures
            *final(self) == *old(self),
            final(req_holder).wf(),
            final(req_holder)@ == satisfied(old(req_holder)@).0,
            match satisfied(old(req_holder)@).1 {
                Ok(_) => r is Ok,
                Err(e) => r == Err::<(), ScheduleError>(e),
            },
    {
        let logic = Some("GroupAND".to_owned());
        match satisfy_requirements(req_holder, -1, logic, true, u64::MAX) {
            Some(Ok(_)) => Ok(()),
            Some(Err(e)) => Err(e),
            None => {
                assert(false);
                Ok(())
            },
        }
    }

    /// Queues the classes below `id` after their selected prerequisites.
    pub fn build_queue(&mut self, req_holder: &ReqHolder, id: i32, parent_queue: &mut Vec<(i32, i32)>) -> (r: Result<Vec<(i32, i32)>, ScheduleError>)
        requires
            queue_ends(req_holder@, id, old(parent_queue)@),
        ensures
            *final(self) == *old(self),
            r matches Ok(v) && v@ == queued_from(req_holder@, id, old(parent_queue)@).1,
            final(parent_queue)@ == queued_from(req_holder@, id, old(parent_queue)@).0,
    {
        match build_queue(req_holder, id, parent_queue, u64::MAX) {
            Some(v) => Ok(v),
            None => {
                assert(false);
                Ok(Vec::new())
            },
        }
    }

    /// Makes the schedule of a queue, as in `schedule_from_queue`.
    pub fn create_schedule_from_queue(&mut self, req_holder: &ReqHolder, queue: Vec<(i32, i32)>) -> (s: Schedule)
        requires
            schedulable(req_holder@, queue@),
        ensures
            *final(self) == *old(self),
            schedule_matches(req_holder@, queue@, s),
    {
        schedule_from_queue(req_holder, &queue)
    }

    /// Checks that no child of `req_id` is left unchecked before queueing.
    pub fn check_to_add(&mut self, req_holder: &ReqHolder, queue: &mut [(usize, i32)], req_id: i32)
        requires
            req_holder@.contains_key(req_id),
            forall|j: int| 0 <= j < req_holder@[req_id].children.len() ==>
                (#[trigger] req_holder@[req_id].children[j]).1 != Status::Unchecked,
        ensures
            *final(self) == *old(self),
            final(queue)@ == old(queue)@,
    {
        match req_holder.get_req(req_id) {
            Some(requirement) => {
                let mut i: usize = 0;
                while i < requirement.children.len()
                    invariant
                        0 <= i <= requirement.children@.len(),
                        requirement@ == req_holder@[req_id],
                        forall|j: int| 0 <= j < req_holder@[req_id].children.len() ==>
                            (#[trigger] req_holder@[req_id].children[j]).1 != Status::Unchecked,
                    decreases requirement.children@.len() - i,
                {
                    if requirement.children[i].1 == Status::Unchecked {
                        assert(requirement.children@[i as int].1 == Status::Unchecked);
                        assert(false);
                    }
                    i = i + 1;
                }
            },
            None => {},
        }
    }
}

} // verus!
