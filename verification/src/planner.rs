use vstd::prelude::*;
use crate::analysis_common::{modify_child, modify_child_status, modify_parent, modify_parent_status, set_first_parent_exec};
use crate::prerequisites::{check_prereqs, prereqs_in_degree};
use crate::req_holder::ReqHolder;
use crate::db::{Database, DatabaseView, DbError};
use crate::models::degree::{degree_coded, Degree, DegreeView};
use crate::requirements_graph::{degree_graph, degree_root};
use crate::types::{copy_children, ReqView, Schedule, ScheduleError, Status};

verus! {

/// A child entry of a requirement: its id, the status of the edge and its cost.
pub type Kid = (i32, Status, Option<i32>);

/// What the analysis of a requirement answers: its cost and the status it gives
/// the edge from its parent.
pub type Outcome = Result<(Option<i32>, Status), ScheduleError>;

/// The total cost of the children, an unknown cost counting as zero.
pub open spec fn cost_total(kids: Seq<Kid>) -> int
    decreases kids.len(),
{
    if kids.len() == 0 {
        0
    } else {
        cost_total(kids.drop_last()) + match kids.last().2 {
            Some(c) => c as int,
            None => 0,
        }
    }
}

/// Every running total of the costs fits in an `i32`.
pub open spec fn costs_fit(kids: Seq<Kid>) -> bool {
    forall|i: int| 0 <= i <= kids.len() ==> i32::MIN <= #[trigger] cost_total(kids.take(i)) <= i32::MAX
}

/// The cheapest child of `kids[..n]` with a known cost below `i32::MAX`: its
/// position, cost and id; the first one where several tie; `(usize::MAX,
/// i32::MAX, i32::MAX)` where there is none.
pub open spec fn cheapest(kids: Seq<Kid>, n: int) -> (int, i32, i32)
    decreases n,
{
    if n <= 0 {
        (usize::MAX as int, i32::MAX, i32::MAX)
    } else {
        let best = cheapest(kids, n - 1);
        match kids[n - 1].2 {
            Some(c) => if c < best.1 { (n - 1, c, kids[n - 1].0) } else { best },
            None => best,
        }
    }
}

/// The children with every checked one selected; the selection is recorded on the
/// group's own children only.
pub open spec fn select_valid(kids: Seq<Kid>) -> Seq<Kid> {
    kids.map_values(|k: Kid| if k.1 == Status::Checked { (k.0, Status::Selected, k.2) } else { k })
}

/// The graph where the first parent entry for `pid` of `id` is checked, and the
/// answer `ok`; where there is no such entry, the error of unhandled logic.
pub open spec fn check_parent_and_answer(
    g: Map<i32, ReqView>,
    id: i32,
    pid: i32,
    ok: (Option<i32>, Status),
) -> Option<(Map<i32, ReqView>, Outcome)> {
    if !g.contains_key(id) {
        None
    } else if exists|j: int| 0 <= j < g[id].parents.len() && (#[trigger] g[id].parents[j]).0 == pid {
        Some((
            g.insert(id, ReqView { parents: crate::analysis_common::set_first_parent(g[id].parents, pid, Status::Checked), ..g[id] }),
            Ok(ok),
        ))
    } else {
        Some((g, Err(ScheduleError::UnimiplementedLogicError)))
    }
}

/// The analysis of the group `id`, reached from `parent` (`None` for the degree
/// root): its children are analysed in turn; an AND group selects every checked
/// child and costs what its children cost, an OR group selects its cheapest
/// child. The group writes only its own entry: the selection stands in its
/// children list, and every other change is made by the analyses of its children. `None` where the analysis fails (a missing requirement, a requirement
/// of the wrong kind, an overflow) or does not end within `fuel` steps.
pub open spec fn sat_group(fuel: nat, g: Map<i32, ReqView>, parent: Option<i32>, id: i32) -> Option<(Map<i32, ReqView>, Outcome)>
    decreases fuel, 0int, 0int,
{
    if fuel == 0 || !g.contains_key(id) || g[id].pftype != "Group"@ || g[id].logic_type is None {
        None
    } else {
        let logic = g[id].logic_type->0;
        match parent {
            None => if id != -1 {
                None
            } else {
                match eval_children((fuel - 1) as nat, g, id) {
                    None => None,
                    Some((g1, kids)) => {
                        let kids2 = select_valid(kids);
                        if !g1.contains_key(id) || !costs_fit(kids2) {
                            None
                        } else {
                            Some((
                                g1.insert(id, ReqView { children: kids2, ..g1[id] }),
                                Ok((Some(cost_total(kids2) as i32), Status::Checked)),
                            ))
                        }
                    },
                }
            },
            Some(pid) => if logic == "AND"@ {
                match eval_children((fuel - 1) as nat, g, id) {
                    None => None,
                    Some((g1, kids)) => {
                        let kids2 = select_valid(kids);
                        if !g1.contains_key(id) || !costs_fit(g1[id].children) {
                            None
                        } else {
                            check_parent_and_answer(
                                g1.insert(id, ReqView { children: kids2, ..g1[id] }),
                                id,
                                pid,
                                (Some(cost_total(g1[id].children) as i32), Status::Checked),
                            )
                        }
                    },
                }
            } else if logic == "OR"@ {
                match eval_children((fuel - 1) as nat, g, id) {
                    None => None,
                    Some((g1, kids)) => if !g1.contains_key(id) {
                        None
                    } else {
                        let best = cheapest(kids, kids.len() as int);
                        if best.0 < 0 || best.0 >= kids.len() {
                            None
                        } else {
                            let kids2 = kids.update(best.0, (kids[best.0].0, Status::Selected, kids[best.0].2));
                            check_parent_and_answer(g1.insert(id, ReqView { children: kids2, ..g1[id] }), id, pid, (Some(best.1), Status::Checked))
                        }
                    },
                }
            } else {
                None
            },
        }
    }
}

/// The analysis of the children of `id`, in order: each group or class child is
/// analysed with `id` as its parent; the new children carry the answers.
pub open spec fn eval_children(fuel: nat, g: Map<i32, ReqView>, id: i32) -> Option<(Map<i32, ReqView>, Seq<Kid>)>
    decreases fuel, 3int, 0int,
{
    if !g.contains_key(id) {
        None
    } else {
        eval_from(fuel, g, id, g[id].children, 0, Seq::empty())
    }
}

/// The analysis of the children `kids[k..]` of `id`, after the answers `acc`.
pub open spec fn eval_from(
    fuel: nat,
    g: Map<i32, ReqView>,
    id: i32,
    kids: Seq<Kid>,
    k: int,
    acc: Seq<Kid>,
) -> Option<(Map<i32, ReqView>, Seq<Kid>)>
    decreases fuel, 2int, kids.len() - k,
{
    if k < 0 || k >= kids.len() {
        Some((g, acc))
    } else {
        let cid = kids[k].0;
        if !g.contains_key(cid) {
            None
        } else {
            let answer = if g[cid].pftype == "Group"@ {
                sat_group(fuel, g, Some(id), cid)
            } else if g[cid].pftype == "Class"@ {
                sat_class(fuel, g, id, cid)
            } else {
                None
            };
            match answer {
                Some((g1, Ok((cost, st)))) => eval_from(fuel, g1, id, kids, k + 1, acc.push((cid, st, cost))),
                _ => None,
            }
        }
    }
}

/// The analysis of the class `id`, reached from `parent_id`: it is marked as in
/// analysis; its other unchecked group parents are analysed first; its checked
/// group parents are then marked desirable; a class without logic, or with AND
/// logic over its prerequisites, is checked and costs its credits, one with OR
/// logic stays unchecked at no cost.
pub open spec fn sat_class(fuel: nat, g: Map<i32, ReqView>, parent_id: i32, id: i32) -> Option<(Map<i32, ReqView>, Outcome)>
    decreases fuel, 0int, 0int,
{
    if fuel == 0 || !g.contains_key(id) {
        None
    } else {
        let g1 = g.insert(id, ReqView { in_analysis: true, ..g[id] });
        let logic = g[id].logic_type;
        match class_pass1((fuel - 1) as nat, g1, id, parent_id, g[id].parents, 0) {
            None => None,
            Some(g2) => if !g2.contains_key(id) {
                None
            } else {
                match class_pass2(g2, id, parent_id, g2[id].parents, 0) {
                    None => None,
                    Some((g3, Err(e))) => Some((g3, Err(e))),
                    Some((g3, Ok(()))) => match logic {
                        None => match modify_parent(g3, Status::Checked, parent_id, id) {
                            None => None,
                            Some(g4) => match g4[id].class {
                                Some(c) => match c.credits {
                                    Some(cr) => Some((g4, Ok((Some(cr), Status::Checked)))),
                                    None => None,
                                },
                                None => None,
                            },
                        },
                        Some(l) => match eval_children((fuel - 1) as nat, g3, id) {
                            None => None,
                            Some((g5, kids)) => if !g5.contains_key(id) {
                                None
                            } else {
                                let g6 = g5.insert(id, ReqView { children: kids, ..g5[id] });
                                if l == "AND"@ {
                                    match g6[id].class {
                                        Some(c) => match c.credits {
                                            Some(cr) => match modify_parent(g6, Status::Checked, parent_id, id) {
                                                None => None,
                                                Some(g7) => Some((g7, Ok((Some(cr), Status::Checked)))),
                                            },
                                            None => None,
                                        },
                                        None => None,
                                    }
                                } else if l == "OR"@ {
                                    Some((g6, Ok((Some(0i32), Status::Unchecked))))
                                } else {
                                    None
                                }
                            },
                        },
                    },
                }
            },
        }
    }
}

/// The first pass of a class over its parents `ps[k..]`: each unchecked group
/// parent other than `parent_id` is analysed with the class as the one reaching it.
pub open spec fn class_pass1(
    fuel: nat,
    g: Map<i32, ReqView>,
    id: i32,
    parent_id: i32,
    ps: Seq<(i32, Status)>,
    k: int,
) -> Option<Map<i32, ReqView>>
    decreases fuel, 1int, ps.len() - k,
{
    if k < 0 || k >= ps.len() {
        Some(g)
    } else {
        let (pid, pst) = ps[k];
        if pid == parent_id {
            class_pass1(fuel, g, id, parent_id, ps, k + 1)
        } else if !g.contains_key(pid) {
            None
        } else if g[pid].pftype != "Group"@ || pst != Status::Unchecked {
            class_pass1(fuel, g, id, parent_id, ps, k + 1)
        } else {
            match sat_group(fuel, g, Some(id), pid) {
                Some((g1, Ok((Some(_), _)))) => class_pass1(fuel, g1, id, parent_id, ps, k + 1),
                _ => None,
            }
        }
    }
}

/// The second pass of a class over its parents `ps[k..]`: each checked group
/// parent other than `parent_id` is marked desirable on both ends of the edge; a
/// desirable or selected one ends the pass with the error of unhandled logic.
pub open spec fn class_pass2(
    g: Map<i32, ReqView>,
    id: i32,
    parent_id: i32,
    ps: Seq<(i32, Status)>,
    k: int,
) -> Option<(Map<i32, ReqView>, Result<(), ScheduleError>)>
    decreases ps.len() - k,
{
    if k < 0 || k >= ps.len() {
        Some((g, Ok(())))
    } else {
        let (pid, pst) = ps[k];
        if pid == parent_id {
            class_pass2(g, id, parent_id, ps, k + 1)
        } else if !g.contains_key(pid) {
            None
        } else if g[pid].pftype != "Group"@ {
            class_pass2(g, id, parent_id, ps, k + 1)
        } else {
            match pst {
                Status::Unchecked => None,
                Status::Unsuitable => None,
                Status::Checked => match modify_parent(g, Status::Desirable, pid, id) {
                    None => None,
                    Some(g1) => match modify_child(g1, Status::Desirable, id, pid) {
                        None => None,
                        Some(g2) => class_pass2(g2, id, parent_id, ps, k + 1),
                    },
                },
                _ => Some((g, Err(ScheduleError::UnimiplementedLogicError))),
            }
        }
    }
}

/// The total cost of the children where every running total fits in an `i32`.
fn checked_total(kids: &Vec<Kid>) -> (r: Option<i32>)
    ensures
        r is Some <==> costs_fit(kids@),
        r matches Some(t) ==> t == cost_total(kids@),
{
    let mut acc: i32 = 0;
    let mut i: usize = 0;
    assert(kids@.take(0) =~= Seq::<Kid>::empty());
    while i < kids.len()
        invariant
            0 <= i <= kids@.len(),
            acc == cost_total(kids@.take(i as int)),
            forall|j: int| 0 <= j <= i ==> i32::MIN <= #[trigger] cost_total(kids@.take(j)) <= i32::MAX,
        decreases kids@.len() - i,
    {
        assert(kids@.take(i + 1).drop_last() =~= kids@.take(i as int));
        assert(kids@.take(i + 1).last() == kids@[i as int]);
        let c: i64 = match kids[i].2 {
            Some(c) => c as i64,
            None => 0,
        };
        let next: i64 = acc as i64 + c;
        if next < i32::MIN as i64 || next > i32::MAX as i64 {
            assert(!(i32::MIN <= cost_total(kids@.take(i + 1)) <= i32::MAX));
            return None;
        }
        acc = next as i32;
        i = i + 1;
    }
    assert(kids@.take(kids@.len() as int) =~= kids@);
    Some(acc)
}

/// The cheapest child with a known cost below `i32::MAX`, as in `cheapest`.
fn cheapest_child(kids: &Vec<Kid>) -> (r: (usize, i32, i32))
    ensures
        r.0 as int == cheapest(kids@, kids@.len() as int).0,
        r.1 == cheapest(kids@, kids@.len() as int).1,
        r.2 == cheapest(kids@, kids@.len() as int).2,
{
    let mut best: (usize, i32, i32) = (usize::MAX, i32::MAX, i32::MAX);
    let mut i: usize = 0;
    while i < kids.len()
        invariant
            0 <= i <= kids@.len(),
            best.0 as int == cheapest(kids@, i as int).0,
            best.1 == cheapest(kids@, i as int).1,
            best.2 == cheapest(kids@, i as int).2,
        decreases kids@.len() - i,
    {
        if let Some(c) = kids[i].2 {
            if c < best.1 {
                best = (i, c, kids[i].0);
            }
        }
        i = i + 1;
    }
    best
}

/// Selects the checked children.
fn select_all_valid_children(children: &mut Vec<Kid>)
    ensures
        final(children)@ == select_valid(old(children)@),
{
    let ghost start = children@;
    let mut i: usize = 0;
    while i < children.len()
        invariant
            0 <= i <= children@.len(),
            children@.len() == start.len(),
            forall|j: int| 0 <= j < i ==> children@[j] == select_valid(start)[j],
            forall|j: int| i <= j < children@.len() ==> children@[j] == start[j],
        decreases children@.len() - i,
    {
        let child = children[i];
        if child.1 == Status::Checked {
            children.set(i, (child.0, Status::Selected, child.2));
        }
        i = i + 1;
    }
    assert(children@ =~= select_valid(start));
}

/// Checks the first parent entry for `pid` of `id` and answers `ok`; where there
/// is no such entry, answers the error of unhandled logic; `None` where `id` is
/// missing.
fn check_parent(req_holder: &mut ReqHolder, id: i32, pid: i32, ok: (Option<i32>, Status)) -> (r: Option<Outcome>)
    requires
        old(req_holder).wf(),
    ensures
        final(req_holder).wf(),
        match r {
            Some(x) => check_parent_and_answer(old(req_holder)@, id, pid, ok) == Some((final(req_holder)@, x)),
            None => check_parent_and_answer(old(req_holder)@, id, pid, ok) is None,
        },
{
    let ghost g = req_holder@;
    let mut req = match req_holder.take(id) {
        Some(r) => r,
        None => {
            return None;
        },
    };
    let mut found = false;
    let mut j: usize = 0;
    while j < req.parents.len()
        invariant
            0 <= j <= req.parents@.len(),
            found == (exists|k: int| 0 <= k < j && (#[trigger] req.parents@[k]).0 == pid),
        decreases req.parents@.len() - j,
    {
        if req.parents[j].0 == pid {
            found = true;
        }
        j = j + 1;
    }
    if found {
        set_first_parent_exec(&mut req.parents, pid, Status::Checked);
        req_holder.put(id, req);
        assert(req_holder@ =~= (check_parent_and_answer(g, id, pid, ok)->0).0);
        Some(Ok(ok))
    } else {
        req_holder.put(id, req);
        assert(req_holder@ =~= g);
        Some(Err(ScheduleError::UnimiplementedLogicError))
    }
}

/// Analyses the children of `req_id` in order and answers the new children;
/// `None` where their analysis fails or does not end within `fuel` steps.
fn evaluate_children(req_holder: &mut ReqHolder, req_id: i32, fuel: u64) -> (r: Option<Vec<Kid>>)
    requires
        old(req_holder).wf(),
    ensures
        final(req_holder).wf(),
        match r {
            Some(v) => eval_children(fuel as nat, old(req_holder)@, req_id) == Some((final(req_holder)@, v@)),
            None => eval_children(fuel as nat, old(req_holder)@, req_id) is None,
        },
    decreases fuel, 3int, 0int,
{
    let kids = match req_holder.get_req(req_id) {
        Some(req) => copy_children(&req.children),
        None => {
            return None;
        },
    };
    let mut acc: Vec<Kid> = Vec::new();
    if eval_from_exec(req_holder, req_id, &kids, 0, &mut acc, fuel) {
        Some(acc)
    } else {
        None
    }
}

fn eval_from_exec(
    req_holder: &mut ReqHolder,
    req_id: i32,
    kids: &Vec<Kid>,
    k: usize,
    acc: &mut Vec<Kid>,
    fuel: u64,
) -> (ok: bool)
    requires
        old(req_holder).wf(),
        k <= kids@.len(),
    ensures
        final(req_holder).wf(),
        ok ==> eval_from(fuel as nat, old(req_holder)@, req_id, kids@, k as int, old(acc)@) == Some((final(req_holder)@, final(acc)@)),
        !ok ==> eval_from(fuel as nat, old(req_holder)@, req_id, kids@, k as int, old(acc)@) is None,
    decreases fuel, 2int, kids@.len() - k,
{
    if k >= kids.len() {
        return true;
    }
    let cid = kids[k].0;
    let (is_group, is_class) = match req_holder.get_req(cid) {
        Some(child) => (child.pftype == "Group".to_owned(), child.pftype == "Class".to_owned()),
        None => {
            return false;
        },
    };
    let answer = if is_group {
        satisfy_group(req_holder, Some(req_id), cid, fuel)
    } else if is_class {
        satisfy_class(req_holder, req_id, cid, fuel)
    } else {
        None
    };
    match answer {
        Some(Ok((cost, st))) => {
            acc.push((cid, st, cost));
            eval_from_exec(req_holder, req_id, kids, k + 1, acc, fuel)
        },
        _ => false,
    }
}

/// Analyses the group `req_id`, reached from `parent_req_id` (`None` for the
/// root); `None` where the analysis fails or does not end within `fuel` steps.
fn satisfy_group(
    req_holder: &mut ReqHolder,
    parent_req_id: Option<i32>,
    req_id: i32,
    fuel: u64,
) -> (r: Option<Outcome>)
    requires
        old(req_holder).wf(),
    ensures
        final(req_holder).wf(),
        match r {
            Some(x) => {
                &&& sat_group(fuel as nat, old(req_holder)@, parent_req_id, req_id) == Some((final(req_holder)@, x))
                &&& final(req_holder)@.dom() == eval_children((fuel - 1) as nat, old(req_holder)@, req_id).unwrap().0.dom()
                &&& forall|k: i32| k != req_id && #[trigger] final(req_holder)@.contains_key(k)
                    ==> final(req_holder)@[k] == eval_children((fuel - 1) as nat, old(req_holder)@, req_id).unwrap().0[k]
            },
            None => sat_group(fuel as nat, old(req_holder)@, parent_req_id, req_id) is None,
        },
    decreases fuel, 0int, 0int,
{
    let ghost g = req_holder@;
    if fuel == 0 {
        return None;
    }
    let logic_type = match req_holder.get_req(req_id) {
        Some(req) => {
            if !(req.pftype == "Group".to_owned()) {
                return None;
            }
            match &req.logic_type {
                Some(l) => l.clone(),
                None => {
                    return None;
                },
            }
        },
        None => {
            return None;
        },
    };
    let pid = match parent_req_id {
        Some(p) => p,
        None => {
            if req_id != -1 {
                return None;
            }
            let mut req_children = match evaluate_children(req_holder, req_id, fuel - 1) {
                Some(v) => v,
                None => {
                    return None;
                },
            };
            select_all_valid_children(&mut req_children);
            let mut req = match req_holder.take(req_id) {
                Some(r) => r,
                None => {
                    return None;
                },
            };
            let cost = match checked_total(&req_children) {
                Some(c) => c,
                None => {
                    return None;
                },
            };
            req.children = req_children;
            req_holder.put(req_id, req);
            return Some(Ok((Some(cost), Status::Checked)));
        },
    };
    if logic_type == "AND".to_owned() {
        let mut req_children = match evaluate_children(req_holder, req_id, fuel - 1) {
            Some(v) => v,
            None => {
                return None;
            },
        };
        select_all_valid_children(&mut req_children);
        let mut req = match req_holder.take(req_id) {
            Some(r) => r,
            None => {
                return None;
            },
        };
        let cost = match checked_total(&req.children) {
            Some(c) => c,
            None => {
                return None;
            },
        };
        req.children = req_children;
        req_holder.put(req_id, req);
        check_parent(req_holder, req_id, pid, (Some(cost), Status::Checked))
    } else if logic_type == "OR".to_owned() {
        let req_children = match evaluate_children(req_holder, req_id, fuel - 1) {
            Some(v) => v,
            None => {
                return None;
            },
        };
        let mut req = match req_holder.take(req_id) {
            Some(r) => r,
            None => {
                return None;
            },
        };
        let best = cheapest_child(&req_children);
        if best.0 >= req_children.len() {
            return None;
        }
        req.children = req_children;
        let picked = req.children[best.0];
        req.children.set(best.0, (picked.0, Status::Selected, picked.2));
        req_holder.put(req_id, req);
        check_parent(req_holder, req_id, pid, (Some(best.1), Status::Checked))
    } else {
        None
    }
}

/// Analyses the class `req_id`, reached from `parent_req_id`; `None` where the
/// analysis fails or does not end within `fuel` steps.
fn satisfy_class(
    req_holder: &mut ReqHolder,
    parent_req_id: i32,
    req_id: i32,
    fuel: u64,
) -> (r: Option<Outcome>)
    requires
        old(req_holder).wf(),
    ensures
        final(req_holder).wf(),
        match r {
            Some(x) => sat_class(fuel as nat, old(req_holder)@, parent_req_id, req_id) == Some((final(req_holder)@, x)),
            None => sat_class(fuel as nat, old(req_holder)@, parent_req_id, req_id) is None,
        },
    decreases fuel, 0int, 0int,
{
    let ghost g = req_holder@;
    if fuel == 0 {
        return None;
    }
    let mut req = match req_holder.take(req_id) {
        Some(r) => r,
        None => {
            return None;
        },
    };
    req.in_analysis = true;
    let logic_type = crate::db::copy_text(&req.logic_type);
    let parents = crate::types::copy_parents(&req.parents);
    assert(req@ == ReqView { in_analysis: true, ..g[req_id] });
    req_holder.put(req_id, req);
    assert(req_holder@ =~= g.insert(req_id, ReqView { in_analysis: true, ..g[req_id] }));
    if !class_pass1_exec(req_holder, req_id, parent_req_id, &parents, 0, fuel - 1) {
        return None;
    }
    let parents2 = match req_holder.get_req(req_id) {
        Some(r) => crate::types::copy_parents(&r.parents),
        None => {
            return None;
        },
    };
    match class_pass2_exec(req_holder, req_id, parent_req_id, &parents2, 0) {
        Some(Ok(())) => {},
        Some(Err(e)) => {
            return Some(Err(e));
        },
        None => {
            return None;
        },
    }
    match logic_type {
        None => {
            if req_holder.get_req(req_id).is_none() {
                return None;
            }
            modify_parent_status(req_holder, Status::Checked, parent_req_id, req_id);
            match class_credits(req_holder, req_id) {
                Some(credits) => Some(Ok((Some(credits), Status::Checked))),
                None => None,
            }
        },
        Some(l) => {
            let req_children = match evaluate_children(req_holder, req_id, fuel - 1) {
                Some(v) => v,
                None => {
                    return None;
                },
            };
            let mut req = match req_holder.take(req_id) {
                Some(r) => r,
                None => {
                    return None;
                },
            };
            req.children = req_children;
            req_holder.put(req_id, req);
            if l == "AND".to_owned() {
                let credits = match class_credits(req_holder, req_id) {
                    Some(c) => c,
                    None => {
                        return None;
                    },
                };
                modify_parent_status(req_holder, Status::Checked, parent_req_id, req_id);
                Some(Ok((Some(credits), Status::Checked)))
            } else if l == "OR".to_owned() {
                Some(Ok((Some(0), Status::Unchecked)))
            } else {
                None
            }
        },
    }
}

/// The credits of the class of the requirement `id`, where it has a class with
/// credits.
fn class_credits(req_holder: &ReqHolder, id: i32) -> (r: Option<i32>)
    ensures
        r == (if req_holder@.contains_key(id) {
            match req_holder@[id].class {
                Some(c) => c.credits,
                None => None,
            }
        } else {
            None
        }),
{
    match req_holder.get_req(id) {
        Some(req) => match &req.class {
            Some(c) => c.credits,
            None => None,
        },
        None => None,
    }
}

fn class_pass1_exec(
    req_holder: &mut ReqHolder,
    req_id: i32,
    parent_req_id: i32,
    parents: &Vec<(i32, Status)>,
    k: usize,
    fuel: u64,
) -> (ok: bool)
    requires
        old(req_holder).wf(),
        k <= parents@.len(),
    ensures
        final(req_holder).wf(),
        ok ==> class_pass1(fuel as nat, old(req_holder)@, req_id, parent_req_id, parents@, k as int) == Some(final(req_holder)@),
        !ok ==> class_pass1(fuel as nat, old(req_holder)@, req_id, parent_req_id, parents@, k as int) is None,
    decreases fuel, 1int, parents@.len() - k,
{
    if k >= parents.len() {
        return true;
    }
    let (pid, pst) = parents[k];
    if pid == parent_req_id {
        return class_pass1_exec(req_holder, req_id, parent_req_id, parents, k + 1, fuel);
    }
    let is_group = match req_holder.get_req(pid) {
        Some(p) => p.pftype == "Group".to_owned(),
        None => {
            return false;
        },
    };
    if !is_group || pst != Status::Unchecked {
        return class_pass1_exec(req_holder, req_id, parent_req_id, parents, k + 1, fuel);
    }
    match satisfy_group(req_holder, Some(req_id), pid, fuel) {
        Some(Ok((Some(_), _))) => class_pass1_exec(req_holder, req_id, parent_req_id, parents, k + 1, fuel),
        _ => false,
    }
}

fn class_pass2_exec(
    req_holder: &mut ReqHolder,
    req_id: i32,
    parent_req_id: i32,
    parents: &Vec<(i32, Status)>,
    k: usize,
) -> (r: Option<Result<(), ScheduleError>>)
    requires
        old(req_holder).wf(),
        k <= parents@.len(),
    ensures
        final(req_holder).wf(),
        match r {
            Some(x) => class_pass2(old(req_holder)@, req_id, parent_req_id, parents@, k as int) == Some((final(req_holder)@, x)),
            None => class_pass2(old(req_holder)@, req_id, parent_req_id, parents@, k as int) is None,
        },
    decreases parents@.len() - k,
{
    if k >= parents.len() {
        return Some(Ok(()));
    }
    let (pid, pst) = parents[k];
    if pid == parent_req_id {
        return class_pass2_exec(req_holder, req_id, parent_req_id, parents, k + 1);
    }
    let is_group = match req_holder.get_req(pid) {
        Some(p) => p.pftype == "Group".to_owned(),
        None => {
            return None;
        },
    };
    if !is_group {
        return class_pass2_exec(req_holder, req_id, parent_req_id, parents, k + 1);
    }
    match pst {
        Status::Unchecked => None,
        Status::Unsuitable => None,
        Status::Checked => {
            if req_holder.get_req(req_id).is_none() {
                return None;
            }
            modify_parent_status(req_holder, Status::Desirable, pid, req_id);
            modify_child_status(req_holder, Status::Desirable, req_id, pid);
            class_pass2_exec(req_holder, req_id, parent_req_id, parents, k + 1)
        },
        _ => Some(Err(ScheduleError::UnimiplementedLogicError)),
    }
}

/// The analysis of a graph from its degree root ends without failing (within
/// `u64::MAX` nested steps, more than any run can take).
pub open spec fn analysis_ends(g: Map<i32, ReqView>) -> bool {
    sat_group(u64::MAX as nat, g, None, -1i32) is Some
}

/// The analysed graph, where the analysis ends.
pub open spec fn analysed(g: Map<i32, ReqView>) -> Map<i32, ReqView> {
    with_selections((sat_group(u64::MAX as nat, g, None, -1i32)->0).0)
}

/// Whether the analysis of the graph in `req_holder` from its degree root ends
/// without failing within `fuel` nested steps; the holder is left as far as the
/// analysis got. With `u64::MAX` steps this is exactly `analysis_ends`, the
/// condition of `ScheduleMaker::analyze_requirements_graph`.
pub fn analysis_ends_within(req_holder: &mut ReqHolder, fuel: u64) -> (b: bool)
    requires
        old(req_holder).wf(),
    ensures
        final(req_holder).wf(),
        b == (sat_group(fuel as nat, old(req_holder)@, None, -1i32) is Some),
{
    satisfy_group(req_holder, None, -1, fuel).is_some()
}

/// A child entry of `kids` selects `c`.
pub open spec fn selects_child(kids: Seq<Kid>, c: i32) -> bool {
    exists|j: int| 0 <= j < kids.len() && (#[trigger] kids[j]).0 == c && kids[j].1 == Status::Selected
}

/// `j` is the first entry of `ps` for its parent.
pub open spec fn first_parent_entry(ps: Seq<(i32, Status)>, j: int) -> bool {
    forall|i: int| 0 <= i < j ==> (#[trigger] ps[i]).0 != ps[j].0
}

/// The parent entries of `c`, where the first entry for each parent that selects
/// `c` records the selection.
pub open spec fn recorded_parents(g: Map<i32, ReqView>, c: i32) -> Seq<(i32, Status)> {
    let ps = g[c].parents;
    Seq::new(
        ps.len(),
        |j: int|
            if first_parent_entry(ps, j) && g.contains_key(ps[j].0) && selects_child(g[ps[j].0].children, c) {
                (ps[j].0, Status::Selected)
            } else {
                ps[j]
            },
    )
}

/// The graph where each selection made by a group stands at both ends of the edge:
/// the selected child records it on its parent entry for the group.
pub open spec fn with_selections(g: Map<i32, ReqView>) -> Map<i32, ReqView> {
    Map::new(|c: i32| g.contains_key(c), |c: i32| ReqView { parents: recorded_parents(g, c), ..g[c] })
}

/// Whether a child entry of `kids` selects `c`.
fn selects_child_exec(kids: &Vec<Kid>, c: i32) -> (b: bool)
    ensures
        b == selects_child(kids@, c),
{
    let mut j: usize = 0;
    while j < kids.len()
        invariant
            0 <= j <= kids@.len(),
            forall|i: int| 0 <= i < j ==> !((#[trigger] kids@[i]).0 == c && kids@[i].1 == Status::Selected),
        decreases kids@.len() - j,
    {
        if kids[j].0 == c && kids[j].1 == Status::Selected {
            assert(kids@[j as int].0 == c && kids@[j as int].1 == Status::Selected);
            return true;
        }
        j = j + 1;
    }
    false
}

/// The parent entries of `c` with the selections of its parents recorded.
fn recorded_parents_exec(h: &ReqHolder, c: i32) -> (v: Vec<(i32, Status)>)
    requires
        h@.contains_key(c),
    ensures
        v@ == recorded_parents(h@, c),
{
    let ps = match h.get_req(c) {
        Some(r) => crate::types::copy_parents(&r.parents),
        None => {
            assert(false);
            Vec::new()
        },
    };
    let ghost g = h@;
    let mut out: Vec<(i32, Status)> = Vec::new();
    let mut j: usize = 0;
    while j < ps.len()
        invariant
            g == h@,
            g.contains_key(c),
            ps@ == g[c].parents,
            0 <= j <= ps@.len(),
            out@.len() == j,
            forall|t: int| 0 <= t < j ==> out@[t] == #[trigger] recorded_parents(g, c)[t],
        decreases ps@.len() - j,
    {
        let pid = ps[j].0;
        let mut first = true;
        let mut i: usize = 0;
        while i < j
            invariant
                0 <= i <= j < ps@.len(),
                pid == ps@[j as int].0,
                first == (forall|t: int| 0 <= t < i ==> (#[trigger] ps@[t]).0 != ps@[j as int].0),
            decreases j - i,
        {
            if ps[i].0 == pid {
                first = false;
            }
            i = i + 1;
        }
        let selects = first && match h.get_req(pid) {
            Some(p) => selects_child_exec(&p.children, c),
            None => false,
        };
        if selects {
            out.push((pid, Status::Selected));
        } else {
            out.push(ps[j]);
        }
        j = j + 1;
    }
    assert(out@ =~= recorded_parents(g, c));
    out
}

/// Records each selection made by a group on the selected child's parent entry.
fn record_selections(h: &mut ReqHolder)
    requires
        old(h).wf(),
    ensures
        final(h).wf(),
        final(h)@ == with_selections(old(h)@),
{
    let ghost g0 = h@;
    let ids = h.ids();
    let n = ids.len();
    let mut i: usize = 0;
    while i < n
        invariant
            h.wf(),
            n == ids@.len(),
            ids@.no_duplicates(),
            forall|k: i32| ids@.contains(k) <==> g0.contains_key(k),
            0 <= i <= n,
            h@.dom() == g0.dom(),
            forall|x: i32| #[trigger] h@.contains_key(x) ==> h@[x].children == g0[x].children,
            forall|t: int| 0 <= t < i ==> h@[#[trigger] ids@[t]] == with_selections(g0)[ids@[t]],
            forall|t: int| i <= t < n ==> h@[#[trigger] ids@[t]] == g0[ids@[t]],
        decreases n - i,
    {
        let c = ids[i];
        assert(ids@.contains(c));
        assert(h@[c] == g0[c]);
        let v = recorded_parents_exec(h, c);
        proof {
            assert(recorded_parents(h@, c) =~= recorded_parents(g0, c));
        }
        let ghost before = h@;
        let mut req = match h.take(c) {
            Some(r) => r,
            None => {
                assert(false);
                return;
            },
        };
        req.parents = v;
        h.put(c, req);
        proof {
            assert(h@ == before.insert(c, with_selections(g0)[c]));
            assert forall|t: int| i + 1 <= t < n implies h@[#[trigger] ids@[t]] == g0[ids@[t]] by {
                assert(ids@[t] != ids@[i as int]);
            }
            assert forall|t: int| 0 <= t < i + 1 implies h@[#[trigger] ids@[t]] == with_selections(g0)[ids@[t]] by {
                if t < i {
                    assert(ids@[t] != ids@[i as int]);
                }
            }
            assert(h@.dom() =~= g0.dom());
        }
        i = i + 1;
    }
    proof {
        assert forall|x: i32| #[trigger] h@.contains_key(x) implies h@[x] == with_selections(g0)[x] by {
            assert(ids@.contains(x));
            let t = choose|t: int| 0 <= t < ids@.len() && ids@[t] == x;
        }
        assert(h@ =~= with_selections(g0));
    }
}

/// The requirement graph of a degree for this planner: its root is an AND group.
pub open spec fn planner_graph(db: DatabaseView, degree: DegreeView) -> Option<(Map<i32, ReqView>, Result<(), ScheduleError>)> {
    degree_graph(db, Map::empty(), degree.id, degree_root(degree.name, "Group"@, "AND"@))
}

/// Building the schedule of the degree neither fails nor runs forever: every class
/// component of the graph has a class and the analysis of the graph ends.
pub open spec fn schedule_possible(db: DatabaseView, degree: DegreeView) -> bool {
    match planner_graph(db, degree) {
        None => false,
        Some((g, Ok(()))) => analysis_ends(g),
        Some((_, Err(_))) => true,
    }
}

/// Makes the schedule of a degree from the requirement graph stored for it.
pub struct ScheduleMaker {
    conn: Database,
    pub degree: Degree,
    schedule: Option<Schedule>,
}

impl ScheduleMaker {
    /// The store that the planner reads.
    pub closed spec fn store(&self) -> DatabaseView {
        self.conn@
    }

    /// The degree that the planner plans.
    pub closed spec fn degree_view(&self) -> DegreeView {
        self.degree@
    }

    /// The store is well formed.
    pub closed spec fn store_wf(&self) -> bool {
        self.conn.wf()
    }

    /// A schedule has been kept by the planner.
    pub closed spec fn has_schedule(&self) -> bool {
        self.schedule is Some
    }

    /// The store, giving up the planner.
    pub fn into_database(self) -> (d: Database)
        ensures
            d@ == self.store(),
            self.store_wf() ==> d.wf(),
    {
        self.conn
    }

    /// A planner for the first degree with code `degree_code`.
    pub fn new(conn: Database, degree_code: &str) -> (r: Result<Self, ScheduleError>)
        requires
            conn.wf(),
        ensures
            match r {
                Ok(m) => degree_coded(conn@.degrees.rows, degree_code@) == Some(m.degree_view())
                    && m.store() == conn@ && m.store_wf() && !m.has_schedule(),
                Err(e) => e == ScheduleError::DieselError(DbError::NotFound)
                    && degree_coded(conn@.degrees.rows, degree_code@) is None,
            },
    {
        let mut conn = conn;
        let degree = match Degree::find_by_code(degree_code, &mut conn) {
            Ok(d) => d,
            Err(e) => {
                return Err(ScheduleError::from_db(e));
            },
        };
        Ok(ScheduleMaker { conn, degree, schedule: None })
    }

    /// Builds the requirement graph of the degree, analyses it and answers the
    /// schedule, which has no period yet; where a selected class needs a
    /// prerequisite that is no requirement of the degree, the degree does not
    /// build and the answer is the prerequisite error.
    pub fn build_schedule(&mut self) -> (r: Result<Schedule, ScheduleError>)
        requires
            old(self).store_wf(),
            schedule_possible(old(self).store(), old(self).degree_view()),
        ensures
            final(self).store_wf(),
            final(self).store() == old(self).store(),
            final(self).degree_view() == old(self).degree_view(),
            match (planner_graph(old(self).store(), old(self).degree_view())->0).1 {
                Ok(()) => if prereqs_in_degree(analysed((planner_graph(old(self).store(), old(self).degree_view())->0).0)) {
                    r matches Ok(s) && s.periods@.len() == 0
                } else {
                    r == Err::<Schedule, ScheduleError>(ScheduleError::PrereqError)
                },
                Err(e) => r == Err::<Schedule, ScheduleError>(e),
            },
    {
        let mut req_holder = ReqHolder::new();
        let root_id = self.build_requirements_graph(&mut req_holder)?;
        self.analyze_requirements_graph(&mut req_holder)?;
        Ok(Schedule::new())
    }

    /// Whether `build_schedule` can run on this planner: the requirement graph of
    /// the degree can be built (every class component reached has its class) and,
    /// where it is built without error, its analysis ends without failing.
    pub fn can_build_schedule(&mut self) -> (b: bool)
        requires
            old(self).store_wf(),
        ensures
            *final(self) == *old(self),
            b == schedule_possible(old(self).store(), old(self).degree_view()),
    {
        let mut h = ReqHolder::new();
        match crate::requirements_graph::try_build_requirements_graph(&mut self.conn, &self.degree, &mut h, "Group", "AND") {
            None => false,
            Some(Err(_)) => true,
            Some(Ok(_)) => analysis_ends_within(&mut h, u64::MAX),
        }
    }

    /// Builds into `req_holder` the requirement graph of the degree: its root is an
    /// AND group with id `-1`.
    pub fn build_requirements_graph(&mut self, req_holder: &mut ReqHolder) -> (r: Result<i32, ScheduleError>)
        requires
            old(self).store_wf(),
            old(req_holder).wf(),
            degree_graph(old(self).store(), old(req_holder)@, old(self).degree_view().id, degree_root(old(self).degree_view().name, "Group"@, "AND"@)) is Some,
        ensures
            final(self).store_wf(),
            final(self).store() == old(self).store(),
            final(self).degree_view() == old(self).degree_view(),
            final(req_holder).wf(),
            ({
                let (g, res) = degree_graph(old(self).store(), old(req_holder)@, old(self).degree_view().id, degree_root(old(self).degree_view().name, "Group"@, "AND"@))->0;
                &&& final(req_holder)@ == g
                &&& match res {
                    Ok(()) => r == Ok::<i32, ScheduleError>(-1i32),
                    Err(e) => r == Err::<i32, ScheduleError>(e),
                }
            }),
    {
        crate::requirements_graph::build_requirements_graph(&mut self.conn, &self.degree, req_holder, "Group", "AND")
    }

    /// Analyses the requirement graph from its degree root, records each group's
    /// selections on the selected children, then checks that every
    /// selected class has its prerequisites among the requirements of the degree.
    pub fn analyze_requirements_graph(&mut self, req_holder: &mut ReqHolder) -> (r: Result<(), ScheduleError>)
        requires
            old(req_holder).wf(),
            analysis_ends(old(req_holder)@),
        ensures
            *final(self) == *old(self),
            final(req_holder).wf(),
            final(req_holder)@ == analysed(old(req_holder)@),
            prereqs_in_degree(analysed(old(req_holder)@)) ==> r is Ok,
            !prereqs_in_degree(analysed(old(req_holder)@)) ==> r == Err::<(), ScheduleError>(ScheduleError::PrereqError),
    {
        match satisfy_group(req_holder, None, -1, u64::MAX) {
            Some(Ok(_)) => {
                record_selections(req_holder);
                if check_prereqs(req_holder) {
                    Ok(())
                } else {
                    Err(ScheduleError::PrereqError)
                }
            },
            Some(Err(e)) => {
                assert(false);
                Err(e)
            },
            None => {
                assert(false);
                Err(ScheduleError::UnimiplementedLogicError)
            },
        }
    }

    /// Analyses the group `parent_id` as reached from the class `class_id`, and
    /// drops the answer.
    fn evaluate_parent_req_from_class(req_holder: &mut ReqHolder, class_id: i32, parent_id: i32, fuel: u64)
        requires
            old(req_holder).wf(),
            sat_group(fuel as nat, old(req_holder)@, Some(class_id), parent_id) is Some,
        ensures
            final(req_holder).wf(),
            final(req_holder)@ == (sat_group(fuel as nat, old(req_holder)@, Some(class_id), parent_id)->0).0,
    {
        let _res = satisfy_group(req_holder, Some(class_id), parent_id, fuel);
    }
}

} // verus!
