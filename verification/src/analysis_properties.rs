use vstd::prelude::*;
use crate::analysis_common::{modify_child, modify_parent};
use crate::planner::{
    cheapest, check_parent_and_answer, class_pass1, class_pass2, eval_children, eval_from, sat_class, sat_group, Kid,
};
use crate::prerequisites::{degree_requirement, prereqs_in_degree, selected_by_parent};
use crate::types::{ReqView, Status};

verus! {

/// `h` holds every requirement of `g`, each of the same kind and with the same
/// class.
pub open spec fn keeps_kinds(g: Map<i32, ReqView>, h: Map<i32, ReqView>) -> bool {
    forall|x: i32| #[trigger] g.contains_key(x) ==> h.contains_key(x) && h[x].pftype == g[x].pftype && h[x].class == g[x].class
}

/// The credits of the class of the requirement `id` of `g`, where it has one.
pub open spec fn class_credits_of(g: Map<i32, ReqView>, id: i32) -> Option<i32> {
    if g.contains_key(id) {
        match g[id].class {
            Some(c) => c.credits,
            None => None,
        }
    } else {
        None
    }
}

proof fn lemma_keeps_kinds_trans(g: Map<i32, ReqView>, m: Map<i32, ReqView>, h: Map<i32, ReqView>)
    requires
        keeps_kinds(g, m),
        keeps_kinds(m, h),
    ensures
        keeps_kinds(g, h),
{
    assert forall|x: i32| #[trigger] g.contains_key(x) implies h.contains_key(x) && h[x].pftype == g[x].pftype && h[x].class == g[x].class by {
        assert(m.contains_key(x));
    }
}

proof fn lemma_keeps_kinds_insert(g: Map<i32, ReqView>, id: i32, v: ReqView)
    requires
        g.contains_key(id),
        v.pftype == g[id].pftype,
        v.class == g[id].class,
    ensures
        keeps_kinds(g, g.insert(id, v)),
{
}

proof fn lemma_keeps_kinds_refl(g: Map<i32, ReqView>)
    ensures
        keeps_kinds(g, g),
{
}

proof fn lemma_modify_parent_kinds(g: Map<i32, ReqView>, st: Status, pid: i32, id: i32)
    requires
        modify_parent(g, st, pid, id) is Some,
    ensures
        keeps_kinds(g, modify_parent(g, st, pid, id).unwrap()),
{
}

proof fn lemma_modify_child_kinds(g: Map<i32, ReqView>, st: Status, pid: i32, id: i32)
    requires
        modify_child(g, st, pid, id) is Some,
    ensures
        keeps_kinds(g, modify_child(g, st, pid, id).unwrap()),
{
}

proof fn lemma_check_parent_kinds(g: Map<i32, ReqView>, id: i32, pid: i32, ok: (Option<i32>, Status))
    requires
        check_parent_and_answer(g, id, pid, ok) is Some,
    ensures
        keeps_kinds(g, check_parent_and_answer(g, id, pid, ok).unwrap().0),
{
}

/// The analysis of a group keeps every requirement, its kind and its class.
pub proof fn lemma_sat_group_kinds(fuel: nat, g: Map<i32, ReqView>, parent: Option<i32>, id: i32)
    requires
        sat_group(fuel, g, parent, id) is Some,
    ensures
        keeps_kinds(g, sat_group(fuel, g, parent, id).unwrap().0),
    decreases fuel, 0int, 0int,
{
    let f = (fuel - 1) as nat;
    lemma_eval_children_kinds(f, g, id);
    let (g1, kids) = eval_children(f, g, id).unwrap();
    let logic = g[id].logic_type->0;
    match parent {
        None => {
            let kids2 = crate::planner::select_valid(kids);
            lemma_keeps_kinds_insert(g1, id, ReqView { children: kids2, ..g1[id] });
            lemma_keeps_kinds_trans(g, g1, g1.insert(id, ReqView { children: kids2, ..g1[id] }));
        },
        Some(pid) => {
            if logic == "AND"@ {
                let kids2 = crate::planner::select_valid(kids);
                let ga = g1.insert(id, ReqView { children: kids2, ..g1[id] });
                lemma_keeps_kinds_insert(g1, id, ReqView { children: kids2, ..g1[id] });
                lemma_check_parent_kinds(ga, id, pid, (Some(crate::planner::cost_total(g1[id].children) as i32), Status::Checked));
                lemma_keeps_kinds_trans(g, g1, ga);
                lemma_keeps_kinds_trans(g, ga, sat_group(fuel, g, parent, id).unwrap().0);
            } else {
                let best = cheapest(kids, kids.len() as int);
                let kids2 = kids.update(best.0, (kids[best.0].0, Status::Selected, kids[best.0].2));
                let ga = g1.insert(id, ReqView { children: kids2, ..g1[id] });
                lemma_keeps_kinds_insert(g1, id, ReqView { children: kids2, ..g1[id] });
                lemma_check_parent_kinds(ga, id, pid, (Some(best.1), Status::Checked));
                lemma_keeps_kinds_trans(g, g1, ga);
                lemma_keeps_kinds_trans(g, ga, sat_group(fuel, g, parent, id).unwrap().0);
            }
        },
    }
}

/// The analysis of the children of a requirement keeps every requirement, its
/// kind and its class.
pub proof fn lemma_eval_children_kinds(fuel: nat, g: Map<i32, ReqView>, id: i32)
    requires
        eval_children(fuel, g, id) is Some,
    ensures
        keeps_kinds(g, eval_children(fuel, g, id).unwrap().0),
    decreases fuel, 3int, 0int,
{
    lemma_eval_from_kinds(fuel, g, id, g[id].children, 0, Seq::empty());
}

/// The analysis of the children `kids[k..]` keeps every requirement, its kind and
/// its class; each new child entry of a class analysed as checked costs the
/// credits of its class.
pub proof fn lemma_eval_from_kinds(fuel: nat, g: Map<i32, ReqView>, id: i32, kids: Seq<Kid>, k: int, acc: Seq<Kid>)
    requires
        eval_from(fuel, g, id, kids, k, acc) is Some,
    ensures
        keeps_kinds(g, eval_from(fuel, g, id, kids, k, acc).unwrap().0),
        ({
            let out = eval_from(fuel, g, id, kids, k, acc).unwrap().1;
            &&& acc.len() <= out.len()
            &&& forall|j: int| 0 <= j < acc.len() ==> out[j] == acc[j]
            &&& forall|j: int| acc.len() <= j < out.len() && (#[trigger] out[j]).1 == Status::Checked
                && g.contains_key(out[j].0) && g[out[j].0].pftype == "Class"@
                ==> out[j].2 == class_credits_of(g, out[j].0)
        }),
    decreases fuel, 2int, kids.len() - k,
{
    if k < 0 || k >= kids.len() {
        lemma_keeps_kinds_refl(g);
    } else {
        let cid = kids[k].0;
        let answer = if g[cid].pftype == "Group"@ {
            sat_group(fuel, g, Some(id), cid)
        } else {
            sat_class(fuel, g, id, cid)
        };
        if g[cid].pftype == "Group"@ {
            lemma_sat_group_kinds(fuel, g, Some(id), cid);
        } else {
            lemma_sat_class_kinds(fuel, g, id, cid);
        }
        let (g1, out1) = answer.unwrap();
        let (cost, st) = out1->Ok_0;
        let acc1 = acc.push((cid, st, cost));
        lemma_eval_from_kinds(fuel, g1, id, kids, k + 1, acc1);
        let out = eval_from(fuel, g, id, kids, k, acc).unwrap().1;
        lemma_keeps_kinds_trans(g, g1, eval_from(fuel, g1, id, kids, k + 1, acc1).unwrap().0);
        assert forall|j: int| acc.len() <= j < out.len() && (#[trigger] out[j]).1 == Status::Checked
            && g.contains_key(out[j].0) && g[out[j].0].pftype == "Class"@
            implies out[j].2 == class_credits_of(g, out[j].0) by {
            if j == acc.len() {
                assert(out[j] == acc1[j]);
                assert(g[cid].pftype == "Class"@);
                reveal_strlit("Group");
                reveal_strlit("Class");
                assert("Group"@ != "Class"@) by {
                    assert("Group"@[0] != "Class"@[0]);
                }
                assert(answer == sat_class(fuel, g, id, cid));
            } else {
                assert(g1.contains_key(out[j].0));
                assert(class_credits_of(g1, out[j].0) == class_credits_of(g, out[j].0));
            }
        }
        assert forall|j: int| 0 <= j < acc.len() implies out[j] == acc[j] by {
            assert(out[j] == acc1[j]);
        }
    }
}

/// The analysis of a class keeps every requirement, its kind and its class; where
/// it answers a checked status, its cost is the credits of its class.
pub proof fn lemma_sat_class_kinds(fuel: nat, g: Map<i32, ReqView>, pid: i32, id: i32)
    requires
        sat_class(fuel, g, pid, id) is Some,
    ensures
        keeps_kinds(g, sat_class(fuel, g, pid, id).unwrap().0),
        sat_class(fuel, g, pid, id).unwrap().1 matches Ok((cost, Status::Checked)) ==> cost == class_credits_of(g, id),
    decreases fuel, 0int, 0int,
{
    let f = (fuel - 1) as nat;
    let g1 = g.insert(id, ReqView { in_analysis: true, ..g[id] });
    lemma_keeps_kinds_insert(g, id, ReqView { in_analysis: true, ..g[id] });
    lemma_class_pass1_kinds(f, g1, id, pid, g[id].parents, 0);
    let g2 = class_pass1(f, g1, id, pid, g[id].parents, 0).unwrap();
    lemma_keeps_kinds_trans(g, g1, g2);
    lemma_class_pass2_kinds(g2, id, pid, g2[id].parents, 0);
    let (g3, r3) = class_pass2(g2, id, pid, g2[id].parents, 0).unwrap();
    lemma_keeps_kinds_trans(g, g2, g3);
    if r3 is Ok {
        match g[id].logic_type {
            None => {
                lemma_modify_parent_kinds(g3, Status::Checked, pid, id);
                let g4 = modify_parent(g3, Status::Checked, pid, id).unwrap();
                lemma_keeps_kinds_trans(g, g3, g4);
            },
            Some(l) => {
                lemma_eval_children_kinds(f, g3, id);
                let (g5, kids) = eval_children(f, g3, id).unwrap();
                lemma_keeps_kinds_trans(g, g3, g5);
                let g6 = g5.insert(id, ReqView { children: kids, ..g5[id] });
                lemma_keeps_kinds_insert(g5, id, ReqView { children: kids, ..g5[id] });
                lemma_keeps_kinds_trans(g, g5, g6);
                if l == "AND"@ {
                    lemma_modify_parent_kinds(g6, Status::Checked, pid, id);
                    let g7 = modify_parent(g6, Status::Checked, pid, id).unwrap();
                    lemma_keeps_kinds_trans(g, g6, g7);
                }
            },
        }
    }
}

proof fn lemma_class_pass1_kinds(fuel: nat, g: Map<i32, ReqView>, id: i32, pid: i32, ps: Seq<(i32, Status)>, k: int)
    requires
        class_pass1(fuel, g, id, pid, ps, k) is Some,
    ensures
        keeps_kinds(g, class_pass1(fuel, g, id, pid, ps, k).unwrap()),
    decreases fuel, 1int, ps.len() - k,
{
    if k < 0 || k >= ps.len() {
        lemma_keeps_kinds_refl(g);
    } else {
        let (p, pst) = ps[k];
        if p == pid || g[p].pftype != "Group"@ || pst != Status::Unchecked {
            lemma_class_pass1_kinds(fuel, g, id, pid, ps, k + 1);
        } else {
            lemma_sat_group_kinds(fuel, g, Some(id), p);
            let g1 = sat_group(fuel, g, Some(id), p).unwrap().0;
            lemma_class_pass1_kinds(fuel, g1, id, pid, ps, k + 1);
            lemma_keeps_kinds_trans(g, g1, class_pass1(fuel, g1, id, pid, ps, k + 1).unwrap());
        }
    }
}

proof fn lemma_class_pass2_kinds(g: Map<i32, ReqView>, id: i32, pid: i32, ps: Seq<(i32, Status)>, k: int)
    requires
        class_pass2(g, id, pid, ps, k) is Some,
    ensures
        keeps_kinds(g, class_pass2(g, id, pid, ps, k).unwrap().0),
    decreases ps.len() - k,
{
    if k < 0 || k >= ps.len() {
        lemma_keeps_kinds_refl(g);
    } else {
        let (p, pst) = ps[k];
        if p == pid || g[p].pftype != "Group"@ {
            lemma_class_pass2_kinds(g, id, pid, ps, k + 1);
        } else if pst == Status::Checked {
            lemma_modify_parent_kinds(g, Status::Desirable, p, id);
            let g1 = modify_parent(g, Status::Desirable, p, id).unwrap();
            lemma_modify_child_kinds(g1, Status::Desirable, id, p);
            let g2 = modify_child(g1, Status::Desirable, id, p).unwrap();
            lemma_class_pass2_kinds(g2, id, pid, ps, k + 1);
            lemma_keeps_kinds_trans(g, g1, g2);
            lemma_keeps_kinds_trans(g, g2, class_pass2(g2, id, pid, ps, k + 1).unwrap().0);
        } else {
            lemma_keeps_kinds_refl(g);
        }
    }
}

/// A class analysed as checked (one without logic, or with AND logic over its
/// prerequisites) costs the credits of its class: the cost it answers is those
/// credits, whatever its analysis visits.
pub proof fn law_checked_class_costs_its_credits(fuel: nat, g: Map<i32, ReqView>, pid: i32, id: i32)
    requires
        sat_class(fuel, g, pid, id) matches Some((_, Ok((_, Status::Checked)))),
    ensures
        sat_class(fuel, g, pid, id).unwrap().1 == Ok::<(Option<i32>, Status), crate::types::ScheduleError>((class_credits_of(g, id), Status::Checked)),
        class_credits_of(g, id) is Some,
{
    lemma_sat_class_kinds(fuel, g, pid, id);
}

/// An OR group selects a child of least cost, and each child class analysed as
/// checked costs the credits of its class: no checked child class has fewer
/// credits than the selected child costs, so among classes the group takes the
/// one of fewest credits.
pub proof fn law_or_group_selects_class_of_fewest_credits(fuel: nat, g: Map<i32, ReqView>, pid: i32, id: i32)
    requires
        sat_group(fuel, g, Some(pid), id) matches Some((_, Ok(_))),
        g.contains_key(id),
        g[id].logic_type == Some("OR"@),
        eval_children((fuel - 1) as nat, g, id).unwrap().1.len() <= usize::MAX,
    ensures
        ({
            let kids = eval_children((fuel - 1) as nat, g, id).unwrap().1;
            let s = cheapest(kids, kids.len() as int).0;
            let out = sat_group(fuel, g, Some(pid), id).unwrap().0;
            &&& 0 <= s < kids.len()
            &&& out[id].children[s] == (kids[s].0, Status::Selected, kids[s].2)
            &&& forall|j: int| 0 <= j < kids.len() && (#[trigger] kids[j]).1 == Status::Checked
                && g.contains_key(kids[j].0) && g[kids[j].0].pftype == "Class"@
                ==> kids[j].2 == class_credits_of(g, kids[j].0)
                    && (class_credits_of(g, kids[j].0) matches Some(c) ==> kids[s].2->0 <= c)
        }),
{
    crate::properties::law_or_group_selects_cheapest(fuel, g, pid, id);
    lemma_eval_from_kinds((fuel - 1) as nat, g, id, g[id].children, 0, Seq::empty());
    let kids = eval_children((fuel - 1) as nat, g, id).unwrap().1;
    crate::properties::law_cheapest_is_minimal(kids, kids.len() as int);
}

/// A selected class with AND logic needs every one of its prerequisites among the
/// requirements of the degree: a single prerequisite that is no requirement makes
/// the degree fail the prerequisite check (and `build_schedule` answer the
/// prerequisite error), whatever its other prerequisites are.
pub proof fn law_and_class_needs_every_prerequisite(g: Map<i32, ReqView>, c: i32, j: int)
    requires
        g.contains_key(c),
        g[c].pftype == "Class"@,
        selected_by_parent(g[c].parents),
        g[c].logic_type matches Some(l) && l != "OR"@,
        0 <= j < g[c].children.len(),
        !degree_requirement(g, g[c].children[j].0),
    ensures
        !prereqs_in_degree(g),
{
    assert(!crate::prerequisites::prereqs_met(g, c));
}

} // verus!
