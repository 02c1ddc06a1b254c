use vstd::prelude::*;
use crate::analysis_common::modify_parent;
use crate::planner::Kid;
use crate::queue_planner::{finish, queue_children, queue_visit, req_walk, sat_req, settle, with_status, Walk};
use crate::types::{ReqView, Status};

verus! {

/// `b` is `a`, or is reached from `a` within `n` steps down child entries whose
/// status is selected.
pub open spec fn reaches_selected(g: Map<i32, ReqView>, a: i32, b: i32, n: nat) -> bool
    decreases n,
{
    a == b || (n > 0 && g.contains_key(a) && exists|j: int|
        0 <= j < g[a].children.len() && (#[trigger] g[a].children[j]).1 == Status::Selected
            && reaches_selected(g, g[a].children[j].0, b, (n - 1) as nat))
}

/// The queue built from `id` keeps the queue it started from and adds only `id`
/// and requirements reached from it through selected child entries.
pub proof fn law_queue_follows_selected_children(fuel: nat, g: Map<i32, ReqView>, id: i32, q: Seq<(i32, i32)>)
    requires
        queue_visit(fuel, g, id, q) is Some,
    ensures
        ({
            let q2 = queue_visit(fuel, g, id, q).unwrap().0;
            &&& q.len() <= q2.len()
            &&& forall|i: int| 0 <= i < q.len() ==> q2[i] == q[i]
            &&& forall|i: int| q.len() <= i < q2.len() ==> reaches_selected(g, id, (#[trigger] q2[i]).0, fuel)
        }),
    decreases fuel, 0int, 0int,
{
    if fuel > 0 && !crate::queue_planner::queued(q, id) && g.contains_key(id) {
        let f = (fuel - 1) as nat;
        let kids = g[id].children;
        lemma_queue_children_follow(f, g, kids, 0, q);
        let q2 = queue_children(f, g, kids, 0, q).unwrap();
        let out = queue_visit(fuel, g, id, q).unwrap().0;
        assert forall|i: int| q.len() <= i < out.len() implies reaches_selected(g, id, (#[trigger] out[i]).0, fuel) by {
            if i < q2.len() {
                assert(out[i] == q2[i]);
                assert(via_selected_child(g, kids, 0, q2[i].0, f));
                let j = choose|j: int| 0 <= j < kids.len() && (#[trigger] kids[j]).1 == Status::Selected
                    && reaches_selected(g, kids[j].0, q2[i].0, f);
                assert(g[id].children[j].1 == Status::Selected && reaches_selected(g, g[id].children[j].0, out[i].0, (fuel - 1) as nat));
            } else {
                assert(out[i].0 == id);
            }
        }
        assert forall|i: int| 0 <= i < q.len() implies out[i] == q[i] by {
            assert(out[i] == q2[i]);
        }
    }
}

/// Some child entry of `kids[k..]` whose status is selected leads to `b` within
/// `n` steps.
pub open spec fn via_selected_child(g: Map<i32, ReqView>, kids: Seq<Kid>, k: int, b: i32, n: nat) -> bool {
    exists|j: int| k <= j < kids.len() && (#[trigger] kids[j]).1 == Status::Selected && reaches_selected(g, kids[j].0, b, n)
}

/// Visiting the children `kids[k..]` keeps the queue and adds only requirements
/// reached through a child entry among them whose status is selected.
proof fn lemma_queue_children_follow(fuel: nat, g: Map<i32, ReqView>, kids: Seq<Kid>, k: int, q: Seq<(i32, i32)>)
    requires
        queue_children(fuel, g, kids, k, q) is Some,
    ensures
        ({
            let q2 = queue_children(fuel, g, kids, k, q).unwrap();
            &&& q.len() <= q2.len()
            &&& forall|i: int| 0 <= i < q.len() ==> q2[i] == q[i]
            &&& forall|i: int| q.len() <= i < q2.len() ==> via_selected_child(g, kids, k, (#[trigger] q2[i]).0, fuel)
        }),
    decreases fuel, 1int, kids.len() - k,
{
    if 0 <= k < kids.len() {
        let q2 = queue_children(fuel, g, kids, k, q).unwrap();
        if kids[k].1 == Status::Selected {
            law_queue_follows_selected_children(fuel, g, kids[k].0, q);
            let q1 = queue_visit(fuel, g, kids[k].0, q).unwrap().0;
            lemma_queue_children_follow(fuel, g, kids, k + 1, q1);
            assert(q2 == queue_children(fuel, g, kids, k + 1, q1).unwrap());
            assert forall|i: int| q.len() <= i < q2.len() implies via_selected_child(g, kids, k, (#[trigger] q2[i]).0, fuel) by {
                if i < q1.len() {
                    assert(q2[i] == q1[i]);
                    assert(reaches_selected(g, kids[k].0, q1[i].0, fuel));
                    assert(kids[k].1 == Status::Selected);
                } else {
                    assert(via_selected_child(g, kids, k + 1, q2[i].0, fuel));
                    let j = choose|j: int| k + 1 <= j < kids.len() && (#[trigger] kids[j]).1 == Status::Selected
                        && reaches_selected(g, kids[j].0, q2[i].0, fuel);
                    assert(kids[j].1 == Status::Selected);
                }
            }
            assert forall|i: int| 0 <= i < q.len() implies q2[i] == q[i] by {
                assert(q2[i] == q1[i]);
            }
        } else {
            lemma_queue_children_follow(fuel, g, kids, k + 1, q);
            assert(q2 == queue_children(fuel, g, kids, k + 1, q).unwrap());
            assert forall|i: int| q.len() <= i < q2.len() implies via_selected_child(g, kids, k, (#[trigger] q2[i]).0, fuel) by {
                assert(via_selected_child(g, kids, k + 1, q2[i].0, fuel));
                let j = choose|j: int| k + 1 <= j < kids.len() && (#[trigger] kids[j]).1 == Status::Selected
                    && reaches_selected(g, kids[j].0, q2[i].0, fuel);
                assert(kids[j].1 == Status::Selected);
            }
        }
    }
}

/// The answers of the satisfactions of the children `kids[k..]` of the OR group
/// `id`, each child satisfied as optional in turn, on the graph its predecessors
/// left; it stops where a satisfaction does not answer a number.
pub open spec fn or_child_results(fuel: nat, g: Map<i32, ReqView>, id: i32, kids: Seq<Kid>, k: int) -> Seq<i32>
    decreases kids.len() - k,
{
    if k < 0 || k >= kids.len() || !g.contains_key(kids[k].0) {
        Seq::empty()
    } else {
        let cid = kids[k].0;
        match sat_req(fuel, g, cid, g[cid].logic_type, false) {
            Some((g1, Ok(res))) => match modify_parent(g1, Status::Checked, id, cid) {
                Some(g2) => seq![res] + or_child_results(fuel, g2, id, kids, k + 1),
                None => Seq::empty(),
            },
            _ => Seq::empty(),
        }
    }
}

/// The walk of an OR group over its children `kids[k..]` checks each of them, and
/// the cheapest it keeps is the first child of least answer, where that answer is
/// below the one it started from; otherwise it keeps the one it started from.
pub proof fn law_or_walk_keeps_first_cheapest(
    fuel: nat,
    g: Map<i32, ReqView>,
    id: i32,
    required: bool,
    kids: Seq<Kid>,
    k: int,
    w: Walk,
)
    requires
        0 <= k <= kids.len(),
        req_walk(fuel, g, id, Some("GroupOR"@), required, kids, k, w) matches Some((_, Ok(_))),
    ensures
        ({
            let w2 = req_walk(fuel, g, id, Some("GroupOR"@), required, kids, k, w).unwrap().1->Ok_0;
            let rs = or_child_results(fuel, g, id, kids, k);
            &&& rs.len() == kids.len() - k
            &&& w2.kids.len() == kids.len()
            &&& forall|j: int| 0 <= j < k ==> w2.kids[j] == w.kids[j]
            &&& forall|j: int| k <= j < kids.len() ==> w2.kids[j] == (w.kids[j].0, Status::Checked, w.kids[j].2)
            &&& forall|t: int| 0 <= t < rs.len() ==> w2.best.1 <= rs[t]
            &&& w2.best.1 <= w.best.1
            &&& (w2.best == w.best || {
                &&& k <= w2.best.0 < kids.len()
                &&& rs[w2.best.0 - k] == w2.best.1
                &&& w2.best.1 < w.best.1
                &&& forall|t: int| 0 <= t < w2.best.0 - k ==> w2.best.1 < rs[t]
            })
        }),
    decreases kids.len() - k,
{
    reveal_strlit("GroupOR");
    reveal_strlit("GroupAND");
    reveal_strlit("PrereqAND");
    assert("GroupOR"@ != "GroupAND"@) by {
        assert("GroupOR"@[5] != "GroupAND"@[5]);
    }
    if k < kids.len() {
        let cid = kids[k].0;
        let (g1, r1) = sat_req(fuel, g, cid, g[cid].logic_type, false).unwrap();
        let res = r1->Ok_0;
        let g2 = modify_parent(g1, Status::Checked, id, cid).unwrap();
        let w1 = Walk {
            kids: with_status(w.kids, k, Status::Checked),
            best: if res < w.best.1 { (k, res) } else { w.best },
            ..w
        };
        law_or_walk_keeps_first_cheapest(fuel, g2, id, required, kids, k + 1, w1);
        let rs = or_child_results(fuel, g, id, kids, k);
        let rs1 = or_child_results(fuel, g2, id, kids, k + 1);
        assert(rs == seq![res] + rs1);
        let w2 = req_walk(fuel, g, id, Some("GroupOR"@), required, kids, k, w).unwrap().1->Ok_0;
        assert(w2 == req_walk(fuel, g2, id, Some("GroupOR"@), required, kids, k + 1, w1).unwrap().1->Ok_0);
        assert forall|t: int| 0 <= t < rs.len() implies w2.best.1 <= rs[t] by {
            if t > 0 {
                assert(rs[t] == rs1[t - 1]);
            }
        }
        if w2.best != w.best {
            if w2.best == w1.best {
                assert(res < w.best.1);
            } else {
                assert forall|t: int| 0 <= t < w2.best.0 - k implies w2.best.1 < rs[t] by {
                    if t > 0 {
                        assert(rs[t] == rs1[t - 1]);
                    }
                }
                assert(rs[w2.best.0 - k] == rs1[w2.best.0 - (k + 1)]);
            }
        }
    } else {
        assert(or_child_results(fuel, g, id, kids, k) =~= Seq::<i32>::empty());
    }
}

/// A GroupOR requirement that is satisfied selects exactly one of its children,
/// the first whose satisfaction answers least; every other child is left checked.
pub proof fn law_or_requirement_selects_first_cheapest(fuel: nat, g: Map<i32, ReqView>, id: i32, required: bool)
    requires
        sat_req(fuel, g, id, Some("GroupOR"@), required) matches Some((_, Ok(_))),
        g.contains_key(id),
        g[id].children.len() <= usize::MAX,
    ensures
        ({
            let kids = g[id].children;
            let g1 = g.insert(id, ReqView { in_analysis: true, ..g[id] });
            let rs = or_child_results((fuel - 1) as nat, g1, id, kids, 0);
            let out = sat_req(fuel, g, id, Some("GroupOR"@), required).unwrap().0;
            &&& rs.len() == kids.len()
            &&& out.contains_key(id)
            &&& out[id].children.len() == kids.len()
            &&& exists|s: int| {
                &&& 0 <= s < kids.len()
                &&& out[id].children[s] == (kids[s].0, Status::Selected, kids[s].2)
                &&& (forall|j: int| 0 <= j < kids.len() && j != s ==> out[id].children[j] == (kids[j].0, Status::Checked, kids[j].2))
                &&& (forall|t: int| 0 <= t < kids.len() ==> rs[s] <= rs[t])
                &&& (forall|t: int| 0 <= t < s ==> rs[s] < rs[t])
            }
        }),
{
    reveal_strlit("GroupOR");
    reveal_strlit("GroupAND");
    reveal_strlit("PrereqOR");
    assert("GroupOR"@ != "GroupAND"@) by {
        assert("GroupOR"@[5] != "GroupAND"@[5]);
    }
    assert("GroupOR"@ != "PrereqOR"@) by {
        assert("GroupOR"@[0] != "PrereqOR"@[0]);
    }
    let kids = g[id].children;
    let g1 = g.insert(id, ReqView { in_analysis: true, ..g[id] });
    let start = Walk { kids, best: (usize::MAX as int, i32::MAX), can_associate: true };
    let f = (fuel - 1) as nat;
    law_or_walk_keeps_first_cheapest(f, g1, id, required, kids, 0, start);
    let (g2, r2) = req_walk(f, g1, id, Some("GroupOR"@), required, kids, 0, start).unwrap();
    let w2 = r2->Ok_0;
    let rs = or_child_results(f, g1, id, kids, 0);
    let s = w2.best.0;
    assert(0 <= s < kids.len());
    let out = sat_req(fuel, g, id, Some("GroupOR"@), required).unwrap().0;
    let g3 = modify_parent(g2, Status::Selected, id, g2[id].children[s].0).unwrap();
    assert(out == finish(g3, id, with_status(w2.kids, s, Status::Selected)).unwrap().0);
    assert(out[id].children == with_status(w2.kids, s, Status::Selected));
    assert(out[id].children[s] == (kids[s].0, Status::Selected, kids[s].2));
}

} // verus!
