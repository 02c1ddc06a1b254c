use vstd::prelude::*;
use crate::req_holder::ReqHolder;
use crate::types::{ReqView, Status};

verus! {

/// `b` is a child of the group `a` in the graph `g`.
pub open spec fn group_edge(g: Map<i32, ReqView>, a: i32, b: i32) -> bool {
    &&& g.contains_key(a)
    &&& g.contains_key(b)
    &&& g[a].pftype == "Group"@
    &&& exists|j: int| 0 <= j < g[a].children.len() && (#[trigger] g[a].children[j]).0 == b
}

/// `p` leads from the degree root `-1` down through groups only.
pub open spec fn group_path(g: Map<i32, ReqView>, p: Seq<i32>) -> bool {
    &&& p.len() > 0
    &&& p[0] == -1i32
    &&& g.contains_key(-1i32)
    &&& forall|i: int| 0 <= i < p.len() - 1 ==> #[trigger] group_edge(g, p[i], p[i + 1])
}

/// `id` is a requirement of the degree: it is reached from the degree root through
/// groups only, not as the prerequisite of a class.
pub open spec fn degree_requirement(g: Map<i32, ReqView>, id: i32) -> bool {
    exists|p: Seq<i32>| #[trigger] group_path(g, p) && p.last() == id
}

/// One of the parents has selected this requirement.
pub open spec fn selected_by_parent(parents: Seq<(i32, Status)>) -> bool {
    exists|j: int| 0 <= j < parents.len() && (#[trigger] parents[j]).1 == Status::Selected
}

/// The prerequisites of the class `c` are met within the degree: all of them for
/// an AND class, one of them (where it has any) for an OR class, none for a class
/// without logic.
pub open spec fn prereqs_met(g: Map<i32, ReqView>, c: i32) -> bool {
    let kids = g[c].children;
    match g[c].logic_type {
        None => true,
        Some(l) => if l == "OR"@ {
            kids.len() == 0 || exists|j: int| 0 <= j < kids.len() && degree_requirement(g, (#[trigger] kids[j]).0)
        } else {
            forall|j: int| 0 <= j < kids.len() ==> degree_requirement(g, (#[trigger] kids[j]).0)
        },
    }
}

/// Every selected class of the analysed graph has its prerequisites among the
/// requirements of the degree.
pub open spec fn prereqs_in_degree(g: Map<i32, ReqView>) -> bool {
    forall|c: i32| #[trigger] g.contains_key(c) && g[c].pftype == "Class"@ && selected_by_parent(g[c].parents)
        ==> prereqs_met(g, c)
}

fn contains_id(v: &Vec<i32>, x: i32) -> (b: bool)
    ensures
        b == v@.contains(x),
{
    let mut i: usize = 0;
    while i < v.len()
        invariant
            0 <= i <= v@.len(),
            forall|j: int| 0 <= j < i ==> v@[j] != x,
        decreases v@.len() - i,
    {
        if v[i] == x {
            assert(v@[i as int] == x);
            return true;
        }
        i = i + 1;
    }
    false
}

/// Every group path stays within a set that holds the root and is closed under
/// group edges.
proof fn lemma_path_in_closed(g: Map<i32, ReqView>, s: Seq<i32>, p: Seq<i32>, i: int)
    requires
        group_path(g, p),
        0 <= i < p.len(),
        s.contains(-1i32),
        forall|x: i32, y: i32| s.contains(x) && #[trigger] group_edge(g, x, y) ==> s.contains(y),
    ensures
        s.contains(p[i]),
    decreases i,
{
    if i > 0 {
        lemma_path_in_closed(g, s, p, i - 1);
        let j = i - 1;
        assert(group_edge(g, p[j], p[j + 1]));
    }
}

/// The ids reached from the degree root through groups only.
fn degree_requirements(h: &ReqHolder) -> (v: Vec<i32>)
    requires
        h.wf(),
    ensures
        forall|x: i32| v@.contains(x) <==> degree_requirement(h@, x),
{
    let ghost g = h@;
    proof {
        h.lemma_finite();
    }
    let mut seen: Vec<i32> = Vec::new();
    if h.get_req(-1).is_some() {
        seen.push(-1);
        assert(group_path(g, seq![-1i32]));
    }
    let mut i: usize = 0;
    while i < seen.len()
        invariant
            g == h@,
            g.dom().finite(),
            0 <= i <= seen@.len(),
            seen@.no_duplicates(),
            forall|k: int| 0 <= k < seen@.len() ==> g.contains_key(#[trigger] seen@[k]) && degree_requirement(g, seen@[k]),
            g.contains_key(-1i32) ==> seen@.contains(-1i32),
            forall|a: int, y: i32| 0 <= a < i && #[trigger] group_edge(g, seen@[a], y) ==> seen@.contains(y),
        decreases g.dom().len() - i,
    {
        proof {
            assert forall|y: i32| #[trigger] seen@.to_set().contains(y) implies g.dom().contains(y) by {
                assert(seen@.contains(y));
                let k = choose|k: int| 0 <= k < seen@.len() && seen@[k] == y;
                assert(g.contains_key(seen@[k]));
            }
            seen@.unique_seq_to_set();
            vstd::set_lib::lemma_len_subset(seen@.to_set(), g.dom());
        }
        let x = seen[i];
        let ghost seen0 = seen@;
        assert(g.contains_key(seen@[i as int]));
        let req = h.get_req(x).unwrap();
        if req.pftype == "Group".to_owned() {
            let n = req.children.len();
            let mut k: usize = 0;
            while k < n
                invariant
                    g == h@,
                    x == seen0[i as int],
                    i < seen0.len(),
                    g.contains_key(x),
                    req@ == g[x],
                    g[x].pftype == "Group"@,
                    n == g[x].children.len(),
                    0 <= k <= n,
                    degree_requirement(g, x),
                    seen@.no_duplicates(),
                    seen@.len() >= seen0.len(),
                    forall|j: int| 0 <= j < seen0.len() ==> #[trigger] seen@[j] == seen0[j],
                    forall|j: int| 0 <= j < seen@.len() ==> g.contains_key(#[trigger] seen@[j]) && degree_requirement(g, seen@[j]),
                    forall|j: int| 0 <= j < k ==> seen@.contains(#[trigger] g[x].children[j].0) || !g.contains_key(g[x].children[j].0),
                decreases n - k,
            {
                let c = req.children[k].0;
                if h.get_req(c).is_some() && !contains_id(&seen, c) {
                    proof {
                        let p = choose|p: Seq<i32>| #[trigger] group_path(g, p) && p.last() == x;
                        let q = p.push(c);
                        assert(g[x].children[k as int].0 == c);
                        assert(group_edge(g, x, c));
                        assert forall|t: int| 0 <= t < q.len() - 1 implies #[trigger] group_edge(g, q[t], q[t + 1]) by {
                            if t < p.len() - 1 {
                                assert(q[t] == p[t] && q[t + 1] == p[t + 1]);
                            } else {
                                assert(q[t] == x && q[t + 1] == c);
                            }
                        }
                        assert(group_path(g, q));
                        assert(q.last() == c);
                    }
                    let ghost s1 = seen@;
                    seen.push(c);
                    proof {
                        assert forall|t: int| 0 <= t < seen@.len() implies g.contains_key(#[trigger] seen@[t]) && degree_requirement(g, seen@[t]) by {
                            if t < s1.len() {
                                assert(seen@[t] == s1[t]);
                            }
                        }
                        assert forall|j: int| 0 <= j < k implies seen@.contains(#[trigger] g[x].children[j].0) || !g.contains_key(g[x].children[j].0) by {
                            if s1.contains(g[x].children[j].0) {
                                let t = choose|t: int| 0 <= t < s1.len() && s1[t] == g[x].children[j].0;
                                assert(seen@[t] == s1[t]);
                            }
                        }
                        assert(seen@[seen@.len() - 1] == c);
                    }
                }
                k = k + 1;
            }
            proof {
                assert forall|y: i32| #[trigger] group_edge(g, x, y) implies seen@.contains(y) by {
                    let j = choose|j: int| 0 <= j < g[x].children.len() && (#[trigger] g[x].children[j]).0 == y;
                }
            }
        }
        proof {
            assert forall|a: int, y: i32| 0 <= a < i + 1 && #[trigger] group_edge(g, seen@[a], y) implies seen@.contains(y) by {
                assert(seen@[a] == seen0[a]);
                if a < i {
                    assert(group_edge(g, seen0[a], y));
                    assert(seen0.contains(y));
                    let t = choose|t: int| 0 <= t < seen0.len() && seen0[t] == y;
                    assert(seen@[t] == seen0[t]);
                } else if g[x].pftype != "Group"@ {
                    assert(!group_edge(g, x, y));
                }
            }
            if g.contains_key(-1i32) {
                assert(seen0.contains(-1i32));
                let t = choose|t: int| 0 <= t < seen0.len() && seen0[t] == -1i32;
                assert(seen@[t] == seen0[t]);
            }
        }
        i = i + 1;
    }
    proof {
        assert forall|a: i32, y: i32| seen@.contains(a) && #[trigger] group_edge(g, a, y) implies seen@.contains(y) by {
            let t = choose|t: int| 0 <= t < seen@.len() && seen@[t] == a;
            assert(group_edge(g, seen@[t], y));
        }
        assert forall|x: i32| degree_requirement(g, x) implies seen@.contains(x) by {
            let p = choose|p: Seq<i32>| #[trigger] group_path(g, p) && p.last() == x;
            lemma_path_in_closed(g, seen@, p, p.len() - 1);
        }
        assert forall|x: i32| seen@.contains(x) implies degree_requirement(g, x) by {
            let t = choose|t: int| 0 <= t < seen@.len() && seen@[t] == x;
            assert(degree_requirement(g, seen@[t]));
        }
    }
    seen
}

/// Whether the prerequisites of the class `c` are met within the degree, whose
/// requirements are `reqs`.
fn prereqs_met_exec(h: &ReqHolder, c: i32, reqs: &Vec<i32>) -> (b: bool)
    requires
        h@.contains_key(c),
        forall|x: i32| reqs@.contains(x) <==> degree_requirement(h@, x),
    ensures
        b == prereqs_met(h@, c),
{
    let req = h.get_req(c).unwrap();
    let ghost kids = h@[c].children;
    match &req.logic_type {
        None => true,
        Some(l) => {
            let n = req.children.len();
            assert(h@[c].logic_type == Some(l@));
            let is_or = *l == "OR".to_owned();
            assert(is_or == (l@ == "OR"@));
            if is_or {
                if n == 0 {
                    return true;
                }
                let mut k: usize = 0;
                while k < n
                    invariant
                        req@ == h@[c],
                        n == kids.len(),
                        kids == h@[c].children,
                        forall|x: i32| reqs@.contains(x) <==> degree_requirement(h@, x),
                        0 <= k <= n,
                        forall|j: int| 0 <= j < k ==> !degree_requirement(h@, (#[trigger] kids[j]).0),
                        h@[c].logic_type == Some(l@),
                        l@ == "OR"@,
                        n > 0,
                    decreases n - k,
                {
                    if contains_id(reqs, req.children[k].0) {
                        assert(degree_requirement(h@, kids[k as int].0));
                        assert(exists|j: int| 0 <= j < kids.len() && degree_requirement(h@, (#[trigger] kids[j]).0));
                        return true;
                    }
                    k = k + 1;
                }
                false
            } else {
                let mut k: usize = 0;
                while k < n
                    invariant
                        req@ == h@[c],
                        n == kids.len(),
                        kids == h@[c].children,
                        forall|x: i32| reqs@.contains(x) <==> degree_requirement(h@, x),
                        0 <= k <= n,
                        forall|j: int| 0 <= j < k ==> degree_requirement(h@, (#[trigger] kids[j]).0),
                        h@[c].logic_type == Some(l@),
                        l@ != "OR"@,
                    decreases n - k,
                {
                    if !contains_id(reqs, req.children[k].0) {
                        assert(!degree_requirement(h@, kids[k as int].0));
                        assert(!(forall|j: int| 0 <= j < kids.len() ==> degree_requirement(h@, (#[trigger] kids[j]).0)));
                        return false;
                    }
                    k = k + 1;
                }
                true
            }
        },
    }
}

/// Whether some parent entry is `Selected`.
fn selected_exec(parents: &Vec<(i32, Status)>) -> (b: bool)
    ensures
        b == selected_by_parent(parents@),
{
    let mut k: usize = 0;
    while k < parents.len()
        invariant
            0 <= k <= parents@.len(),
            forall|j: int| 0 <= j < k ==> (#[trigger] parents@[j]).1 != Status::Selected,
        decreases parents@.len() - k,
    {
        if parents[k].1 == Status::Selected {
            assert(parents@[k as int].1 == Status::Selected);
            return true;
        }
        k = k + 1;
    }
    false
}

/// Whether every selected class of the graph has its prerequisites among the
/// requirements of the degree.
pub fn check_prereqs(h: &ReqHolder) -> (b: bool)
    requires
        h.wf(),
    ensures
        b == prereqs_in_degree(h@),
{
    let reqs = degree_requirements(h);
    let ids = h.ids();
    let n = ids.len();
    let mut i: usize = 0;
    while i < n
        invariant
            n == ids@.len(),
            forall|k: i32| ids@.contains(k) <==> h@.contains_key(k),
            forall|x: i32| reqs@.contains(x) <==> degree_requirement(h@, x),
            0 <= i <= n,
            forall|j: int| 0 <= j < i ==> {
                let c = #[trigger] ids@[j];
                h@[c].pftype == "Class"@ && selected_by_parent(h@[c].parents) ==> prereqs_met(h@, c)
            },
        decreases n - i,
    {
        let c = ids[i];
        assert(ids@.contains(c));
        let req = h.get_req(c).unwrap();
        if req.pftype == "Class".to_owned() && selected_exec(&req.parents) && !prereqs_met_exec(h, c, &reqs) {
            return false;
        }
        i = i + 1;
    }
    proof {
        assert forall|c: i32| #[trigger] h@.contains_key(c) && h@[c].pftype == "Class"@ && selected_by_parent(h@[c].parents)
            implies prereqs_met(h@, c) by {
            assert(ids@.contains(c));
            let j = choose|j: int| 0 <= j < ids@.len() && ids@[j] == c;
        }
    }
    true
}

} // verus!
