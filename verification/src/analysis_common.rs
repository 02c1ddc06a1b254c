use vstd::prelude::*;
use crate::req_holder::ReqHolder;
use crate::types::{ReqView, Status};

verus! {

/// The parents with the first entry for `pid` given status `st`.
pub open spec fn set_first_parent(ps: Seq<(i32, Status)>, pid: i32, st: Status) -> Seq<(i32, Status)>
    decreases ps.len(),
{
    if ps.len() == 0 {
        ps
    } else if ps[0].0 == pid {
        ps.update(0, (pid, st))
    } else {
        seq![ps[0]] + set_first_parent(ps.drop_first(), pid, st)
    }
}

/// The children with the first entry for `cid` given status `st` (its cost kept).
pub open spec fn set_first_child(
    cs: Seq<(i32, Status, Option<i32>)>,
    cid: i32,
    st: Status,
) -> Seq<(i32, Status, Option<i32>)>
    decreases cs.len(),
{
    if cs.len() == 0 {
        cs
    } else if cs[0].0 == cid {
        cs.update(0, (cid, st, cs[0].2))
    } else {
        seq![cs[0]] + set_first_child(cs.drop_first(), cid, st)
    }
}

/// The graph where the requirement `id` gives its first parent entry for
/// `parent_id` the status `st`; `None` where `id` is missing.
pub open spec fn modify_parent(g: Map<i32, ReqView>, st: Status, parent_id: i32, id: i32) -> Option<Map<i32, ReqView>> {
    if !g.contains_key(id) {
        None
    } else {
        Some(g.insert(id, ReqView { parents: set_first_parent(g[id].parents, parent_id, st), ..g[id] }))
    }
}

/// The graph where the requirement `parent_id` gives its first child entry for `id`
/// the status `st`; `None` where `parent_id` is missing.
pub open spec fn modify_child(g: Map<i32, ReqView>, st: Status, parent_id: i32, id: i32) -> Option<Map<i32, ReqView>> {
    if !g.contains_key(parent_id) {
        None
    } else {
        Some(g.insert(parent_id, ReqView { children: set_first_child(g[parent_id].children, id, st), ..g[parent_id] }))
    }
}

proof fn lemma_set_first_parent_step(ps: Seq<(i32, Status)>, pid: i32, st: Status, i: int)
    requires
        0 <= i < ps.len(),
        ps[i].0 != pid,
        set_first_parent(ps, pid, st) == ps.take(i) + set_first_parent(ps.skip(i), pid, st),
    ensures
        set_first_parent(ps, pid, st) == ps.take(i + 1) + set_first_parent(ps.skip(i + 1), pid, st),
{
    assert(ps.skip(i).drop_first() =~= ps.skip(i + 1));
    assert(ps.skip(i)[0] == ps[i]);
    assert(ps.take(i) + (seq![ps[i]] + set_first_parent(ps.skip(i + 1), pid, st)) =~= ps.take(i + 1) + set_first_parent(ps.skip(i + 1), pid, st));
}

proof fn lemma_set_first_child_step(cs: Seq<(i32, Status, Option<i32>)>, cid: i32, st: Status, i: int)
    requires
        0 <= i < cs.len(),
        cs[i].0 != cid,
        set_first_child(cs, cid, st) == cs.take(i) + set_first_child(cs.skip(i), cid, st),
    ensures
        set_first_child(cs, cid, st) == cs.take(i + 1) + set_first_child(cs.skip(i + 1), cid, st),
{
    assert(cs.skip(i).drop_first() =~= cs.skip(i + 1));
    assert(cs.skip(i)[0] == cs[i]);
    assert(cs.take(i) + (seq![cs[i]] + set_first_child(cs.skip(i + 1), cid, st)) =~= cs.take(i + 1) + set_first_child(cs.skip(i + 1), cid, st));
}

/// Gives the first entry for `pid` of `ps` the status `st`.
pub fn set_first_parent_exec(ps: &mut Vec<(i32, Status)>, pid: i32, st: Status)
    ensures
        final(ps)@ == set_first_parent(old(ps)@, pid, st),
{
    let ghost s = ps@;
    let mut i: usize = 0;
    assert(s.skip(0) =~= s);
    assert(s.take(0) + s.skip(0) =~= s);
    assert(s.take(0) + set_first_parent(s.skip(0), pid, st) =~= set_first_parent(s, pid, st));
    let mut at: Option<usize> = None;
    while i < ps.len()
        invariant_except_break
            at is None,
            set_first_parent(s, pid, st) == s.take(i as int) + set_first_parent(s.skip(i as int), pid, st),
        invariant
            ps@ == s,
            0 <= i <= s.len(),
        ensures
            at matches Some(j) ==> j < s.len() && s[j as int].0 == pid
                && set_first_parent(s, pid, st) == s.take(j as int) + set_first_parent(s.skip(j as int), pid, st),
            at is None ==> i == s.len() && set_first_parent(s, pid, st) == s.take(i as int) + set_first_parent(s.skip(i as int), pid, st),
        decreases s.len() - i,
    {
        if ps[i].0 == pid {
            at = Some(i);
            break;
        }
        proof {
            lemma_set_first_parent_step(s, pid, st, i as int);
        }
        i = i + 1;
    }
    if let Some(i) = at {
            ps.set(i, (pid, st));
            proof {
                assert(s.skip(i as int)[0] == s[i as int]);
                assert(set_first_parent(s.skip(i as int), pid, st) == s.skip(i as int).update(0, (pid, st)));
                assert(s.skip(i as int).update(0, (pid, st)) =~= s.update(i as int, (pid, st)).skip(i as int));
                assert(s.take(i as int) + s.update(i as int, (pid, st)).skip(i as int) =~= s.update(i as int, (pid, st)));
                assert(ps@ == s.update(i as int, (pid, st)));
                assert(set_first_parent(s, pid, st) == s.update(i as int, (pid, st)));
            }
        return;
    }
    assert(s.take(s.len() as int) =~= s);
    assert(s.skip(s.len() as int) =~= Seq::<(i32, Status)>::empty());
    assert(s.take(s.len() as int) + Seq::<(i32, Status)>::empty() =~= s);
}

/// Gives the first entry for `cid` of `cs` the status `st`, keeping its cost.
pub fn set_first_child_exec(cs: &mut Vec<(i32, Status, Option<i32>)>, cid: i32, st: Status)
    ensures
        final(cs)@ == set_first_child(old(cs)@, cid, st),
{
    let ghost s = cs@;
    let mut i: usize = 0;
    assert(s.skip(0) =~= s);
    assert(s.take(0) + set_first_child(s.skip(0), cid, st) =~= set_first_child(s, cid, st));
    let mut at: Option<usize> = None;
    while i < cs.len()
        invariant_except_break
            at is None,
            set_first_child(s, cid, st) == s.take(i as int) + set_first_child(s.skip(i as int), cid, st),
        invariant
            cs@ == s,
            0 <= i <= s.len(),
        ensures
            at matches Some(j) ==> j < s.len() && s[j as int].0 == cid
                && set_first_child(s, cid, st) == s.take(j as int) + set_first_child(s.skip(j as int), cid, st),
            at is None ==> i == s.len() && set_first_child(s, cid, st) == s.take(i as int) + set_first_child(s.skip(i as int), cid, st),
        decreases s.len() - i,
    {
        if cs[i].0 == cid {
            at = Some(i);
            break;
        }
        proof {
            lemma_set_first_child_step(s, cid, st, i as int);
        }
        i = i + 1;
    }
    if let Some(i) = at {
            let cost = cs[i].2;
            cs.set(i, (cid, st, cost));
            proof {
                assert(s.skip(i as int)[0] == s[i as int]);
                assert(set_first_child(s.skip(i as int), cid, st) == s.skip(i as int).update(0, (cid, st, cost)));
                assert(s.skip(i as int).update(0, (cid, st, cost)) =~= s.update(i as int, (cid, st, cost)).skip(i as int));
                assert(s.take(i as int) + s.update(i as int, (cid, st, cost)).skip(i as int) =~= s.update(i as int, (cid, st, cost)));
                assert(cs@ == s.update(i as int, (cid, st, cost)));
                assert(set_first_child(s, cid, st) == s.update(i as int, (cid, st, cost)));
            }
        return;
    }
    assert(s.take(s.len() as int) =~= s);
    assert(s.skip(s.len() as int) =~= Seq::<(i32, Status, Option<i32>)>::empty());
    assert(s.take(s.len() as int) + Seq::<(i32, Status, Option<i32>)>::empty() =~= s);
}

/// Gives the first parent entry for `parent_id` of the requirement `id` the status `st`.
pub fn modify_parent_status(req_holder: &mut ReqHolder, status: Status, parent_id: i32, id: i32)
    requires
        old(req_holder).wf(),
        modify_parent(old(req_holder)@, status, parent_id, id) is Some,
    ensures
        final(req_holder).wf(),
        Some(final(req_holder)@) == modify_parent(old(req_holder)@, status, parent_id, id),
{
    let ghost g = req_holder@;
    match req_holder.take(id) {
        Some(mut req) => {
            set_first_parent_exec(&mut req.parents, parent_id, status);
            req_holder.put(id, req);
            assert(req_holder@ =~= modify_parent(g, status, parent_id, id)->0);
        },
        None => {
            assert(false);
        },
    }
}

/// Gives the first child entry for `id` of the requirement `parent_id` the status `st`.
pub fn modify_child_status(req_holder: &mut ReqHolder, status: Status, parent_id: i32, id: i32)
    requires
        old(req_holder).wf(),
        modify_child(old(req_holder)@, status, parent_id, id) is Some,
    ensures
        final(req_holder).wf(),
        Some(final(req_holder)@) == modify_child(old(req_holder)@, status, parent_id, id),
{
    let ghost g = req_holder@;
    match req_holder.take(parent_id) {
        Some(mut req) => {
            set_first_child_exec(&mut req.children, id, status);
            req_holder.put(parent_id, req);
            assert(req_holder@ =~= modify_child(g, status, parent_id, id)->0);
        },
        None => {
            assert(false);
        },
    }
}

} // verus!
