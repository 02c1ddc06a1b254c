use pathfinder::catalog::Catalog;
use pathfinder::db::{Database, DbError};
use pathfinder::graph::Graph;
use pathfinder::planner::{analysis_ends_within, ScheduleMaker};
use pathfinder::queue_planner::{is_schedulable, queue_within, satisfaction_ends_within, schedule_from_queue, ScheduleMaker as QueueScheduleMaker};
use pathfinder::req_holder::ReqHolder;
use pathfinder::types::{Req, Schedule, ScheduleError, Status};

fn req(id: i32, name: &str) -> Req {
    Req {
        id,
        name: name.to_string(),
        pftype: "Group".to_string(),
        class: None,
        logic_type: Some("AND".to_string()),
        children: Vec::new(),
        parents: Vec::new(),
        in_analysis: false,
    }
}

fn test_catalog() -> Database {
    let mut catalog = Catalog::new(Database::new());
    catalog.gen_test_catalog();
    catalog.into_database()
}

#[test]
fn holder_reads_back_what_was_put() {
    let mut holder = ReqHolder::new();
    assert!(holder.get_req(1).is_none());
    holder.put(1, req(1, "CALC 1"));
    holder.put(2, req(2, "CALC 2"));
    assert_eq!(holder.get_req(1).unwrap().name, "CALC 1");
    assert_eq!(holder.get_req(2).unwrap().name, "CALC 2");
    holder.put(1, req(1, "CALC I"));
    assert_eq!(holder.get_req(1).unwrap().name, "CALC I");
    let taken = holder.take(1).unwrap();
    assert_eq!(taken.name, "CALC I");
    assert!(holder.get_req(1).is_none());
    assert!(holder.take(1).is_none());
    assert_eq!(holder.get_req(2).unwrap().id, 2);
}

#[test]
fn degree_req_is_kept_under_its_id() {
    let mut holder = ReqHolder::new();
    holder.add_degree_req(req(-1, "TEST MAJOR"));
    assert_eq!(holder.get_req(-1).unwrap().name, "TEST MAJOR");
}

#[test]
fn association_adds_one_edge_each_way() {
    let mut holder = ReqHolder::new();
    holder.put(1, req(1, "parent"));
    holder.put(2, req(2, "child"));
    holder.put(3, req(3, "other"));
    assert_eq!(holder.try_add_association(1, 2), Ok(()));
    assert_eq!(holder.get_req(2).unwrap().parents, vec![(1, Status::Unchecked)]);
    assert_eq!(holder.get_req(1).unwrap().children, vec![(2, Status::Unchecked, None)]);
    assert!(holder.get_req(1).unwrap().parents.is_empty());
    assert!(holder.get_req(3).unwrap().children.is_empty());
    assert_eq!(holder.try_add_association(3, 2), Ok(()));
    assert_eq!(holder.get_req(2).unwrap().parents, vec![(1, Status::Unchecked), (3, Status::Unchecked)]);
}

#[test]
fn association_with_a_missing_end_is_refused() {
    let mut holder = ReqHolder::new();
    holder.put(1, req(1, "parent"));
    assert_eq!(holder.try_add_association(1, 9), Err(ScheduleError::AssociationError));
    assert_eq!(holder.try_add_association(9, 1), Err(ScheduleError::AssociationError));
    assert!(holder.get_req(1).unwrap().children.is_empty());
    assert!(holder.get_req(1).unwrap().parents.is_empty());
}

#[test]
fn graph_is_displayed_depth_first_once_each() {
    let mut holder = ReqHolder::new();
    for id in 1..=4 {
        holder.put(id, req(id, "r"));
    }
    holder.try_add_association(1, 2).unwrap();
    holder.try_add_association(1, 3).unwrap();
    holder.try_add_association(2, 4).unwrap();
    holder.try_add_association(3, 4).unwrap();
    let mut shown = Vec::new();
    holder.display_graph(1, &mut shown);
    assert_eq!(shown, vec![1, 2, 4, 3]);
    let mut again = vec![3];
    holder.display_graph(1, &mut again);
    assert_eq!(again, vec![3, 1, 2, 4]);
}

#[test]
fn req_description_names_its_fields() {
    let mut r = req(1, "CALC 1");
    r.children.push((2, Status::Unchecked, None));
    let s = r.str();
    assert!(s.starts_with("CALC 1      : logic_type: "));
    assert!(s.contains("\"AND\""));
    assert!(s.contains("children:[(2, Unchecked, None)]"));
    assert!(s.ends_with("parents: []"));
}

#[test]
fn schedule_periods_alternate_terms() {
    let mut holder = ReqHolder::new();
    for id in 1..=4 {
        holder.put(id, req(id, &format!("class {id}")));
    }
    let queue = vec![(1, 0), (2, 2), (3, 0), (4, -3)];
    let s = schedule_from_queue(&holder, &queue);
    assert_eq!(s.periods.len(), 3);
    assert_eq!((s.periods[0].year, s.periods[0].time.as_str()), (2023, "Spring"));
    assert_eq!((s.periods[1].year, s.periods[1].time.as_str()), (2023, "Fall"));
    assert_eq!((s.periods[2].year, s.periods[2].time.as_str()), (2024, "Spring"));
    let ids: Vec<Vec<i32>> = s.periods.iter().map(|p| p.classes.iter().map(|c| c.id).collect()).collect();
    assert_eq!(ids, vec![vec![1, 3, 4], vec![], vec![2]]);
    let total: usize = s.periods.iter().map(|p| p.classes.len()).sum();
    assert_eq!(total, queue.len());
}

#[test]
fn empty_queue_gives_empty_schedule() {
    let holder = ReqHolder::new();
    let s = schedule_from_queue(&holder, &Vec::new());
    assert_eq!(s.periods.len(), 0);
    assert_eq!(Schedule::new().periods.len(), 0);
}

#[test]
fn planner_for_unknown_degree_is_refused() {
    let db = test_catalog();
    assert_eq!(ScheduleMaker::new(db, "NOPE").err(), Some(ScheduleError::DieselError(DbError::NotFound)));
    let db = test_catalog();
    assert_eq!(QueueScheduleMaker::new(db, "NOPE").err(), Some(ScheduleError::DieselError(DbError::NotFound)));
}

#[test]
fn requirement_graph_of_a_degree() {
    let mut maker = ScheduleMaker::new(test_catalog(), "TEST1").ok().unwrap();
    assert_eq!(maker.degree.code, "TEST1");
    let mut holder = ReqHolder::new();
    assert_eq!(maker.build_requirements_graph(&mut holder), Ok(-1));
    let root = holder.get_req(-1).unwrap();
    assert_eq!(root.pftype, "Group");
    assert_eq!(root.logic_type, Some("AND".to_string()));
    assert_eq!(root.children.iter().map(|c| c.0).collect::<Vec<_>>(), vec![1, 29]);
    let calc2 = holder.get_req(29).unwrap();
    assert_eq!(calc2.children.iter().map(|c| c.0).collect::<Vec<_>>(), vec![30, 31]);
    let ma = holder.get_req(2).unwrap();
    assert_eq!(ma.parents, vec![(1, Status::Unchecked), (30, Status::Unchecked)]);
    assert_eq!(ma.class.as_ref().unwrap().credits, Some(5));
    assert!(holder.get_req(1).unwrap().class.is_none());
}

#[test]
fn test_degree_schedule_is_built() {
    let mut maker = ScheduleMaker::new(test_catalog(), "TEST1").ok().unwrap();
    let s = maker.build_schedule().ok().unwrap();
    assert_eq!(s.periods.len(), 0);
}

#[test]
fn or_group_selects_its_cheapest_class() {
    let mut maker = ScheduleMaker::new(test_catalog(), "TEST1").ok().unwrap();
    let mut holder = ReqHolder::new();
    maker.build_requirements_graph(&mut holder).unwrap();
    maker.analyze_requirements_graph(&mut holder).unwrap();
    let calc1 = holder.get_req(1).unwrap();
    let selected: Vec<i32> = calc1.children.iter().filter(|c| c.1 == Status::Selected).map(|c| c.0).collect();
    assert_eq!(selected, vec![3]);
}

#[test]
fn schedule_error_messages() {
    assert_eq!(ScheduleError::DieselError(DbError::NotFound).message(), "Diesel Error");
    assert_eq!(ScheduleError::AssociationError.message(), "Component not found");
    assert_eq!(ScheduleError::PrereqError.message(), "Prereq is invalid for this Degree");
    assert_eq!(ScheduleError::UnimiplementedLogicError.message(), "This logic has not been implemented");
    assert_eq!(ScheduleError::from_db(DbError::EmptyChangeset), ScheduleError::DieselError(DbError::EmptyChangeset));
}

#[test]
fn graph_edges_are_recorded_at_both_ends() {
    let mut g = Graph::new();
    g.add_node(1);
    g.add_node(2);
    g.add_node(3);
    g.add_edge(1, 2);
    g.add_edge(2, 3);
    g.add_edge(1, 3);
    assert_eq!(g.nodes[&1].children, vec![2, 3]);
    assert!(g.nodes[&1].parents.is_empty());
    assert_eq!(g.nodes[&2].parents, vec![1]);
    assert_eq!(g.nodes[&2].children, vec![3]);
    assert_eq!(g.nodes[&3].parents, vec![2, 1]);
    assert_eq!(g.nodes[&3].id, 3);
}

#[test]
fn graph_self_edge_and_node_replacement() {
    let mut g = Graph::new();
    g.add_node(5);
    g.add_edge(5, 5);
    assert_eq!(g.nodes[&5].children, vec![5]);
    assert_eq!(g.nodes[&5].parents, vec![5]);
    g.add_node(5);
    assert!(g.nodes[&5].children.is_empty());
    assert_eq!(g.nodes.len(), 1);
}

#[test]
fn degree_missing_a_prerequisite_does_not_build() {
    let mut maker = ScheduleMaker::new(test_catalog(), "TEST3").ok().unwrap();
    assert_eq!(maker.build_schedule().err(), Some(ScheduleError::PrereqError));
}

#[test]
fn analysis_refuses_a_prerequisite_outside_the_degree() {
    let mut maker = ScheduleMaker::new(test_catalog(), "TEST3").ok().unwrap();
    let mut holder = ReqHolder::new();
    maker.build_requirements_graph(&mut holder).unwrap();
    assert_eq!(maker.analyze_requirements_graph(&mut holder), Err(ScheduleError::PrereqError));
    let ma = holder.get_req(30).unwrap();
    assert!(ma.parents.iter().any(|p| p.1 == Status::Selected));
}

#[test]
fn degrees_whose_prerequisites_are_requirements_build() {
    for code in ["TEST1", "TEST2"] {
        let mut maker = ScheduleMaker::new(test_catalog(), code).ok().unwrap();
        assert!(maker.can_build_schedule(), "{code}");
        assert_eq!(maker.build_schedule().ok().map(|s| s.periods.len()), Some(0), "{code}");
    }
}

#[test]
fn requirement_graph_edges_are_recorded_at_both_ends() {
    let mut maker = ScheduleMaker::new(test_catalog(), "CSECC").ok().unwrap();
    let mut holder = ReqHolder::new();
    maker.build_requirements_graph(&mut holder).unwrap();
    let ids = holder.ids();
    for &a in &ids {
        for &b in &ids {
            let down = holder.get_req(a).unwrap().children.iter().filter(|k| k.0 == b).count();
            let up = holder.get_req(b).unwrap().parents.iter().filter(|p| p.0 == a).count();
            assert_eq!(down, up, "{a} -> {b}");
        }
        for k in &holder.get_req(a).unwrap().children {
            assert!(holder.get_req(k.0).is_some());
        }
    }
}

#[test]
fn queue_places_a_class_after_its_selected_prerequisite() {
    let mut maker = QueueScheduleMaker::new(test_catalog(), "TEST1").ok().unwrap();
    let class = |id: i32| pathfinder::models::class::Class {
        id,
        name: format!("c{id}"),
        description: None,
        credits: Some(3),
        pftype: String::new(),
        subject: None,
        course_no: None,
        options: None,
        component_id: Some(id),
    };
    let mut holder = ReqHolder::new();
    let mut first = req(1, "first");
    first.class = Some(class(1));
    let mut second = req(2, "second");
    second.class = Some(class(2));
    second.children.push((1, Status::Selected, Some(3)));
    first.parents.push((2, Status::Selected));
    holder.put(1, first);
    holder.put(2, second);
    let mut queue = Vec::new();
    let built = maker.build_queue(&holder, 2, &mut queue).unwrap();
    assert_eq!(built, vec![(1, 0), (2, 1)]);
    assert_eq!(queue, vec![(1, 0), (2, 1)]);
}

#[test]
fn schedule_can_be_built_for_the_test_degrees() {
    for code in ["TEST1", "TEST2", "TEST3"] {
        let mut maker = ScheduleMaker::new(test_catalog(), code).ok().unwrap();
        assert!(maker.can_build_schedule(), "{code}");
    }
}

#[test]
fn reversed_degrees_cannot_be_analysed() {
    // their class MA 16010 is reached from MA 16020 before CALC 1, and CALC 1,
    // analysed from the class, finds no parent entry for it
    for code in ["TEST1REV", "TEST2REV"] {
        let mut maker = ScheduleMaker::new(test_catalog(), code).ok().unwrap();
        assert!(!maker.can_build_schedule(), "{code}");
        let mut holder = ReqHolder::new();
        assert_eq!(maker.build_requirements_graph(&mut holder), Ok(-1));
        assert!(!analysis_ends_within(&mut holder, u64::MAX), "{code}");
    }
}

#[test]
fn analysis_check_tells_when_the_analysis_ends() {
    let mut bad = ReqHolder::new();
    bad.add_degree_req(req(-1, "root"));
    let mut group = req(5, "no logic");
    group.logic_type = None;
    bad.put(5, group);
    assert_eq!(bad.try_add_association(-1, 5), Ok(()));
    assert!(!analysis_ends_within(&mut bad, u64::MAX));
    let mut empty = ReqHolder::new();
    empty.add_degree_req(req(-1, "root"));
    assert!(!analysis_ends_within(&mut empty, 0));
    assert!(analysis_ends_within(&mut empty, 1));
}

#[test]
fn association_appends_one_child_per_component() {
    let mut maker = ScheduleMaker::new(test_catalog(), "TEST1").ok().unwrap();
    let mut holder = ReqHolder::new();
    maker.build_requirements_graph(&mut holder).unwrap();
    let root = holder.get_req(-1).unwrap();
    assert_eq!(root.children, vec![(1, Status::Unchecked, None), (29, Status::Unchecked, None)]);
    assert!(root.parents.is_empty());
    for &(id, _, _) in &root.children {
        assert_eq!(holder.get_req(id).unwrap().parents.iter().filter(|p| p.0 == -1).count(), 1);
    }
}

#[test]
fn queue_planner_refuses_group_logic_it_does_not_know() {
    // the catalog's groups carry AND and OR, which this planner has no case for
    let mut maker = QueueScheduleMaker::new(test_catalog(), "TEST1").ok().unwrap();
    assert!(!maker.can_build_schedule());
}

#[test]
fn satisfaction_check_tells_when_the_satisfaction_ends() {
    let root = || {
        let mut r = req(-1, "root");
        r.pftype = "Degree".to_string();
        r.logic_type = Some("GroupAND".to_string());
        r
    };
    let mut h = ReqHolder::new();
    h.add_degree_req(root());
    assert!(!satisfaction_ends_within(&mut h, 0));
    let mut h = ReqHolder::new();
    h.add_degree_req(root());
    assert!(satisfaction_ends_within(&mut h, 1));
    assert!(!h.get_req(-1).unwrap().in_analysis);
    let mut h = ReqHolder::new();
    h.add_degree_req(root());
    h.put(5, req(5, "plain AND group"));
    assert_eq!(h.try_add_association(-1, 5), Ok(()));
    assert!(!satisfaction_ends_within(&mut h, u64::MAX));
}

#[test]
fn queue_checks_on_a_small_graph() {
    let mut holder = ReqHolder::new();
    let mut first = req(1, "first");
    let mut second = req(2, "second");
    second.children.push((1, Status::Selected, Some(3)));
    first.parents.push((2, Status::Selected));
    holder.put(1, first);
    holder.put(2, second);
    let mut queue = Vec::new();
    assert_eq!(queue_within(&holder, 2, &mut queue, 0), None);
    let mut queue = Vec::new();
    assert_eq!(queue_within(&holder, 2, &mut queue, 1), None);
    let mut queue = Vec::new();
    assert_eq!(queue_within(&holder, 2, &mut queue, 2), Some(vec![]));
    assert!(queue.is_empty());
    let mut queue = Vec::new();
    assert_eq!(queue_within(&holder, 9, &mut queue, 5), None);
    assert!(is_schedulable(&holder, &vec![(1, 0), (2, 1)]));
    assert!(!is_schedulable(&holder, &vec![(1, 0), (3, 1)]));
    assert!(!is_schedulable(&holder, &vec![(1, i32::MAX)]));
    assert!(is_schedulable(&holder, &vec![]));
}
