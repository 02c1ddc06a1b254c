use pathfinder::db::{Database, DbError};
use pathfinder::models::associations::{ComponentToComponent, DegreeToComponent, NewComponentAssoc, NewDegreeToComponent};
use pathfinder::models::class::{Class, ClassList, NewClass, SimpleClass};
use pathfinder::models::component::{Component, ComponentList, NewComponent};
use pathfinder::models::degree::{Degree, DegreeList, NewDegree};
use pathfinder::models::subdivision::{NewSubdivision, SubdivisionList};
use pathfinder::models::university::{create_university, NewUniversity, University, UniversityList};

fn new_component(db: &mut Database, name: &str, pftype: &str) -> Component {
    NewComponent { name: Some(name.to_string()), pftype: Some(pftype.to_string()), logic_type: None }
        .create(db)
        .unwrap()
}

#[test]
fn created_university_is_found_by_id() {
    let mut db = Database::new();
    let u = NewUniversity { name: Some("Purdue".to_string()), description: Some("testing".to_string()) }
        .create(&mut db)
        .unwrap();
    assert_eq!(u.id, 1);
    let found = University::find(&u.id, &mut db).unwrap();
    assert_eq!(found.id, 1);
    assert_eq!(found.name, "Purdue");
    assert_eq!(found.description, Some("testing".to_string()));
}

#[test]
fn ids_are_handed_out_in_sequence() {
    let mut db = Database::new();
    let a = create_university(&mut db, "A", "first");
    let b = create_university(&mut db, "B", "second");
    let c = create_university(&mut db, "C", "third");
    assert_eq!((a.id, b.id, c.id), (1, 2, 3));
    University::destroy(&b.id, &mut db).unwrap();
    let d = create_university(&mut db, "D", "fourth");
    assert_eq!(d.id, 4);
}

#[test]
fn unset_required_columns_are_refused() {
    let mut db = Database::new();
    let r = NewUniversity { name: None, description: Some("x".to_string()) }.create(&mut db);
    assert_eq!(r.unwrap_err(), DbError::NotNullViolation);
    assert_eq!(UniversityList::list(&mut db).0.len(), 0);
    let r = NewComponent { name: Some("CALC 1".to_string()), pftype: None, logic_type: None }.create(&mut db);
    assert_eq!(r.unwrap_err(), DbError::NotNullViolation);
    let r = NewComponent { name: None, pftype: Some("Group".to_string()), logic_type: None }.create(&mut db);
    assert_eq!(r.unwrap_err(), DbError::NotNullViolation);
    let r = NewComponent { name: None, pftype: None, logic_type: None }.create_class_component(&mut db);
    assert_eq!(r.unwrap_err(), DbError::NotNullViolation);
    let r = NewDegree { code: Some("A".to_string()), name: Some("x".to_string()), pftype: None, description: None }.create(&mut db);
    assert_eq!(r.unwrap_err(), DbError::NotNullViolation);
    let r = SimpleClass { name: None, credits: Some(3), component_id: None }.create(&mut db);
    assert_eq!(r.unwrap_err(), DbError::NotNullViolation);
    assert_eq!(db.components.len(), 0);
    assert_eq!(db.degrees.len(), 0);
    assert_eq!(db.classes.len(), 0);
    let u = create_university(&mut db, "Purdue", "testing");
    assert_eq!(u.id, 1);
}

#[test]
fn unset_class_type_takes_the_empty_default() {
    let mut db = Database::new();
    let c = SimpleClass { name: Some("CNIT 18000".to_string()), credits: Some(3), component_id: None }.create(&mut db).unwrap();
    assert_eq!(c.pftype, "");
    assert_eq!(c.id, 1);
}

#[test]
fn destroyed_university_is_not_found() {
    let mut db = Database::new();
    let u = create_university(&mut db, "Purdue", "testing");
    let other = create_university(&mut db, "IU", "other");
    assert_eq!(University::destroy(&u.id, &mut db), Ok(()));
    assert_eq!(University::find(&u.id, &mut db).unwrap_err(), DbError::NotFound);
    assert_eq!(University::find(&other.id, &mut db).unwrap().name, "IU");
}

#[test]
fn destroying_a_missing_id_changes_nothing() {
    let mut db = Database::new();
    create_university(&mut db, "Purdue", "testing");
    assert_eq!(University::destroy(&42, &mut db), Ok(()));
    assert_eq!(UniversityList::list(&mut db).0.len(), 1);
}

#[test]
fn find_on_empty_store_is_not_found() {
    let mut db = Database::new();
    assert_eq!(University::find(&1, &mut db).unwrap_err(), DbError::NotFound);
    assert_eq!(Degree::find(&1, &mut db).unwrap_err(), DbError::NotFound);
    assert_eq!(Component::find(&1, &mut db).unwrap_err(), DbError::NotFound);
    assert_eq!(Class::find(&1, &mut db).unwrap_err(), DbError::NotFound);
}

#[test]
fn updated_university_is_read_back() {
    let mut db = Database::new();
    let u = create_university(&mut db, "Purdue", "testing");
    let change = NewUniversity { name: None, description: Some("this description has been updated".to_string()) };
    assert_eq!(University::update(&u.id, &change, &mut db), Ok(()));
    let found = University::find(&u.id, &mut db).unwrap();
    assert_eq!(found.name, "Purdue");
    assert_eq!(found.description, Some("this description has been updated".to_string()));
}

#[test]
fn update_without_changes_is_refused() {
    let mut db = Database::new();
    let u = create_university(&mut db, "Purdue", "testing");
    let change = NewUniversity { name: None, description: None };
    assert_eq!(University::update(&u.id, &change, &mut db), Err(DbError::EmptyChangeset));
    assert_eq!(University::find(&u.id, &mut db).unwrap().description, Some("testing".to_string()));
}

#[test]
fn update_of_a_missing_id_changes_nothing() {
    let mut db = Database::new();
    let u = create_university(&mut db, "Purdue", "testing");
    let change = NewUniversity { name: Some("Other".to_string()), description: None };
    assert_eq!(University::update(&7, &change, &mut db), Ok(()));
    assert_eq!(University::find(&u.id, &mut db).unwrap().name, "Purdue");
}

#[test]
fn lists_give_the_first_ten_rows() {
    let mut db = Database::new();
    for i in 0..12 {
        create_university(&mut db, &format!("U{i}"), "x");
        NewDegree {
            code: Some(format!("D{i}")),
            name: Some("n".to_string()),
            pftype: Some("Major".to_string()),
            description: None,
        }
        .create(&mut db)
        .unwrap();
        new_component(&mut db, &format!("C{i}"), "Group");
        NewClass {
            name: Some(format!("K{i}")),
            description: None,
            credits: Some(3),
            pftype: None,
            subject: None,
            course_no: None,
            options: None,
            component_id: None,
        }
        .create(&mut db)
        .unwrap();
        NewSubdivision { name: format!("S{i}") }.create(&mut db).unwrap();
    }
    let unis = UniversityList::list(&mut db).0;
    assert_eq!(unis.len(), 10);
    assert_eq!(unis[0].name, "U0");
    assert_eq!(unis[9].name, "U9");
    assert_eq!(DegreeList::list(&mut db).0.len(), 10);
    assert_eq!(ComponentList::list(&mut db).0.len(), 10);
    assert_eq!(ClassList::list(&mut db).0.len(), 10);
    let subs = SubdivisionList::list(&mut db).0;
    assert_eq!(subs.len(), 10);
    assert_eq!(subs[3].name, "S3");
    assert_eq!(subs[3].university_id, None);
}

#[test]
fn lists_of_a_small_table_give_every_row() {
    let mut db = Database::new();
    create_university(&mut db, "A", "x");
    create_university(&mut db, "B", "y");
    let unis = UniversityList::list(&mut db).0;
    assert_eq!(unis.len(), 2);
    assert_eq!(unis[1].name, "B");
    assert_eq!(DegreeList::list(&mut db).0.len(), 0);
}

#[test]
fn degree_found_by_code() {
    let mut db = Database::new();
    let d = NewDegree {
        code: Some("CNIT".to_string()),
        name: Some("Computer and Information Technology".to_string()),
        pftype: Some("Major".to_string()),
        description: Some("Do things in polytech".to_string()),
    }
    .create(&mut db)
    .unwrap();
    let found = Degree::find_by_code("CNIT", &mut db).unwrap();
    assert_eq!(found.id, d.id);
    assert_eq!(found.name, "Computer and Information Technology");
    assert_eq!(found.subdivision, None);
    assert_eq!(Degree::find_by_code("CSEC", &mut db).unwrap_err(), DbError::NotFound);
}

#[test]
fn degree_update_and_destroy() {
    let mut db = Database::new();
    let d = NewDegree { code: Some("A".to_string()), name: Some("x".to_string()), pftype: Some("Major".to_string()), description: None }
        .create(&mut db)
        .unwrap();
    assert_eq!(d.pftype, "Major");
    let change = NewDegree { code: None, name: None, pftype: Some("Minor".to_string()), description: None };
    assert_eq!(Degree::update(&d.id, &change, &mut db), Ok(()));
    assert_eq!(Degree::find(&d.id, &mut db).unwrap().pftype, "Minor");
    let none = NewDegree { code: None, name: None, pftype: None, description: None };
    assert_eq!(Degree::update(&d.id, &none, &mut db), Err(DbError::EmptyChangeset));
    assert_eq!(Degree::destroy(&d.id, &mut db), Ok(()));
    assert_eq!(Degree::find(&d.id, &mut db).unwrap_err(), DbError::NotFound);
}

#[test]
fn component_found_by_first_name() {
    let mut db = Database::new();
    let a = new_component(&mut db, "CNIT CORE", "Group");
    new_component(&mut db, "CNIT CORE", "Class");
    let found = Component::find_by_name("CNIT CORE", &mut db).unwrap();
    assert_eq!(found.id, a.id);
    assert_eq!(found.pftype, "Group");
    assert_eq!(Component::find_by_name("UNIV CORE", &mut db).unwrap_err(), DbError::NotFound);
}

#[test]
fn component_logic_type_update() {
    let mut db = Database::new();
    let a = new_component(&mut db, "CALC 1", "Group");
    assert_eq!(Component::update_logic_type(&a.id, "OR".to_string(), &mut db), Ok(()));
    let found = Component::find(&a.id, &mut db).unwrap();
    assert_eq!(found.logic_type, Some("OR".to_string()));
    assert_eq!(found.name, "CALC 1");
    let change = NewComponent { name: Some("CALC I".to_string()), pftype: None, logic_type: None };
    assert_eq!(Component::update(&a.id, &change, &mut db), Ok(()));
    assert_eq!(Component::find(&a.id, &mut db).unwrap().name, "CALC I");
    assert_eq!(Component::destroy(&a.id, &mut db), Ok(()));
    assert_eq!(Component::find(&a.id, &mut db).unwrap_err(), DbError::NotFound);
}

#[test]
fn class_component_has_type_class() {
    let mut db = Database::new();
    let c = NewComponent { name: Some("MA 16010".to_string()), pftype: Some("Group".to_string()), logic_type: None }
        .create_class_component(&mut db)
        .unwrap();
    assert_eq!(c.pftype, "class");
    assert_eq!(c.name, "MA 16010");
}

#[test]
fn classes_found_by_name_and_component() {
    let mut db = Database::new();
    let comp = new_component(&mut db, "MA 16010", "Class");
    let class = NewClass {
        name: Some("MA 16010".to_string()),
        description: None,
        credits: Some(5),
        pftype: None,
        subject: Some("MA".to_string()),
        course_no: Some("16010".to_string()),
        options: None,
        component_id: Some(comp.id),
    }
    .create(&mut db)
    .unwrap();
    assert_eq!(class.pftype, "");
    assert_eq!(Class::find_by_name("MA 16010", &mut db).unwrap().id, class.id);
    assert_eq!(Class::find_by_component_id(&comp.id, &mut db).unwrap().credits, Some(5));
    assert_eq!(Class::find_by_component_id(&99, &mut db).unwrap_err(), DbError::NotFound);
    assert_eq!(Class::find_by_name("MA 16020", &mut db).unwrap_err(), DbError::NotFound);
    let change = NewClass {
        name: None,
        description: Some("Calculus".to_string()),
        credits: None,
        pftype: None,
        subject: None,
        course_no: None,
        options: None,
        component_id: None,
    };
    assert_eq!(Class::update(&class.id, &change, &mut db), Ok(()));
    let found = Class::find(&class.id, &mut db).unwrap();
    assert_eq!(found.description, Some("Calculus".to_string()));
    assert_eq!(found.credits, Some(5));
    assert_eq!(Class::destroy(&class.id, &mut db), Ok(()));
    assert_eq!(Class::find(&class.id, &mut db).unwrap_err(), DbError::NotFound);
}

#[test]
fn simple_classes_carry_name_credits_and_component() {
    let mut db = Database::new();
    let shape = NewClass {
        name: Some("ignored".to_string()),
        description: Some("ignored".to_string()),
        credits: Some(1),
        pftype: Some("ignored".to_string()),
        subject: None,
        course_no: None,
        options: None,
        component_id: None,
    };
    let c = shape.new_simple_class(&mut db, "CNIT 18000".to_string(), 3, 7).unwrap();
    assert_eq!(c.name, "CNIT 18000");
    assert_eq!(c.credits, Some(3));
    assert_eq!(c.component_id, Some(7));
    assert_eq!(c.description, None);
    let s = SimpleClass { name: Some("CNIT 15501".to_string()), credits: Some(4), component_id: None }
        .create(&mut db)
        .unwrap();
    assert_eq!(s.id, 2);
    assert_eq!(s.credits, Some(4));
    assert_eq!(s.component_id, None);
}

#[test]
fn component_edges_are_read_from_both_ends() {
    let mut db = Database::new();
    let parent = new_component(&mut db, "CALC 1", "Group");
    let a = new_component(&mut db, "MA 16010", "Class");
    let b = new_component(&mut db, "MA 16200", "Class");
    for child in [&a, &b] {
        let e = NewComponentAssoc {
            parent_id: parent.id,
            child_id: child.id,
            association_type: Some("requirement".to_string()),
            logic_type: Some("OR".to_string()),
        }
        .create(&mut db)
        .unwrap();
        assert_eq!(e.association_type, "requirement");
    }
    let out = ComponentToComponent::get_assoc_from_parent(&parent, &mut db).unwrap();
    assert_eq!(out.len(), 2);
    assert_eq!((out[0].child_id, out[1].child_id), (a.id, b.id));
    let into = ComponentToComponent::get_assoc_from_child(&b, &mut db).unwrap();
    assert_eq!(into.len(), 1);
    assert_eq!(into[0].parent_id, parent.id);
    let kids = ComponentToComponent::get_children(&parent, &mut db).unwrap();
    let names: Vec<&str> = kids.iter().map(|c| c.name.as_str()).collect();
    assert_eq!(names, vec!["MA 16010", "MA 16200"]);
    let edge = &out[0];
    let parents = edge.get_parents(&a, &mut db).unwrap();
    assert_eq!(parents.len(), 1);
    assert_eq!(parents[0].name, "CALC 1");
    assert_eq!(ComponentToComponent::get_children(&a, &mut db).unwrap().len(), 0);
}

#[test]
fn unset_edge_texts_are_empty() {
    let mut db = Database::new();
    let e = NewComponentAssoc { parent_id: 1, child_id: 2, association_type: None, logic_type: None }
        .create(&mut db)
        .unwrap();
    assert_eq!(e.id, 1);
    assert_eq!(e.association_type, "");
    assert_eq!(e.logic_type, "");
}

#[test]
fn degree_requirements_are_read_from_both_ends() {
    let mut db = Database::new();
    let d = NewDegree { code: Some("TEST1".to_string()), name: Some("TEST MAJOR".to_string()), pftype: Some("Major".to_string()), description: None }
        .create(&mut db)
        .unwrap();
    let c1 = new_component(&mut db, "CALC 1", "Group");
    let c2 = new_component(&mut db, "CALC 2", "Group");
    for c in [&c1, &c2] {
        NewDegreeToComponent { degree_id: d.id, component_id: c.id }.create(&mut db).unwrap();
    }
    let comps = DegreeToComponent::get_components(&d, &mut db).unwrap();
    assert_eq!(comps.iter().map(|c| c.id).collect::<Vec<_>>(), vec![c1.id, c2.id]);
    let ids = DegreeToComponent::get_component_ids(&d, &mut db).unwrap();
    assert_eq!(ids.len(), 2);
    assert_eq!(ids[1].component_id, c2.id);
    let degrees = DegreeToComponent::get_degrees(&c2, &mut db).unwrap();
    assert_eq!(degrees.len(), 1);
    assert_eq!(degrees[0].code, "TEST1");
    let back = DegreeToComponent::get_degree_ids(&c1, &mut db).unwrap();
    assert_eq!(back.len(), 1);
    assert_eq!(back[0].degree_id, d.id);
}

#[test]
fn store_error_messages() {
    assert_eq!(DbError::NotFound.message(), "Record not found");
    assert_eq!(DbError::EmptyChangeset.message(), "There are no changes to save");
    assert_eq!(DbError::SequenceExhausted.message(), "The id sequence is exhausted");
    assert_eq!(DbError::NotNullViolation.message(), "A column that cannot be null was left unset");
}

#[test]
fn destroying_a_class_twice_changes_nothing_more() {
    let mut db = Database::new();
    let a = SimpleClass { name: Some("A".to_string()), credits: Some(3), component_id: None }.create(&mut db).unwrap();
    SimpleClass { name: Some("B".to_string()), credits: Some(3), component_id: None }.create(&mut db).unwrap();
    assert_eq!(Class::destroy(&a.id, &mut db), Ok(()));
    assert_eq!(Class::destroy(&a.id, &mut db), Ok(()));
    let left = ClassList::list(&mut db).0;
    assert_eq!(left.len(), 1);
    assert_eq!(left[0].name, "B");
}

#[test]
fn a_child_linked_twice_is_listed_once() {
    let mut db = Database::new();
    let parent = new_component(&mut db, "CALC 1", "Group");
    let child = new_component(&mut db, "MA 16010", "Class");
    for _ in 0..2 {
        NewComponentAssoc { parent_id: parent.id, child_id: child.id, association_type: None, logic_type: None }
            .create(&mut db)
            .unwrap();
    }
    let kids = ComponentToComponent::get_children(&parent, &mut db).unwrap();
    assert_eq!(kids.len(), 1);
    assert_eq!(kids[0].id, child.id);
}

#[test]
fn requirement_rows_name_the_joined_components() {
    let mut db = Database::new();
    let d = NewDegree { code: Some("D".to_string()), name: Some("n".to_string()), pftype: Some("Major".to_string()), description: None }
        .create(&mut db)
        .unwrap();
    let a = new_component(&mut db, "A", "Group");
    let b = new_component(&mut db, "B", "Group");
    for c in [&b, &a, &b] {
        NewDegreeToComponent { degree_id: d.id, component_id: c.id }.create(&mut db).unwrap();
    }
    let ids: Vec<i32> = DegreeToComponent::get_component_ids(&d, &mut db).unwrap().iter().map(|r| r.component_id).collect();
    let joined: Vec<i32> = DegreeToComponent::get_components(&d, &mut db).unwrap().iter().map(|c| c.id).collect();
    assert_eq!(ids, vec![b.id, a.id, b.id]);
    assert_eq!(joined, ids);
}
