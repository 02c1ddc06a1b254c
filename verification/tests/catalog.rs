use pathfinder::catalog::Catalog;
use pathfinder::catalog_maker::{CatalogMaker, InstantiationType as Entry, LogicalType as Logic};
use pathfinder::db::Database;
use pathfinder::dev::{insert_catalog, SeedStore};
use pathfinder::models::class::Class;
use pathfinder::models::component::{Component, NewComponent};
use pathfinder::models::degree::Degree;
use pathfinder::types::{InstantiationType, LogicalType};

fn component_names(db: &Database) -> Vec<String> {
    (0..db.components.len()).map(|i| db.components.get(i).name.clone()).collect()
}

#[test]
fn test_catalog_stores_each_entry_once() {
    let mut catalog = Catalog::new(Database::new());
    catalog.gen_test_catalog();
    let db = catalog.into_database();
    assert_eq!(db.components.len(), 52);
    assert_eq!(db.classes.len(), 39);
    assert_eq!(db.component_assocs.len(), 67);
    assert_eq!(db.degrees.len(), 10);
    assert_eq!(db.degree_assocs.len(), 29);
    let mut names = component_names(&db);
    names.sort();
    names.dedup();
    assert_eq!(names.len(), 52);
}

#[test]
fn test_catalog_components_and_logic() {
    let mut catalog = Catalog::new(Database::new());
    catalog.gen_test_catalog();
    let mut db = catalog.into_database();
    let calc1 = Component::find(&1, &mut db).unwrap();
    assert_eq!(calc1.name, "CALC 1");
    assert_eq!(calc1.pftype, "Group");
    assert_eq!(calc1.logic_type, Some("OR".to_string()));
    let ma = Component::find(&2, &mut db).unwrap();
    assert_eq!((ma.name.as_str(), ma.pftype.as_str(), ma.logic_type.clone()), ("MA 16010", "Class", None));
    let two = Component::find_by_name("TwoClasses", &mut db).unwrap();
    assert_eq!(two.id, 33);
    assert_eq!(two.logic_type, Some("AND".to_string()));
    let later = Component::find_by_name("2class.2", &mut db).unwrap();
    assert_eq!(later.logic_type, Some("OR".to_string()));
    let missing_group = Component::find_by_name("Test 2", &mut db).unwrap();
    assert_eq!(missing_group.id, 50);
    assert_eq!(missing_group.pftype, "Group");
    assert_eq!(missing_group.logic_type, None);
}

#[test]
fn test_catalog_classes_keep_first_credits() {
    let mut catalog = Catalog::new(Database::new());
    catalog.gen_test_catalog();
    let mut db = catalog.into_database();
    let ma = Class::find_by_name("MA 16010", &mut db).unwrap();
    assert_eq!((ma.id, ma.credits, ma.component_id), (1, Some(5), Some(2)));
    let cnit = Class::find_by_name("CNIT 34010", &mut db).unwrap();
    assert_eq!((cnit.credits, cnit.component_id), (Some(1), Some(22)));
    let ez = Class::find_by_name("ezclass2", &mut db).unwrap();
    assert_eq!((ez.id, ez.credits, ez.component_id), (29, Some(2), Some(36)));
    let simple = Class::find_by_name("CNIT 18000", &mut db).unwrap();
    assert_eq!(simple.credits, Some(3));
}

#[test]
fn test_catalog_links_parents_to_entries() {
    let mut catalog = Catalog::new(Database::new());
    catalog.gen_test_catalog();
    let db = catalog.into_database();
    let first: Vec<(i32, i32)> = (0..3).map(|i| (db.component_assocs.get(i).parent_id, db.component_assocs.get(i).child_id)).collect();
    assert_eq!(first, vec![(1, 2), (1, 3), (4, 5)]);
    assert_eq!(db.component_assocs.get(0).association_type, "");
    let reqs: Vec<(i32, i32)> = (0..4).map(|i| (db.degree_assocs.get(i).degree_id, db.degree_assocs.get(i).component_id)).collect();
    assert_eq!(reqs, vec![(1, 1), (1, 29), (2, 41), (2, 50)]);
}

#[test]
fn test_catalog_degrees() {
    let mut catalog = Catalog::new(Database::new());
    catalog.gen_test_catalog();
    let mut db = catalog.into_database();
    let d = Degree::find_by_code("TEST1", &mut db).unwrap();
    assert_eq!(d.id, 1);
    assert_eq!(d.name, "TEST MAJOR");
    assert_eq!(d.pftype, "Major");
    assert_eq!(d.description, Some("Tests CALC1 and CALC 2 Requirements".to_string()));
    assert_eq!(Degree::find_by_code("CSECC", &mut db).unwrap().id, 10);
}

#[test]
fn full_catalog_counts() {
    let mut catalog = Catalog::new(Database::new());
    catalog.gen_full_catalog();
    let mut db = catalog.into_database();
    assert_eq!(db.components.len(), 70);
    assert_eq!(db.classes.len(), 56);
    assert_eq!(db.component_assocs.len(), 67);
    assert_eq!(db.degrees.len(), 4);
    assert_eq!(db.degree_assocs.len(), 45);
    let c = Component::find_by_name("CNIT 24200", &mut db).unwrap();
    assert_eq!((c.id, c.logic_type), (5, Some("AND".to_string())));
    assert_eq!(Degree::find_by_code("CNIT", &mut db).unwrap().description, Some("Do things in polytech".to_string()));
}

#[test]
fn parse_initial_catalog_reuses_stored_components() {
    let mut db = Database::new();
    let stored = NewComponent { name: Some("CALC 1".to_string()), pftype: Some("Group".to_string()), logic_type: None }
        .create(&mut db)
        .unwrap();
    let mut catalog = Catalog::new(db);
    catalog.parse_initial_catalog(vec![(
        InstantiationType::Group("CALC 1"),
        LogicalType::OR(vec![InstantiationType::Class(("MA 16010", 5)), InstantiationType::SimpleClass("MA 16200")]),
    )]);
    let mut db = catalog.into_database();
    assert_eq!(db.components.len(), 3);
    let calc = Component::find(&stored.id, &mut db).unwrap();
    assert_eq!(calc.logic_type, Some("OR".to_string()));
    assert_eq!(Class::find_by_name("MA 16200", &mut db).unwrap().credits, Some(3));
    assert_eq!(db.component_assocs.len(), 2);
    assert_eq!(db.component_assocs.get(1).child_id, 3);
}

#[test]
fn catalog_entry_named_twice_is_one_component() {
    let mut catalog = Catalog::new(Database::new());
    catalog.parse_initial_catalog(vec![
        (InstantiationType::Group("Req1"), LogicalType::OR(vec![InstantiationType::Group("TwoClasses")])),
        (InstantiationType::Group("TwoClasses"), LogicalType::AND(vec![InstantiationType::Class(("ezclass1", 1))])),
        (InstantiationType::Group("Req2"), LogicalType::AND(vec![InstantiationType::Group("TwoClasses")])),
    ]);
    let mut db = catalog.into_database();
    assert_eq!(component_names(&db), vec!["Req1", "TwoClasses", "ezclass1", "Req2"]);
    assert_eq!(Component::find(&2, &mut db).unwrap().logic_type, Some("AND".to_string()));
    let edges: Vec<(i32, i32)> = (0..db.component_assocs.len()).map(|i| (db.component_assocs.get(i).parent_id, db.component_assocs.get(i).child_id)).collect();
    assert_eq!(edges, vec![(1, 2), (2, 3), (4, 2)]);
}

#[test]
fn logic_type_names() {
    assert_eq!(LogicalType::AND(vec![]).to_string(), "AND");
    assert_eq!(LogicalType::OR(vec![]).to_string(), "OR");
    assert_eq!(LogicalType::GroupAND(vec![]).to_string(), "GroupAND");
    assert_eq!(LogicalType::PrereqOR(vec![]).to_string(), "PrereqOR");
    assert_eq!(pathfinder::types::ParsedLogicType::GroupOR(vec![1]).to_string(), "GroupOR");
    assert_eq!(pathfinder::types::ParsedLogicType::PrereqAND(vec![2, 3]).indices(), &vec![2usize, 3]);
}

#[test]
fn maker_catalog_counts() {
    let mut maker = CatalogMaker::new(Database::new());
    maker.gen_catalog();
    let mut db = maker.into_database();
    assert_eq!(db.components.len(), 70);
    assert_eq!(db.classes.len(), 56);
    assert_eq!(db.component_assocs.len(), 67);
    assert_eq!(db.degrees.len(), 4);
    assert_eq!(db.degree_assocs.len(), 45);
    let first = db.components.get(0);
    assert_eq!((first.name.as_str(), first.pftype.as_str()), ("CNIT 18000", "class"));
    let core = Component::find_by_name("CNIT CORE", &mut db).unwrap();
    assert_eq!((core.id, core.pftype.as_str()), (11, "logical"));
    let edge = db.component_assocs.get(0);
    assert_eq!((edge.parent_id, edge.child_id, edge.association_type.as_str(), edge.logic_type.as_str()), (11, 1, "requirement", "AND"));
    let d = Degree::find_by_code("SAAD", &mut db).unwrap();
    assert_eq!(d.description, None);
    assert_eq!(d.name, "Systems Analysis and Design");
}

#[test]
fn maker_entries_are_stored_once() {
    let mut maker = CatalogMaker::new(Database::new());
    let a = maker.reg("CNIT CORE");
    let b = maker.c("CNIT 18000");
    let c = maker.class("MA 16010", 5);
    assert_eq!((a, b, c), (0, 1, 2));
    assert_eq!(maker.reg("MA 16010"), 2);
    assert_eq!(maker.class("CNIT CORE", 4), 0);
    assert_eq!(maker.c("CNIT 18000"), 1);
    let mut db = maker.into_database();
    assert_eq!(db.components.len(), 3);
    assert_eq!(db.classes.len(), 2);
    assert_eq!(Class::find_by_name("MA 16010", &mut db).unwrap().credits, Some(5));
    assert_eq!(Class::find_by_name("MA 16010", &mut db).unwrap().component_id, Some(3));
}

#[test]
fn maker_meets_stored_components() {
    let mut db = Database::new();
    NewComponent { name: Some("UNIV CORE".to_string()), pftype: Some("logical".to_string()), logic_type: None }
        .create(&mut db)
        .unwrap();
    let mut maker = CatalogMaker::new(db);
    assert_eq!(maker.class("UNIV CORE", 3), 0);
    assert_eq!(maker.reg("OTHER"), 1);
    assert_eq!(maker.database().components.len(), 2);
    assert_eq!(maker.database().classes.len(), 0);
}

#[test]
fn maker_entry_enums_build() {
    let entries = vec![Entry::SimpleClass("A"), Entry::Class(("B", 2)), Entry::Reg("C"), Entry::Degree(("D", "E", "F"))];
    let logic = Logic::OR(entries);
    match logic {
        Logic::OR(v) => assert_eq!(v.len(), 4),
        Logic::AND(_) => unreachable!(),
    }
}

#[test]
fn insert_catalog_seeds_classes_with_components() {
    let mut db = SeedStore::new();
    let r = insert_catalog(&mut db);
    assert_eq!(r, Ok("Nice".to_string()));
    assert_eq!(db.class.len(), 59);
    assert_eq!(db.component.len(), 59);
    let ma = db.class.get(36);
    assert_eq!((ma.id, ma.name.as_str(), ma.credits), (37, "MA 16010", 4));
    let comp = db.component.get(36);
    assert_eq!((comp.id, comp.title.as_str(), comp.class), (37, "MA 16010", Some(37)));
    for i in 0..59 {
        let class = db.class.get(i);
        let comp = db.component.get(i);
        assert_eq!(comp.title, class.name);
        assert_eq!(comp.class, Some(class.id));
    }
    let last = db.class.get(58);
    assert_eq!((last.id, last.name.as_str(), last.credits), (59, "SAADSEL 00000", 3));
    let third = db.class.get(24);
    assert_eq!((third.name.as_str(), third.credits), ("CNIT 34220", 2));
}

#[test]
fn maker_shorthand_is_a_class_of_three_credits() {
    let mut m1 = CatalogMaker::new(Database::new());
    let mut m2 = CatalogMaker::new(Database::new());
    assert_eq!(m1.c("CNIT 18000"), m2.class("CNIT 18000", 3));
    let mut d1 = m1.into_database();
    let mut d2 = m2.into_database();
    let c1 = Class::find_by_name("CNIT 18000", &mut d1).unwrap();
    let c2 = Class::find_by_name("CNIT 18000", &mut d2).unwrap();
    assert_eq!((c1.id, c1.credits, c1.component_id), (c2.id, c2.credits, c2.component_id));
    assert_eq!(c1.credits, Some(3));
    assert_eq!(d1.components.len(), d2.components.len());
}
