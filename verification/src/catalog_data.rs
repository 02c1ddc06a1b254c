use vstd::prelude::*;
use crate::catalog::{catalog_view, degree_pass, initial_catalog, requirements_view, CatalogView, InstView, LogicView};
use crate::types::{InstantiationType, LogicalType};

verus! {

/// A group entry.
pub open spec fn group_entry(name: Seq<char>) -> InstView {
    InstView::Group(name)
}

/// A class entry with three credits.
pub open spec fn simple_entry(name: Seq<char>) -> InstView {
    InstView::SimpleClass(name)
}

/// A class entry with its credits.
pub open spec fn class_entry(c: (Seq<char>, i32)) -> InstView {
    InstView::Class(c.0, c.1)
}

/// A degree entry: code, name, type and description.
pub open spec fn degree_entry(d: (Seq<char>, Seq<char>, Seq<char>, Seq<char>)) -> InstView {
    InstView::Degree(d.0, d.1, d.2, d.3)
}

/// All of `entries`.
pub open spec fn all_of(entries: Seq<InstView>) -> LogicView {
    LogicView { name: "AND"@, entries }
}

/// One of `entries`.
pub open spec fn one_of(entries: Seq<InstView>) -> LogicView {
    LogicView { name: "OR"@, entries }
}

/// The run of a catalog: its entries are stored and linked, then its degrees with
/// their requirements.
pub open spec fn catalog_run(st: CatalogView, cat: Seq<(InstView, LogicView)>, reqs: Seq<(InstView, Seq<InstView>)>) -> Option<CatalogView> {
    match initial_catalog(st, cat) {
        Some(st1) => degree_pass(st1, reqs, 0),
        None => None,
    }
}

/// The test catalog: groups and classes with their prerequisites.
pub open spec fn test_catalog() -> Seq<(InstView, LogicView)> {
    seq![
        (
            group_entry("CALC 1"@),
            one_of(seq![class_entry(("MA 16010"@, 5)), class_entry(("MA 16200"@, 4))]),
        ),
        (
            group_entry("CNIT CORE"@),
            all_of(seq![
                simple_entry("CNIT 18000"@),
                simple_entry("CNIT 15501"@),
                simple_entry("CNIT 17600"@),
                simple_entry("CNIT 24200"@),
                simple_entry("CNIT 25501"@),
                simple_entry("CNIT 27000"@),
                simple_entry("CNIT 27200"@),
                simple_entry("CNIT 28000"@),
                simple_entry("CNIT 32000"@),
                simple_entry("CNIT 48000"@),
            ]),
        ),
        (
            group_entry("CNIT TEST"@),
            all_of(seq![
                simple_entry("CNIT 15501"@),
                simple_entry("CNIT 17600"@),
                simple_entry("CNIT 24200"@),
                simple_entry("CNIT 27000"@),
                simple_entry("CNIT 47100"@),
                simple_entry("TECH 12000"@),
                simple_entry("CNIT 45500"@),
                simple_entry("CNIT 37000"@),
                simple_entry("CNIT 32000"@),
                simple_entry("CNIT 47000"@),
                simple_entry("CNIT 34400"@),
            ]),
        ),
        (
            simple_entry("CNIT 25501"@),
            all_of(seq![simple_entry("CNIT 15501"@)]),
        ),
        (
            simple_entry("CNIT 24200"@),
            all_of(seq![simple_entry("CNIT 17600"@)]),
        ),
        (
            class_entry(("CNIT 34010"@, 1)),
            all_of(seq![simple_entry("CNIT 24200"@)]),
        ),
        (
            simple_entry("CNIT 34400"@),
            all_of(seq![simple_entry("CNIT 24200"@), simple_entry("CNIT 27000"@)]),
        ),
        (
            simple_entry("CNIT 32000"@),
            all_of(seq![simple_entry("TECH 12000"@)]),
        ),
        (
            simple_entry("CNIT 37000"@),
            all_of(seq![simple_entry("CNIT 24200"@), simple_entry("CNIT 27000"@)]),
        ),
        (
            simple_entry("CNIT 32200"@),
            all_of(seq![simple_entry("CNIT 27000"@)]),
        ),
        (
            simple_entry("CNIT 31500"@),
            all_of(seq![simple_entry("CNIT 25501"@)]),
        ),
        (
            simple_entry("CNIT 34220"@),
            one_of(seq![simple_entry("CNIT 34000"@), class_entry(("CNIT 34010"@, 1))]),
        ),
        (
            simple_entry("CNIT 47000"@),
            all_of(seq![simple_entry("CNIT 32000"@)]),
        ),
        (
            simple_entry("CNIT 47100"@),
            all_of(seq![simple_entry("CNIT 45500"@), simple_entry("CNIT 37000"@)]),
        ),
        (
            simple_entry("CNIT 48000"@),
            all_of(seq![simple_entry("CNIT 28000"@)]),
        ),
        (
            simple_entry("CNIT 34000"@),
            all_of(seq![simple_entry("CNIT 24200"@)]),
        ),
        (
            simple_entry("CNIT 27000"@),
            all_of(seq![simple_entry("CNIT 17600"@), simple_entry("CNIT 15501"@)]),
        ),
        (
            simple_entry("CNIT 28000"@),
            all_of(seq![simple_entry("CNIT 18000"@)]),
        ),
        (
            group_entry("NETWORK ENGR GROUPED 455 PREREQ"@),
            one_of(seq![simple_entry("CNIT 34500"@), simple_entry("CNIT 34400"@)]),
        ),
        (
            simple_entry("CNIT 45500"@),
            one_of(seq![
                simple_entry("CNIT 34220"@),
                group_entry("NETWORK ENGR GROUPED 455 PREREQ"@),
            ]),
        ),
        (
            group_entry("CALC 2"@),
            one_of(seq![class_entry(("MA 16020"@, 5)), class_entry(("MA 16600"@, 4))]),
        ),
        (
            group_entry("Req1"@),
            one_of(seq![group_entry("TwoClasses"@), class_entry(("Normal"@, 3))]),
        ),
        (
            group_entry("TwoClasses"@),
            all_of(seq![class_entry(("ezclass1"@, 1)), class_entry(("ezclass2"@, 2))]),
        ),
        (group_entry("Req2t1"@), all_of(seq![class_entry(("Normal2t1"@, 3))])),
        (group_entry("Req2t2"@), all_of(seq![class_entry(("Normal2t2"@, 3))])),
        (simple_entry("Normal2t2"@), all_of(seq![group_entry("TwoClasses"@)])),
        (simple_entry("Normal2t1"@), all_of(seq![simple_entry("Normal"@)])),
        (simple_entry("MA 16020"@), all_of(seq![simple_entry("MA 16010"@)])),
        (simple_entry("MA 16600"@), all_of(seq![simple_entry("MA 16200"@)])),
        (
            group_entry("Test1"@),
            all_of(seq![
                class_entry(("1class.1"@, 3)),
                class_entry(("1class.2"@, 3)),
                class_entry(("2class.1"@, 4)),
            ]),
        ),
        (group_entry("Test2"@), all_of(seq![class_entry(("2class.2"@, 3))])),
        (
            group_entry("2class.2 prereqs"@),
            one_of(seq![simple_entry("3class.1"@), simple_entry("2class.1"@)]),
        ),
        (
            simple_entry("2class.2"@),
            one_of(seq![simple_entry("dont pick me"@), group_entry("2class.2 prereqs"@)]),
        ),
    ]
}

/// The test degrees with their requirements.
pub open spec fn test_requirements() -> Seq<(InstView, Seq<InstView>)> {
    seq![
        (
            degree_entry((
                "TEST1"@,
                "TEST MAJOR"@,
                "Major"@,
                "Tests CALC1 and CALC 2 Requirements"@,
            )),
            seq![group_entry("CALC 1"@), group_entry("CALC 2"@)],
        ),
        (
            degree_entry((
                "COMP1"@,
                "Complex Test1"@,
                "Major"@,
                "Tests a complex scenario"@,
            )),
            seq![group_entry("Test1"@), group_entry("Test 2"@)],
        ),
        (
            degree_entry((
                "TEST2"@,
                "TEST MAJOR"@,
                "Major"@,
                "Tests CALC1 and MA16020 Requirements"@,
            )),
            seq![group_entry("CALC 1"@), simple_entry("MA 16020"@)],
        ),
        (
            degree_entry((
                "TEST3"@,
                "Test MAJOR"@,
                "Major"@,
                "Tests only MA 16020 as a Requirement. THIS SHOULD NOT BUILD"@,
            )),
            seq![simple_entry("MA 16020"@)],
        ),
        (
            degree_entry((
                "TEST1REV"@,
                "TEST MAJOR"@,
                "Major"@,
                "Tests CALC1 and CALC2 Requirements"@,
            )),
            seq![group_entry("CALC 2"@), group_entry("CALC 1"@)],
        ),
        (
            degree_entry((
                "CNITTEST"@,
                "CNIT TEST CLASSES"@,
                "Major"@,
                "Testing the schedule for lots of prereqs"@,
            )),
            seq![group_entry("CNIT TEST"@)],
        ),
        (
            degree_entry((
                "TEST2REV"@,
                "TEST 2 REVERSE MAJOR"@,
                "Major"@,
                "Tests CALC1 and MA16020 Requirements"@,
            )),
            seq![simple_entry("MA 16020"@), group_entry("CALC 1"@)],
        ),
        (
            degree_entry(("TEST4"@, "TEST4"@, "Major"@, "Tests Req1 and Req2t1"@)),
            seq![group_entry("Req1"@), group_entry("Req2t1"@)],
        ),
        (
            degree_entry(("TEST5"@, "TEST5"@, "Major"@, "Tests Req1 and Req2t2"@)),
            seq![group_entry("Req1"@), group_entry("Req2t2"@)],
        ),
        (
            degree_entry(("CSECC"@, "CSEC Core"@, "Major"@, "Tests CNIT CORE"@)),
            seq![
                group_entry("CNIT CORE"@),
                simple_entry("TECH 12000"@),
                simple_entry("CNIT 31500"@),
                simple_entry("CNIT 32200"@),
                simple_entry("CNIT 34400"@),
                simple_entry("CNIT 34010"@),
                simple_entry("CNIT 34220"@),
                simple_entry("CNIT 37000"@),
                simple_entry("CNIT 42000"@),
                simple_entry("CNIT 42200"@),
                simple_entry("CNIT 45500"@),
                simple_entry("CNIT 47000"@),
                simple_entry("CNIT 47100"@),
            ],
        ),
    ]
}

/// The full catalog: groups and classes with their prerequisites.
pub open spec fn full_catalog() -> Seq<(InstView, LogicView)> {
    seq![
        (
            group_entry("CNIT CORE"@),
            all_of(seq![
                simple_entry("CNIT 18000"@),
                simple_entry("CNIT 15501"@),
                simple_entry("CNIT 17600"@),
                simple_entry("CNIT 24200"@),
                simple_entry("CNIT 25501"@),
                simple_entry("CNIT 27000"@),
                simple_entry("CNIT 27200"@),
                simple_entry("CNIT 28000"@),
                simple_entry("CNIT 32000"@),
                simple_entry("CNIT 48000"@),
            ]),
        ),
        (
            group_entry("CNIT DB PROGRAMMING"@),
            one_of(seq![simple_entry("CNIT 37200"@), simple_entry("CNIT 39200"@)]),
        ),
        (
            group_entry("CNIT SYS/APP DEV"@),
            one_of(seq![simple_entry("CNIT 31500"@), simple_entry("CNIT 32500"@)]),
        ),
        (
            group_entry("GENERAL BUSINESS SELECTIVE"@),
            one_of(seq![
                simple_entry("IET 10400"@),
                simple_entry("IT 10400"@),
                simple_entry("TLI 11100"@),
                simple_entry("TLI 15200"@),
            ]),
        ),
        (
            group_entry("UNIV CORE"@),
            all_of(seq![
                simple_entry("SCLA 10100"@),
                simple_entry("SCLA 10200"@),
                simple_entry("TECH 12000"@),
                class_entry(("MA 16010"@, 5)),
                class_entry(("MA 16020"@, 5)),
                simple_entry("OLS 25200"@),
                simple_entry("TLI 11200"@),
                simple_entry("PHIL 15000"@),
                simple_entry("COMSEL 00000"@),
                simple_entry("ECONSEL 00000"@),
                simple_entry("SCISEL 00000"@),
                simple_entry("LABSCISEL 00000"@),
                simple_entry("ACCSEL 00000"@),
                simple_entry("STATSEL 00000"@),
                simple_entry("SPEAKSEL 00000"@),
                simple_entry("WRITINGSEL 00000"@),
                simple_entry("HUMSEL 00000"@),
                simple_entry("BEHAVSCISEL 00000"@),
                simple_entry("FOUNDSEL 00000"@),
            ]),
        ),
        (
            group_entry("CNIT/SAAD INTERDISC"@),
            all_of(seq![simple_entry("INTERDISC 00000"@)]),
        ),
        (
            simple_entry("CNIT 27000"@),
            all_of(seq![simple_entry("CNIT 17600"@), simple_entry("CNIT 15501"@)]),
        ),
        (
            simple_entry("CNIT 28000"@),
            all_of(seq![simple_entry("CNIT 18000"@)]),
        ),
        (
            simple_entry("CNIT 25501"@),
            all_of(seq![simple_entry("CNIT 15501"@)]),
        ),
        (
            simple_entry("CNIT 24200"@),
            all_of(seq![simple_entry("CNIT 17600"@)]),
        ),
        (
            class_entry(("CNIT 34010"@, 1)),
            all_of(seq![simple_entry("CNIT 24200"@)]),
        ),
        (
            simple_entry("CNIT 34400"@),
            all_of(seq![simple_entry("CNIT 24200"@), simple_entry("CNIT 27000"@)]),
        ),
        (
            simple_entry("CNIT 32000"@),
            all_of(seq![simple_entry("TECH 12000"@)]),
        ),
        (
            simple_entry("CNIT 37000"@),
            all_of(seq![simple_entry("CNIT 24200"@), simple_entry("CNIT 27000"@)]),
        ),
        (
            simple_entry("CNIT 32200"@),
            all_of(seq![simple_entry("CNIT 27000"@)]),
        ),
        (
            simple_entry("CNIT 31500"@),
            all_of(seq![simple_entry("CNIT 25501"@)]),
        ),
        (
            simple_entry("CNIT 34220"@),
            one_of(seq![simple_entry("CNIT 34000"@), class_entry(("CNIT 34010"@, 1))]),
        ),
        (
            simple_entry("CNIT 47000"@),
            all_of(seq![simple_entry("CNIT 32000"@)]),
        ),
        (
            simple_entry("CNIT 48000"@),
            all_of(seq![simple_entry("CNIT 28000"@)]),
        ),
        (
            simple_entry("CNIT 47100"@),
            all_of(seq![simple_entry("CNIT 45500"@), simple_entry("CNIT 37000"@)]),
        ),
        (
            simple_entry("CNIT 34000"@),
            all_of(seq![simple_entry("CNIT 24200"@)]),
        ),
        (
            simple_entry("CNIT 34500"@),
            all_of(seq![simple_entry("CNIT 24200"@), simple_entry("CNIT 24000"@)]),
        ),
        (
            simple_entry("CNIT 34600"@),
            all_of(seq![simple_entry("CNIT 24000"@), simple_entry("CNIT 24200"@)]),
        ),
        (
            group_entry("NETWORK ENGR GROUPED 455 PREREQ"@),
            one_of(seq![simple_entry("CNIT 34500"@), simple_entry("CNIT 34400"@)]),
        ),
        (
            simple_entry("CNIT 45500"@),
            all_of(seq![
                simple_entry("CNIT 34220"@),
                group_entry("NETWORK ENGR GROUPED 455 PREREQ"@),
            ]),
        ),
        (class_entry(("MA 16020"@, 5)), all_of(seq![class_entry(("MA 16010"@, 5))])),
    ]
}

/// The degrees of the full catalog with their requirements.
pub open spec fn full_requirements() -> Seq<(InstView, Seq<InstView>)> {
    seq![
        (
            degree_entry((
                "CNIT"@,
                "Computer and Information Technology"@,
                "Major"@,
                "Do things in polytech"@,
            )),
            seq![
                group_entry("CNIT CORE"@),
                group_entry("CNIT DB PROGRAMMING"@),
                group_entry("CNIT SYS/APP DEV"@),
                group_entry("CNIT/SAAD INTERDISC"@),
                group_entry("CNIT IT SELECTIVES"@),
                group_entry("UNIV CORE"@),
                group_entry("GENERAL BUSINESS SELECTIVE"@),
                simple_entry("FREE 00000"@),
            ],
        ),
        (
            degree_entry(("CSEC"@, "Cybersecurity"@, "Major"@, "Do hacking things"@)),
            seq![
                group_entry("CNIT CORE"@),
                simple_entry("CNIT 31500"@),
                simple_entry("CNIT 32200"@),
                simple_entry("CNIT 34400"@),
                simple_entry("CNIT 34010"@),
                simple_entry("CNIT 34220"@),
                simple_entry("CNIT 37000"@),
                simple_entry("CNIT 42000"@),
                simple_entry("CNIT 42200"@),
                simple_entry("CNIT 45500"@),
                simple_entry("CNIT 47000"@),
                simple_entry("CNIT 47100"@),
                group_entry("CSEC SELECTIVES"@),
                group_entry("CSEC INTERDISC"@),
                group_entry("UNIV CORE"@),
            ],
        ),
        (
            degree_entry((
                "NENT"@,
                "Network Engineering Technology"@,
                "Major"@,
                "Do networking and be super happy absolutely"@,
            )),
            seq![
                group_entry("CNIT CORE"@),
                simple_entry("CNIT 31500"@),
                simple_entry("CNIT 24000"@),
                simple_entry("CNIT 34500"@),
                simple_entry("CNIT 34600"@),
                simple_entry("CNIT 34000"@),
                simple_entry("CNIT 34210"@),
                simple_entry("CNIT 34220"@),
                simple_entry("CNIT 45500"@),
                group_entry("NENT IT SELECTIVES"@),
                group_entry("NENT INTERDISC"@),
                group_entry("UNIV CORE"@),
                group_entry("GENERAL BUSINESS SELECTIVE"@),
            ],
        ),
        (
            degree_entry((
                "SAAD"@,
                "Systems Analysis and Design"@,
                "Major"@,
                "dont be SAAD be happy"@,
            )),
            seq![
                group_entry("CNIT CORE"@),
                simple_entry("CNIT 39200"@),
                group_entry("CNIT SYS/APP DEV"@),
                simple_entry("CNIT 38000"@),
                simple_entry("CGT 25600"@),
                group_entry("SAAD SELECTIVES"@),
                group_entry("SAAD IT SELECTIVES"@),
                group_entry("UNIV CORE"@),
                group_entry("CNIT/SAAD INTERDISC"@),
            ],
        ),
    ]
}

/// The entries of the test catalog.
pub(crate) fn test_catalog_entries() -> (v: Vec<(InstantiationType<'static>, LogicalType<'static>)>)
    ensures
        catalog_view(v@) == test_catalog(),
{
    let v = vec![
        (
            InstantiationType::Group("CALC 1"),
            LogicalType::OR(vec![InstantiationType::Class(("MA 16010", 5)), InstantiationType::Class(("MA 16200", 4))]),
        ),
        (
            InstantiationType::Group("CNIT CORE"),
            LogicalType::AND(vec![
                InstantiationType::SimpleClass("CNIT 18000"),
                InstantiationType::SimpleClass("CNIT 15501"),
                InstantiationType::SimpleClass("CNIT 17600"),
                InstantiationType::SimpleClass("CNIT 24200"),
                InstantiationType::SimpleClass("CNIT 25501"),
                InstantiationType::SimpleClass("CNIT 27000"),
                InstantiationType::SimpleClass("CNIT 27200"),
                InstantiationType::SimpleClass("CNIT 28000"),
                InstantiationType::SimpleClass("CNIT 32000"),
                InstantiationType::SimpleClass("CNIT 48000"),
            ]),
        ),
        (
            InstantiationType::Group("CNIT TEST"),
            LogicalType::AND(vec![
                InstantiationType::SimpleClass("CNIT 15501"),
                InstantiationType::SimpleClass("CNIT 17600"),
                InstantiationType::SimpleClass("CNIT 24200"),
                InstantiationType::SimpleClass("CNIT 27000"),
                InstantiationType::SimpleClass("CNIT 47100"),
                InstantiationType::SimpleClass("TECH 12000"),
                InstantiationType::SimpleClass("CNIT 45500"),
                InstantiationType::SimpleClass("CNIT 37000"),
                InstantiationType::SimpleClass("CNIT 32000"),
                InstantiationType::SimpleClass("CNIT 47000"),
                InstantiationType::SimpleClass("CNIT 34400"),
            ]),
        ),
        (
            InstantiationType::SimpleClass("CNIT 25501"),
            LogicalType::AND(vec![InstantiationType::SimpleClass("CNIT 15501")]),
        ),
        (
            InstantiationType::SimpleClass("CNIT 24200"),
            LogicalType::AND(vec![InstantiationType::SimpleClass("CNIT 17600")]),
        ),
        (
            InstantiationType::Class(("CNIT 34010", 1)),
            LogicalType::AND(vec![InstantiationType::SimpleClass("CNIT 24200")]),
        ),
        (
            InstantiationType::SimpleClass("CNIT 34400"),
            LogicalType::AND(vec![InstantiationType::SimpleClass("CNIT 24200"), InstantiationType::SimpleClass("CNIT 27000")]),
        ),
        (
            InstantiationType::SimpleClass("CNIT 32000"),
            LogicalType::AND(vec![InstantiationType::SimpleClass("TECH 12000")]),
        ),
        (
            InstantiationType::SimpleClass("CNIT 37000"),
            LogicalType::AND(vec![InstantiationType::SimpleClass("CNIT 24200"), InstantiationType::SimpleClass("CNIT 27000")]),
        ),
        (
            InstantiationType::SimpleClass("CNIT 32200"),
            LogicalType::AND(vec![InstantiationType::SimpleClass("CNIT 27000")]),
        ),
        (
            InstantiationType::SimpleClass("CNIT 31500"),
            LogicalType::AND(vec![InstantiationType::SimpleClass("CNIT 25501")]),
        ),
        (
            InstantiationType::SimpleClass("CNIT 34220"),
            LogicalType::OR(vec![InstantiationType::SimpleClass("CNIT 34000"), InstantiationType::Class(("CNIT 34010", 1))]),
        ),
        (
            InstantiationType::SimpleClass("CNIT 47000"),
            LogicalType::AND(vec![InstantiationType::SimpleClass("CNIT 32000")]),
        ),
        (
            InstantiationType::SimpleClass("CNIT 47100"),
            LogicalType::AND(vec![InstantiationType::SimpleClass("CNIT 45500"), InstantiationType::SimpleClass("CNIT 37000")]),
        ),
        (
            InstantiationType::SimpleClass("CNIT 48000"),
            LogicalType::AND(vec![InstantiationType::SimpleClass("CNIT 28000")]),
        ),
        (
            InstantiationType::SimpleClass("CNIT 34000"),
            LogicalType::AND(vec![InstantiationType::SimpleClass("CNIT 24200")]),
        ),
        (
            InstantiationType::SimpleClass("CNIT 27000"),
            LogicalType::AND(vec![InstantiationType::SimpleClass("CNIT 17600"), InstantiationType::SimpleClass("CNIT 15501")]),
        ),
        (
            InstantiationType::SimpleClass("CNIT 28000"),
            LogicalType::AND(vec![InstantiationType::SimpleClass("CNIT 18000")]),
        ),
        (
            InstantiationType::Group("NETWORK ENGR GROUPED 455 PREREQ"),
            LogicalType::OR(vec![InstantiationType::SimpleClass("CNIT 34500"), InstantiationType::SimpleClass("CNIT 34400")]),
        ),
        (
            InstantiationType::SimpleClass("CNIT 45500"),
            LogicalType::OR(vec![
                InstantiationType::SimpleClass("CNIT 34220"),
                InstantiationType::Group("NETWORK ENGR GROUPED 455 PREREQ"),
            ]),
        ),
        (
            InstantiationType::Group("CALC 2"),
            LogicalType::OR(vec![InstantiationType::Class(("MA 16020", 5)), InstantiationType::Class(("MA 16600", 4))]),
        ),
        (
            InstantiationType::Group("Req1"),
            LogicalType::OR(vec![InstantiationType::Group("TwoClasses"), InstantiationType::Class(("Normal", 3))]),
        ),
        (
            InstantiationType::Group("TwoClasses"),
            LogicalType::AND(vec![InstantiationType::Class(("ezclass1", 1)), InstantiationType::Class(("ezclass2", 2))]),
        ),
        (InstantiationType::Group("Req2t1"), LogicalType::AND(vec![InstantiationType::Class(("Normal2t1", 3))])),
        (InstantiationType::Group("Req2t2"), LogicalType::AND(vec![InstantiationType::Class(("Normal2t2", 3))])),
        (InstantiationType::SimpleClass("Normal2t2"), LogicalType::AND(vec![InstantiationType::Group("TwoClasses")])),
        (InstantiationType::SimpleClass("Normal2t1"), LogicalType::AND(vec![InstantiationType::SimpleClass("Normal")])),
        (InstantiationType::SimpleClass("MA 16020"), LogicalType::AND(vec![InstantiationType::SimpleClass("MA 16010")])),
        (InstantiationType::SimpleClass("MA 16600"), LogicalType::AND(vec![InstantiationType::SimpleClass("MA 16200")])),
        (
            InstantiationType::Group("Test1"),
            LogicalType::AND(vec![
                InstantiationType::Class(("1class.1", 3)),
                InstantiationType::Class(("1class.2", 3)),
                InstantiationType::Class(("2class.1", 4)),
            ]),
        ),
        (InstantiationType::Group("Test2"), LogicalType::AND(vec![InstantiationType::Class(("2class.2", 3))])),
        (
            InstantiationType::Group("2class.2 prereqs"),
            LogicalType::OR(vec![InstantiationType::SimpleClass("3class.1"), InstantiationType::SimpleClass("2class.1")]),
        ),
        (
            InstantiationType::SimpleClass("2class.2"),
            LogicalType::OR(vec![InstantiationType::SimpleClass("dont pick me"), InstantiationType::Group("2class.2 prereqs")]),
        ),
    ];
    assert(catalog_view(v@) =~~= test_catalog());
    v
}

/// The test degrees with their requirements.
pub(crate) fn test_requirement_entries() -> (v: Vec<(InstantiationType<'static>, Vec<InstantiationType<'static>>)>)
    ensures
        requirements_view(v@) == test_requirements(),
{
    let v = vec![
        (
            InstantiationType::Degree((
                "TEST1",
                "TEST MAJOR",
                "Major",
                "Tests CALC1 and CALC 2 Requirements",
            )),
            vec![InstantiationType::Group("CALC 1"), InstantiationType::Group("CALC 2")],
        ),
        (
            InstantiationType::Degree((
                "COMP1",
                "Complex Test1",
                "Major",
                "Tests a complex scenario",
            )),
            vec![InstantiationType::Group("Test1"), InstantiationType::Group("Test 2")],
        ),
        (
            InstantiationType::Degree((
                "TEST2",
                "TEST MAJOR",
                "Major",
                "Tests CALC1 and MA16020 Requirements",
            )),
            vec![InstantiationType::Group("CALC 1"), InstantiationType::SimpleClass("MA 16020")],
        ),
        (
            InstantiationType::Degree((
                "TEST3",
                "Test MAJOR",
                "Major",
                "Tests only MA 16020 as a Requirement. THIS SHOULD NOT BUILD",
            )),
            vec![InstantiationType::SimpleClass("MA 16020")],
        ),
        (
            InstantiationType::Degree((
                "TEST1REV",
                "TEST MAJOR",
                "Major",
                "Tests CALC1 and CALC2 Requirements",
            )),
            vec![InstantiationType::Group("CALC 2"), InstantiationType::Group("CALC 1")],
        ),
        (
            InstantiationType::Degree((
                "CNITTEST",
                "CNIT TEST CLASSES",
                "Major",
                "Testing the schedule for lots of prereqs",
            )),
            vec![InstantiationType::Group("CNIT TEST")],
        ),
        (
            InstantiationType::Degree((
                "TEST2REV",
                "TEST 2 REVERSE MAJOR",
                "Major",
                "Tests CALC1 and MA16020 Requirements",
            )),
            vec![InstantiationType::SimpleClass("MA 16020"), InstantiationType::Group("CALC 1")],
        ),
        (
            InstantiationType::Degree(("TEST4", "TEST4", "Major", "Tests Req1 and Req2t1")),
            vec![InstantiationType::Group("Req1"), InstantiationType::Group("Req2t1")],
        ),
        (
            InstantiationType::Degree(("TEST5", "TEST5", "Major", "Tests Req1 and Req2t2")),
            vec![InstantiationType::Group("Req1"), InstantiationType::Group("Req2t2")],
        ),
        (
            InstantiationType::Degree(("CSECC", "CSEC Core", "Major", "Tests CNIT CORE")),
            vec![
                InstantiationType::Group("CNIT CORE"),
                InstantiationType::SimpleClass("TECH 12000"),
                InstantiationType::SimpleClass("CNIT 31500"),
                InstantiationType::SimpleClass("CNIT 32200"),
                InstantiationType::SimpleClass("CNIT 34400"),
                InstantiationType::SimpleClass("CNIT 34010"),
                InstantiationType::SimpleClass("CNIT 34220"),
                InstantiationType::SimpleClass("CNIT 37000"),
                InstantiationType::SimpleClass("CNIT 42000"),
                InstantiationType::SimpleClass("CNIT 42200"),
                InstantiationType::SimpleClass("CNIT 45500"),
                InstantiationType::SimpleClass("CNIT 47000"),
                InstantiationType::SimpleClass("CNIT 47100"),
            ],
        ),
    ];
    assert(requirements_view(v@) =~~= test_requirements());
    v
}

/// The entries of the full catalog.
pub(crate) fn full_catalog_entries() -> (v: Vec<(InstantiationType<'static>, LogicalType<'static>)>)
    ensures
        catalog_view(v@) == full_catalog(),
{
    let v = vec![
        (
            InstantiationType::Group("CNIT CORE"),
            LogicalType::AND(vec![
                InstantiationType::SimpleClass("CNIT 18000"),
                InstantiationType::SimpleClass("CNIT 15501"),
                InstantiationType::SimpleClass("CNIT 17600"),
                InstantiationType::SimpleClass("CNIT 24200"),
                InstantiationType::SimpleClass("CNIT 25501"),
                InstantiationType::SimpleClass("CNIT 27000"),
                InstantiationType::SimpleClass("CNIT 27200"),
                InstantiationType::SimpleClass("CNIT 28000"),
                InstantiationType::SimpleClass("CNIT 32000"),
                InstantiationType::SimpleClass("CNIT 48000"),
            ]),
        ),
        (
            InstantiationType::Group("CNIT DB PROGRAMMING"),
            LogicalType::OR(vec![InstantiationType::SimpleClass("CNIT 37200"), InstantiationType::SimpleClass("CNIT 39200")]),
        ),
        (
            InstantiationType::Group("CNIT SYS/APP DEV"),
            LogicalType::OR(vec![InstantiationType::SimpleClass("CNIT 31500"), InstantiationType::SimpleClass("CNIT 32500")]),
        ),
        (
            InstantiationType::Group("GENERAL BUSINESS SELECTIVE"),
            LogicalType::OR(vec![
                InstantiationType::SimpleClass("IET 10400"),
                InstantiationType::SimpleClass("IT 10400"),
                InstantiationType::SimpleClass("TLI 11100"),
                InstantiationType::SimpleClass("TLI 15200"),
            ]),
        ),
        (
            InstantiationType::Group("UNIV CORE"),
            LogicalType::AND(vec![
                InstantiationType::SimpleClass("SCLA 10100"),
                InstantiationType::SimpleClass("SCLA 10200"),
                InstantiationType::SimpleClass("TECH 12000"),
                InstantiationType::Class(("MA 16010", 5)),
                InstantiationType::Class(("MA 16020", 5)),
                InstantiationType::SimpleClass("OLS 25200"),
                InstantiationType::SimpleClass("TLI 11200"),
                InstantiationType::SimpleClass("PHIL 15000"),
                InstantiationType::SimpleClass("COMSEL 00000"),
                InstantiationType::SimpleClass("ECONSEL 00000"),
                InstantiationType::SimpleClass("SCISEL 00000"),
                InstantiationType::SimpleClass("LABSCISEL 00000"),
                InstantiationType::SimpleClass("ACCSEL 00000"),
                InstantiationType::SimpleClass("STATSEL 00000"),
                InstantiationType::SimpleClass("SPEAKSEL 00000"),
                InstantiationType::SimpleClass("WRITINGSEL 00000"),
                InstantiationType::SimpleClass("HUMSEL 00000"),
                InstantiationType::SimpleClass("BEHAVSCISEL 00000"),
                InstantiationType::SimpleClass("FOUNDSEL 00000"),
            ]),
        ),
        (
            InstantiationType::Group("CNIT/SAAD INTERDISC"),
            LogicalType::AND(vec![InstantiationType::SimpleClass("INTERDISC 00000")]),
        ),
        (
            InstantiationType::SimpleClass("CNIT 27000"),
            LogicalType::AND(vec![InstantiationType::SimpleClass("CNIT 17600"), InstantiationType::SimpleClass("CNIT 15501")]),
        ),
        (
            InstantiationType::SimpleClass("CNIT 28000"),
            LogicalType::AND(vec![InstantiationType::SimpleClass("CNIT 18000")]),
        ),
        (
            InstantiationType::SimpleClass("CNIT 25501"),
            LogicalType::AND(vec![InstantiationType::SimpleClass("CNIT 15501")]),
        ),
        (
            InstantiationType::SimpleClass("CNIT 24200"),
            LogicalType::AND(vec![InstantiationType::SimpleClass("CNIT 17600")]),
        ),
        (
            InstantiationType::Class(("CNIT 34010", 1)),
            LogicalType::AND(vec![InstantiationType::SimpleClass("CNIT 24200")]),
        ),
        (
            InstantiationType::SimpleClass("CNIT 34400"),
            LogicalType::AND(vec![InstantiationType::SimpleClass("CNIT 24200"), InstantiationType::SimpleClass("CNIT 27000")]),
        ),
        (
            InstantiationType::SimpleClass("CNIT 32000"),
            LogicalType::AND(vec![InstantiationType::SimpleClass("TECH 12000")]),
        ),
        (
            InstantiationType::SimpleClass("CNIT 37000"),
            LogicalType::AND(vec![InstantiationType::SimpleClass("CNIT 24200"), InstantiationType::SimpleClass("CNIT 27000")]),
        ),
        (
            InstantiationType::SimpleClass("CNIT 32200"),
            LogicalType::AND(vec![InstantiationType::SimpleClass("CNIT 27000")]),
        ),
        (
            InstantiationType::SimpleClass("CNIT 31500"),
            LogicalType::AND(vec![InstantiationType::SimpleClass("CNIT 25501")]),
        ),
        (
            InstantiationType::SimpleClass("CNIT 34220"),
            LogicalType::OR(vec![InstantiationType::SimpleClass("CNIT 34000"), InstantiationType::Class(("CNIT 34010", 1))]),
        ),
        (
            InstantiationType::SimpleClass("CNIT 47000"),
            LogicalType::AND(vec![InstantiationType::SimpleClass("CNIT 32000")]),
        ),
        (
            InstantiationType::SimpleClass("CNIT 48000"),
            LogicalType::AND(vec![InstantiationType::SimpleClass("CNIT 28000")]),
        ),
        (
            InstantiationType::SimpleClass("CNIT 47100"),
            LogicalType::AND(vec![InstantiationType::SimpleClass("CNIT 45500"), InstantiationType::SimpleClass("CNIT 37000")]),
        ),
        (
            InstantiationType::SimpleClass("CNIT 34000"),
            LogicalType::AND(vec![InstantiationType::SimpleClass("CNIT 24200")]),
        ),
        (
            InstantiationType::SimpleClass("CNIT 34500"),
            LogicalType::AND(vec![InstantiationType::SimpleClass("CNIT 24200"), InstantiationType::SimpleClass("CNIT 24000")]),
        ),
        (
            InstantiationType::SimpleClass("CNIT 34600"),
            LogicalType::AND(vec![InstantiationType::SimpleClass("CNIT 24000"), InstantiationType::SimpleClass("CNIT 24200")]),
        ),
        (
            InstantiationType::Group("NETWORK ENGR GROUPED 455 PREREQ"),
            LogicalType::OR(vec![InstantiationType::SimpleClass("CNIT 34500"), InstantiationType::SimpleClass("CNIT 34400")]),
        ),
        (
            InstantiationType::SimpleClass("CNIT 45500"),
            LogicalType::AND(vec![
                InstantiationType::SimpleClass("CNIT 34220"),
                InstantiationType::Group("NETWORK ENGR GROUPED 455 PREREQ"),
            ]),
        ),
        (InstantiationType::Class(("MA 16020", 5)), LogicalType::AND(vec![InstantiationType::Class(("MA 16010", 5))])),
    ];
    assert(catalog_view(v@) =~~= full_catalog());
    v
}

/// The degrees of the full catalog with their requirements.
pub(crate) fn full_requirement_entries() -> (v: Vec<(InstantiationType<'static>, Vec<InstantiationType<'static>>)>)
    ensures
        requirements_view(v@) == full_requirements(),
{
    let v = vec![
        (
            InstantiationType::Degree((
                "CNIT",
                "Computer and Information Technology",
                "Major",
                "Do things in polytech",
            )),
            vec![
                InstantiationType::Group("CNIT CORE"),
                InstantiationType::Group("CNIT DB PROGRAMMING"),
                InstantiationType::Group("CNIT SYS/APP DEV"),
                InstantiationType::Group("CNIT/SAAD INTERDISC"),
                InstantiationType::Group("CNIT IT SELECTIVES"),
                InstantiationType::Group("UNIV CORE"),
                InstantiationType::Group("GENERAL BUSINESS SELECTIVE"),
                InstantiationType::SimpleClass("FREE 00000"),
            ],
        ),
        (
            InstantiationType::Degree(("CSEC", "Cybersecurity", "Major", "Do hacking things")),
            vec![
                InstantiationType::Group("CNIT CORE"),
                InstantiationType::SimpleClass("CNIT 31500"),
                InstantiationType::SimpleClass("CNIT 32200"),
                InstantiationType::SimpleClass("CNIT 34400"),
                InstantiationType::SimpleClass("CNIT 34010"),
                InstantiationType::SimpleClass("CNIT 34220"),
                InstantiationType::SimpleClass("CNIT 37000"),
                InstantiationType::SimpleClass("CNIT 42000"),
                InstantiationType::SimpleClass("CNIT 42200"),
                InstantiationType::SimpleClass("CNIT 45500"),
                InstantiationType::SimpleClass("CNIT 47000"),
                InstantiationType::SimpleClass("CNIT 47100"),
                InstantiationType::Group("CSEC SELECTIVES"),
                InstantiationType::Group("CSEC INTERDISC"),
                InstantiationType::Group("UNIV CORE"),
            ],
        ),
        (
            InstantiationType::Degree((
                "NENT",
                "Network Engineering Technology",
                "Major",
                "Do networking and be super happy absolutely",
            )),
            vec![
                InstantiationType::Group("CNIT CORE"),
                InstantiationType::SimpleClass("CNIT 31500"),
                InstantiationType::SimpleClass("CNIT 24000"),
                InstantiationType::SimpleClass("CNIT 34500"),
                InstantiationType::SimpleClass("CNIT 34600"),
                InstantiationType::SimpleClass("CNIT 34000"),
                InstantiationType::SimpleClass("CNIT 34210"),
                InstantiationType::SimpleClass("CNIT 34220"),
                InstantiationType::SimpleClass("CNIT 45500"),
                InstantiationType::Group("NENT IT SELECTIVES"),
                InstantiationType::Group("NENT INTERDISC"),
                InstantiationType::Group("UNIV CORE"),
                InstantiationType::Group("GENERAL BUSINESS SELECTIVE"),
            ],
        ),
        (
            InstantiationType::Degree((
                "SAAD",
                "Systems Analysis and Design",
                "Major",
                "dont be SAAD be happy",
            )),
            vec![
                InstantiationType::Group("CNIT CORE"),
                InstantiationType::SimpleClass("CNIT 39200"),
                InstantiationType::Group("CNIT SYS/APP DEV"),
                InstantiationType::SimpleClass("CNIT 38000"),
                InstantiationType::SimpleClass("CGT 25600"),
                InstantiationType::Group("SAAD SELECTIVES"),
                InstantiationType::Group("SAAD IT SELECTIVES"),
                InstantiationType::Group("UNIV CORE"),
                InstantiationType::Group("CNIT/SAAD INTERDISC"),
            ],
        ),
    ];
    assert(requirements_view(v@) =~~= full_requirements());
    v
}

} // verus!
