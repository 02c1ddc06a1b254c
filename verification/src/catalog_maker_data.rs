use vstd::prelude::*;
use crate::catalog_maker::{maker_catalog_view, maker_requirements_view, EntryView, InstantiationType, LogicalType, MakerLogicView};

verus! {

/// A requirement that is only a name.
pub open spec fn reg_of(name: Seq<char>) -> EntryView {
    EntryView::Reg(name)
}

/// A class of three credits.
pub open spec fn simple_of(name: Seq<char>) -> EntryView {
    EntryView::SimpleClass(name)
}

/// A class with its credits.
pub open spec fn class_of(c: (Seq<char>, i32)) -> EntryView {
    EntryView::Class(c.0, c.1)
}

/// A degree: code, name and type.
pub open spec fn degree_of(d: (Seq<char>, Seq<char>, Seq<char>)) -> EntryView {
    EntryView::Degree(d.0, d.1, d.2)
}

/// All of `entries`.
pub open spec fn and_of(entries: Seq<EntryView>) -> MakerLogicView {
    MakerLogicView { name: "AND"@, entries }
}

/// One of `entries`.
pub open spec fn or_of(entries: Seq<EntryView>) -> MakerLogicView {
    MakerLogicView { name: "OR"@, entries }
}

/// The catalog lines: entry, logic and association type.
pub open spec fn maker_catalog() -> Seq<(EntryView, MakerLogicView, Seq<char>)> {
    seq![
        (
            reg_of("CNIT CORE"@),
            and_of(seq![
                simple_of("CNIT 18000"@),
                simple_of("CNIT 15501"@),
                simple_of("CNIT 17600"@),
                simple_of("CNIT 24200"@),
                simple_of("CNIT 25501"@),
                simple_of("CNIT 27000"@),
                simple_of("CNIT 27200"@),
                simple_of("CNIT 28000"@),
                simple_of("CNIT 32000"@),
                simple_of("CNIT 48000"@)
            ]),
            "requirement"@
        ),
        (
            reg_of("CNIT DB PROGRAMMING"@),
            or_of(seq![
                simple_of("CNIT 37200"@),
                simple_of("CNIT 39200"@)
            ]),
            "requirement"@
        ),
        (
            reg_of("CNIT SYS/APP DEV"@),
            or_of(seq![
                simple_of("CNIT 31500"@),
                simple_of("CNIT 32500"@)
            ]),
            "requirement"@
        ),
        (
            reg_of("GENERAL BUSINESS SELECTIVE"@),
            or_of(seq![
                simple_of("IET 10400"@),
                simple_of("IT 10400"@),
                simple_of("TLI 11100"@),
                simple_of("TLI 15200"@)
            ]),
            "requirement"@
        ),
        (
            reg_of("UNIV CORE"@),
            and_of(seq![
                simple_of("SCLA 10100"@),
                simple_of("SCLA 10200"@),
                simple_of("TECH 12000"@),
                class_of(("MA 16010"@, 5)),
                class_of(("MA 16020"@, 5)),
                simple_of("OLS 25200"@),
                simple_of("TLI 11200"@),
                simple_of("PHIL 15000"@),
                simple_of("COMSEL 00000"@),
                simple_of("ECONSEL 00000"@),
                simple_of("SCISEL 00000"@),
                simple_of("LABSCISEL 00000"@),
                simple_of("ACCSEL 00000"@),
                simple_of("STATSEL 00000"@),
                simple_of("SPEAKSEL 00000"@),
                simple_of("WRITINGSEL 00000"@),
                simple_of("HUMSEL 00000"@),
                simple_of("BEHAVSCISEL 00000"@),
                simple_of("FOUNDSEL 00000"@)
            ]),
            "requirement"@
        ),
        (
            reg_of("CNIT/SAAD INTERDISC"@), 
            and_of(seq![
                simple_of("INTERDISC 00000"@)
            ]),
            "requirement"@
        ),
        (
            simple_of("CNIT 27000"@),
            and_of(seq![
                simple_of("CNIT 17600"@),
                simple_of("CNIT 15501"@)
            ]),
            "requisite"@
        ),
        (
            simple_of("CNIT 28000"@),
            and_of(seq![
                simple_of("CNIT 18000"@)
            ]),
            "requisite"@
        ),
        (
            simple_of("CNIT 25501"@),
            and_of(seq![
                simple_of("CNIT 15501"@)
            ]),
            "requisite"@
        ),
        (
            simple_of("CNIT 24200"@),
            and_of(seq![
                simple_of("CNIT 17600"@)
            ]),
            "requisite"@
        ),
        (
            class_of(("CNIT 34010"@, 1)),
            and_of(seq![
                simple_of("CNIT 24200"@)
            ]),
            "requisite"@
        ),
        (
            simple_of("CNIT 34400"@),
            and_of(seq![
                simple_of("CNIT 24200"@),
                simple_of("CNIT 27000"@)
            ]),
            "requisite"@
        ),
        (
            simple_of("CNIT 32000"@),
            and_of(seq![
                simple_of("TECH 12000"@)
            ]),
            "requisite"@
        ),
        (
            simple_of("CNIT 37000"@),
            and_of(seq![
                simple_of("CNIT 24200"@),
                simple_of("CNIT 27000"@)
            ]),
            "requisite"@
        ),
        (
            simple_of("CNIT 32200"@),
            and_of(seq![
                simple_of("CNIT 27000"@)
            ]),
            "requisite"@
        ),
        (
            simple_of("CNIT 31500"@),
            and_of(seq![
                simple_of("CNIT 25501"@)
            ]),
            "requisite"@
        ),
        (
            simple_of("CNIT 34220"@),
            or_of(seq![
                simple_of("CNIT 34000"@),
                class_of(("CNIT 34010"@, 1))
            ]),
            "requisite"@
        ),
        (
            simple_of("CNIT 47000"@),
            and_of(seq![
                simple_of("CNIT 32000"@)
            ]),
            "requisite"@
        ),
        (
            simple_of("CNIT 48000"@),
            and_of(seq![
                simple_of("CNIT 28000"@)
            ]),
            "requisite"@
        ),
        (
            simple_of("CNIT 47100"@),
            and_of(seq![
                simple_of("CNIT 45500"@),
                simple_of("CNIT 37000"@)
            ]),
            "requisite"@
        ),
        (
            simple_of("CNIT 34000"@),
            and_of(seq![
                simple_of("CNIT 24200"@)
            ]),
            "requisite"@
        ),
        (
            simple_of("CNIT 34500"@),
            and_of(seq![
                simple_of("CNIT 24200"@),
                simple_of("CNIT 24000"@)
            ]),
            "requisite"@
        ),
        (
            simple_of("CNIT 34600"@),
            and_of(seq![
                simple_of("CNIT 24000"@),
                simple_of("CNIT 24200"@)
            ]),
            "requisite"@
        ),
        (
            reg_of("NETWORK ENGR GROUPED 455 PREREQ"@),
            or_of(seq![
                simple_of("CNIT 34500"@),
                simple_of("CNIT 34400"@)
            ]),
            "requirement"@
        ),
        (
            simple_of("CNIT 45500"@),
            and_of(seq![
                simple_of("CNIT 34220"@),
                reg_of("NETWORK ENGR GROUPED 455 PREREQ"@)
            ]),
            "requisite"@
        ),
        (
            class_of(("MA 16020"@, 5)),
            or_of(seq![
                class_of(("MA 16010"@, 5))
            ]),
            "requisite"@
        )
    ]
}

/// The degrees with their requirements.
pub open spec fn maker_requirements() -> Seq<(EntryView, Seq<EntryView>)> {
    seq![
        (
            degree_of((
                "CNIT"@,
                "Computer and Information Technology"@,
                "Major"@,
            )),
            seq![
                reg_of("CNIT CORE"@),
                reg_of("CNIT DB PROGRAMMING"@),
                reg_of("CNIT SYS/APP DEV"@),
                reg_of("CNIT/SAAD INTERDISC"@),
                reg_of("CNIT IT SELECTIVES"@),
                reg_of("UNIV CORE"@),
                reg_of("GENERAL BUSINESS SELECTIVE"@),
                simple_of("FREE 00000"@)
            ]
        ),
        (
            degree_of((
                "CSEC"@,
                "Cybersecurity"@,
                "Major"@,
            )),
            seq![
                reg_of("CNIT CORE"@),
                simple_of("CNIT 31500"@),
                simple_of("CNIT 32200"@),
                simple_of("CNIT 34400"@),
                simple_of("CNIT 34010"@),
                simple_of("CNIT 34220"@),
                simple_of("CNIT 37000"@),
                simple_of("CNIT 42000"@),
                simple_of("CNIT 42200"@),
                simple_of("CNIT 45500"@),
                simple_of("CNIT 47000"@),
                simple_of("CNIT 47100"@),
                reg_of("CSEC SELECTIVES"@),
                reg_of("CSEC INTERDISC"@),
                reg_of("UNIV CORE"@)
            ]
        ),
        (
            degree_of((
                "NENT"@,
                "Network Engineering Technology"@,
                "Major"@
            )),
            seq![
                reg_of("CNIT CORE"@),
                simple_of("CNIT 31500"@),
                simple_of("CNIT 24000"@),
                simple_of("CNIT 34500"@),
                simple_of("CNIT 34600"@),
                simple_of("CNIT 34000"@),
                simple_of("CNIT 34210"@),
                simple_of("CNIT 34220"@),
                simple_of("CNIT 45500"@),
                reg_of("NENT IT SELECTIVES"@),
                reg_of("NENT INTERDISC"@),
                reg_of("UNIV CORE"@),
                reg_of("GENERAL BUSINESS SELECTIVE"@)
            ]
        ),
        (
            degree_of((
                "SAAD"@,
                "Systems Analysis and Design"@,
                "Major"@
            )),
            seq![
                reg_of("CNIT CORE"@),
                simple_of("CNIT 39200"@),
                reg_of("CNIT SYS/APP DEV"@),
                simple_of("CNIT 38000"@),
                simple_of("CGT 25600"@),
                reg_of("SAAD SELECTIVES"@),
                reg_of("SAAD IT SELECTIVES"@),
                reg_of("UNIV CORE"@),
                reg_of("CNIT/SAAD INTERDISC"@)
            ]
        )
    ]
}

/// The catalog lines.
pub(crate) fn maker_catalog_entries() -> (v: Vec<(InstantiationType<'static>, LogicalType<'static>, &'static str)>)
    ensures
        maker_catalog_view(v@) == maker_catalog(),
{
    let v = vec![
        (
            InstantiationType::Reg("CNIT CORE"),
            LogicalType::AND(vec![
                InstantiationType::SimpleClass("CNIT 18000"),
                InstantiationType::SimpleClass("CNIT 15501"),
                InstantiationType::SimpleClass("CNIT 17600"),
                InstantiationType::SimpleClass("CNIT 24200"),
                InstantiationType::SimpleClass("CNIT 25501"),
                InstantiationType::SimpleClass("CNIT 27000"),
                InstantiationType::SimpleClass("CNIT 27200"),
                InstantiationType::SimpleClass("CNIT 28000"),
                InstantiationType::SimpleClass("CNIT 32000"),
                InstantiationType::SimpleClass("CNIT 48000")
            ]),
            "requirement"
        ),
        (
            InstantiationType::Reg("CNIT DB PROGRAMMING"),
            LogicalType::OR(vec![
                InstantiationType::SimpleClass("CNIT 37200"),
                InstantiationType::SimpleClass("CNIT 39200")
            ]),
            "requirement"
        ),
        (
            InstantiationType::Reg("CNIT SYS/APP DEV"),
            LogicalType::OR(vec![
                InstantiationType::SimpleClass("CNIT 31500"),
                InstantiationType::SimpleClass("CNIT 32500")
            ]),
            "requirement"
        ),
        (
            InstantiationType::Reg("GENERAL BUSINESS SELECTIVE"),
            LogicalType::OR(vec![
                InstantiationType::SimpleClass("IET 10400"),
                InstantiationType::SimpleClass("IT 10400"),
                InstantiationType::SimpleClass("TLI 11100"),
                InstantiationType::SimpleClass("TLI 15200")
            ]),
            "requirement"
        ),
        (
            InstantiationType::Reg("UNIV CORE"),
            LogicalType::AND(vec![
                InstantiationType::SimpleClass("SCLA 10100"),
                InstantiationType::SimpleClass("SCLA 10200"),
                InstantiationType::SimpleClass("TECH 12000"),
                InstantiationType::Class(("MA 16010", 5)),
                InstantiationType::Class(("MA 16020", 5)),
                InstantiationType::SimpleClass("OLS 25200"),
                InstantiationType::SimpleClass("TLI 11200"),
                InstantiationType::SimpleClass("PHIL 15000"),
                InstantiationType::SimpleClass("COMSEL 00000"),
                InstantiationType::SimpleClass("ECONSEL 00000"),
                InstantiationType::SimpleClass("SCISEL 00000"),
                InstantiationType::SimpleClass("LABSCISEL 00000"),
                InstantiationType::SimpleClass("ACCSEL 00000"),
                InstantiationType::SimpleClass("STATSEL 00000"),
                InstantiationType::SimpleClass("SPEAKSEL 00000"),
                InstantiationType::SimpleClass("WRITINGSEL 00000"),
                InstantiationType::SimpleClass("HUMSEL 00000"),
                InstantiationType::SimpleClass("BEHAVSCISEL 00000"),
                InstantiationType::SimpleClass("FOUNDSEL 00000")
            ]),
            "requirement"
        ),
        (
            InstantiationType::Reg("CNIT/SAAD INTERDISC"), 
            LogicalType::AND(vec![
                InstantiationType::SimpleClass("INTERDISC 00000")
            ]),
            "requirement"
        ),
        (
            InstantiationType::SimpleClass("CNIT 27000"),
            LogicalType::AND(vec![
                InstantiationType::SimpleClass("CNIT 17600"),
                InstantiationType::SimpleClass("CNIT 15501")
            ]),
            "requisite"
        ),
        (
            InstantiationType::SimpleClass("CNIT 28000"),
            LogicalType::AND(vec![
                InstantiationType::SimpleClass("CNIT 18000")
            ]),
            "requisite"
        ),
        (
            InstantiationType::SimpleClass("CNIT 25501"),
            LogicalType::AND(vec![
                InstantiationType::SimpleClass("CNIT 15501")
            ]),
            "requisite"
        ),
        (
            InstantiationType::SimpleClass("CNIT 24200"),
            LogicalType::AND(vec![
                InstantiationType::SimpleClass("CNIT 17600")
            ]),
            "requisite"
        ),
        (
            InstantiationType::Class(("CNIT 34010", 1)),
            LogicalType::AND(vec![
                InstantiationType::SimpleClass("CNIT 24200")
            ]),
            "requisite"
        ),
        (
            InstantiationType::SimpleClass("CNIT 34400"),
            LogicalType::AND(vec![
                InstantiationType::SimpleClass("CNIT 24200"),
                InstantiationType::SimpleClass("CNIT 27000")
            ]),
            "requisite"
        ),
        (
            InstantiationType::SimpleClass("CNIT 32000"),
            LogicalType::AND(vec![
                InstantiationType::SimpleClass("TECH 12000")
            ]),
            "requisite"
        ),
        (
            InstantiationType::SimpleClass("CNIT 37000"),
            LogicalType::AND(vec![
                InstantiationType::SimpleClass("CNIT 24200"),
                InstantiationType::SimpleClass("CNIT 27000")
            ]),
            "requisite"
        ),
        (
            InstantiationType::SimpleClass("CNIT 32200"),
            LogicalType::AND(vec![
                InstantiationType::SimpleClass("CNIT 27000")
            ]),
            "requisite"
        ),
        (
            InstantiationType::SimpleClass("CNIT 31500"),
            LogicalType::AND(vec![
                InstantiationType::SimpleClass("CNIT 25501")
            ]),
            "requisite"
        ),
        (
            InstantiationType::SimpleClass("CNIT 34220"),
            LogicalType::OR(vec![
                InstantiationType::SimpleClass("CNIT 34000"),
                InstantiationType::Class(("CNIT 34010", 1))
            ]),
            "requisite"
        ),
        (
            InstantiationType::SimpleClass("CNIT 47000"),
            LogicalType::AND(vec![
                InstantiationType::SimpleClass("CNIT 32000")
            ]),
            "requisite"
        ),
        (
            InstantiationType::SimpleClass("CNIT 48000"),
            LogicalType::AND(vec![
                InstantiationType::SimpleClass("CNIT 28000")
            ]),
            "requisite"
        ),
        (
            InstantiationType::SimpleClass("CNIT 47100"),
            LogicalType::AND(vec![
                InstantiationType::SimpleClass("CNIT 45500"),
                InstantiationType::SimpleClass("CNIT 37000")
            ]),
            "requisite"
        ),
        (
            InstantiationType::SimpleClass("CNIT 34000"),
            LogicalType::AND(vec![
                InstantiationType::SimpleClass("CNIT 24200")
            ]),
            "requisite"
        ),
        (
            InstantiationType::SimpleClass("CNIT 34500"),
            LogicalType::AND(vec![
                InstantiationType::SimpleClass("CNIT 24200"),
                InstantiationType::SimpleClass("CNIT 24000")
            ]),
            "requisite"
        ),
        (
            InstantiationType::SimpleClass("CNIT 34600"),
            LogicalType::AND(vec![
                InstantiationType::SimpleClass("CNIT 24000"),
                InstantiationType::SimpleClass("CNIT 24200")
            ]),
            "requisite"
        ),
        (
            InstantiationType::Reg("NETWORK ENGR GROUPED 455 PREREQ"),
            LogicalType::OR(vec![
                InstantiationType::SimpleClass("CNIT 34500"),
                InstantiationType::SimpleClass("CNIT 34400")
            ]),
            "requirement"
        ),
        (
            InstantiationType::SimpleClass("CNIT 45500"),
            LogicalType::AND(vec![
                InstantiationType::SimpleClass("CNIT 34220"),
                InstantiationType::Reg("NETWORK ENGR GROUPED 455 PREREQ")
            ]),
            "requisite"
        ),
        (
            InstantiationType::Class(("MA 16020", 5)),
            LogicalType::OR(vec![
                InstantiationType::Class(("MA 16010", 5))
            ]),
            "requisite"
        )
    ];
    assert(maker_catalog_view(v@) =~~= maker_catalog());
    v
}

/// The degrees with their requirements.
pub(crate) fn maker_requirement_entries() -> (v: Vec<(InstantiationType<'static>, Vec<InstantiationType<'static>>)>)
    ensures
        maker_requirements_view(v@) == maker_requirements(),
{
    let v = vec![
        (
            InstantiationType::Degree((
                "CNIT",
                "Computer and Information Technology",
                "Major",
            )),
            vec![
                InstantiationType::Reg("CNIT CORE"),
                InstantiationType::Reg("CNIT DB PROGRAMMING"),
                InstantiationType::Reg("CNIT SYS/APP DEV"),
                InstantiationType::Reg("CNIT/SAAD INTERDISC"),
                InstantiationType::Reg("CNIT IT SELECTIVES"),
                InstantiationType::Reg("UNIV CORE"),
                InstantiationType::Reg("GENERAL BUSINESS SELECTIVE"),
                InstantiationType::SimpleClass("FREE 00000")
            ]
        ),
        (
            InstantiationType::Degree((
                "CSEC",
                "Cybersecurity",
                "Major",
            )),
            vec![
                InstantiationType::Reg("CNIT CORE"),
                InstantiationType::SimpleClass("CNIT 31500"),
                InstantiationType::SimpleClass("CNIT 32200"),
                InstantiationType::SimpleClass("CNIT 34400"),
                InstantiationType::SimpleClass("CNIT 34010"),
                InstantiationType::SimpleClass("CNIT 34220"),
                InstantiationType::SimpleClass("CNIT 37000"),
                InstantiationType::SimpleClass("CNIT 42000"),
                InstantiationType::SimpleClass("CNIT 42200"),
                InstantiationType::SimpleClass("CNIT 45500"),
                InstantiationType::SimpleClass("CNIT 47000"),
                InstantiationType::SimpleClass("CNIT 47100"),
                InstantiationType::Reg("CSEC SELECTIVES"),
                InstantiationType::Reg("CSEC INTERDISC"),
                InstantiationType::Reg("UNIV CORE")
            ]
        ),
        (
            InstantiationType::Degree((
                "NENT",
                "Network Engineering Technology",
                "Major"
            )),
            vec![
                InstantiationType::Reg("CNIT CORE"),
                InstantiationType::SimpleClass("CNIT 31500"),
                InstantiationType::SimpleClass("CNIT 24000"),
                InstantiationType::SimpleClass("CNIT 34500"),
                InstantiationType::SimpleClass("CNIT 34600"),
                InstantiationType::SimpleClass("CNIT 34000"),
                InstantiationType::SimpleClass("CNIT 34210"),
                InstantiationType::SimpleClass("CNIT 34220"),
                InstantiationType::SimpleClass("CNIT 45500"),
                InstantiationType::Reg("NENT IT SELECTIVES"),
                InstantiationType::Reg("NENT INTERDISC"),
                InstantiationType::Reg("UNIV CORE"),
                InstantiationType::Reg("GENERAL BUSINESS SELECTIVE")
            ]
        ),
        (
            InstantiationType::Degree((
                "SAAD",
                "Systems Analysis and Design",
                "Major"
            )),
            vec![
                InstantiationType::Reg("CNIT CORE"),
                InstantiationType::SimpleClass("CNIT 39200"),
                InstantiationType::Reg("CNIT SYS/APP DEV"),
                InstantiationType::SimpleClass("CNIT 38000"),
                InstantiationType::SimpleClass("CGT 25600"),
                InstantiationType::Reg("SAAD SELECTIVES"),
                InstantiationType::Reg("SAAD IT SELECTIVES"),
                InstantiationType::Reg("UNIV CORE"),
                InstantiationType::Reg("CNIT/SAAD INTERDISC")
            ]
        )
    ];
    assert(maker_requirements_view(v@) =~~= maker_requirements());
    v
}

} // verus!
