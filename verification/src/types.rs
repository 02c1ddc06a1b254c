use vstd::prelude::*;
use crate::db::DbError;
use crate::models::class::{Class, ClassView};

verus! {

/// How the components of a catalog entry combine: all of them or one of them,
/// as a group of requirements or as the prerequisites of a class.
pub enum LogicalType<'a> {
    AND(Vec<InstantiationType<'a>>),
    OR(Vec<InstantiationType<'a>>),
    GroupAND(Vec<InstantiationType<'a>>),
    GroupOR(Vec<InstantiationType<'a>>),
    PrereqAND(Vec<InstantiationType<'a>>),
    PrereqOR(Vec<InstantiationType<'a>>),
}

/// The name under which a logic type is stored on a component.
pub open spec fn logic_name(l: LogicalType) -> Seq<char> {
    match l {
        LogicalType::AND(_) => "AND"@,
        LogicalType::OR(_) => "OR"@,
        LogicalType::GroupAND(_) => "GroupAND"@,
        LogicalType::GroupOR(_) => "GroupOR"@,
        LogicalType::PrereqAND(_) => "PrereqAND"@,
        LogicalType::PrereqOR(_) => "PrereqOR"@,
    }
}

impl<'a> LogicalType<'a> {
    /// The name under which this logic type is stored on a component.
    pub fn to_string(&self) -> (s: String)
        ensures
            s@ == logic_name(*self),
    {
        match self {
            LogicalType::AND(_) => "AND".to_owned(),
            LogicalType::OR(_) => "OR".to_owned(),
            LogicalType::GroupAND(_) => "GroupAND".to_owned(),
            LogicalType::GroupOR(_) => "GroupOR".to_owned(),
            LogicalType::PrereqAND(_) => "PrereqAND".to_owned(),
            LogicalType::PrereqOR(_) => "PrereqOR".to_owned(),
        }
    }

    /// The entries that this logic type combines.
    pub fn entries(&self) -> (v: &Vec<InstantiationType<'a>>)
        ensures
            v == logic_entries(*self),
    {
        match self {
            LogicalType::AND(v) => v,
            LogicalType::OR(v) => v,
            LogicalType::GroupAND(v) => v,
            LogicalType::GroupOR(v) => v,
            LogicalType::PrereqAND(v) => v,
            LogicalType::PrereqOR(v) => v,
        }
    }
}

/// The entries that a logic type combines.
pub open spec fn logic_entries<'a>(l: LogicalType<'a>) -> Vec<InstantiationType<'a>> {
    match l {
        LogicalType::AND(v) => v,
        LogicalType::OR(v) => v,
        LogicalType::GroupAND(v) => v,
        LogicalType::GroupOR(v) => v,
        LogicalType::PrereqAND(v) => v,
        LogicalType::PrereqOR(v) => v,
    }
}

/// A logic type whose entries have been resolved to positions of components.
pub enum ParsedLogicType {
    AND(Vec<usize>),
    OR(Vec<usize>),
    GroupAND(Vec<usize>),
    GroupOR(Vec<usize>),
    PrereqAND(Vec<usize>),
    PrereqOR(Vec<usize>),
}

/// The name of a resolved logic type.
pub open spec fn parsed_logic_name(l: ParsedLogicType) -> Seq<char> {
    match l {
        ParsedLogicType::AND(_) => "AND"@,
        ParsedLogicType::OR(_) => "OR"@,
        ParsedLogicType::GroupAND(_) => "GroupAND"@,
        ParsedLogicType::GroupOR(_) => "GroupOR"@,
        ParsedLogicType::PrereqAND(_) => "PrereqAND"@,
        ParsedLogicType::PrereqOR(_) => "PrereqOR"@,
    }
}

/// The positions that a resolved logic type combines.
pub open spec fn parsed_positions(l: ParsedLogicType) -> Seq<usize> {
    match l {
        ParsedLogicType::AND(v) => v@,
        ParsedLogicType::OR(v) => v@,
        ParsedLogicType::GroupAND(v) => v@,
        ParsedLogicType::GroupOR(v) => v@,
        ParsedLogicType::PrereqAND(v) => v@,
        ParsedLogicType::PrereqOR(v) => v@,
    }
}

impl ParsedLogicType {
    /// The name of this resolved logic type.
    pub fn to_string(&self) -> (s: String)
        ensures
            s@ == parsed_logic_name(*self),
    {
        match self {
            ParsedLogicType::AND(_) => "AND".to_owned(),
            ParsedLogicType::OR(_) => "OR".to_owned(),
            ParsedLogicType::GroupAND(_) => "GroupAND".to_owned(),
            ParsedLogicType::GroupOR(_) => "GroupOR".to_owned(),
            ParsedLogicType::PrereqAND(_) => "PrereqAND".to_owned(),
            ParsedLogicType::PrereqOR(_) => "PrereqOR".to_owned(),
        }
    }

    /// The positions that this resolved logic type combines.
    pub fn indices(&self) -> (v: &Vec<usize>)
        ensures
            v@ == parsed_positions(*self),
    {
        match self {
            ParsedLogicType::AND(v) => v,
            ParsedLogicType::OR(v) => v,
            ParsedLogicType::GroupAND(v) => v,
            ParsedLogicType::GroupOR(v) => v,
            ParsedLogicType::PrereqAND(v) => v,
            ParsedLogicType::PrereqOR(v) => v,
        }
    }
}

/// An entry of the catalog: a class (with three credits or with its own credits),
/// a group of requirements, or a degree (code, name, type, description).
pub enum InstantiationType<'a> {
    SimpleClass(&'a str),
    Class((&'a str, i32)),
    Group(&'a str),
    Degree((&'a str, &'a str, &'a str, &'a str)),
}

/// How the children of a component combine.
#[derive(Debug, Clone, Copy, PartialEq, Eq, Structural)]
pub enum ComponentLogic {
    AND,
    OR,
    NONE,
}

/// The state of an edge of the requirement graph during the analysis.
#[derive(Debug, Clone, Copy, PartialEq, Eq, Structural)]
pub enum Status {
    Unchecked,
    Checked,
    Unsuitable,
    Desirable,
    Selected,
}

/// A node of the requirement graph: a component of the catalog (or the degree
/// itself), with its class, its children (with status and cost) and its parents
/// (with status).
#[derive(Debug)]
pub struct Req {
    pub id: i32,
    pub name: String,
    pub pftype: String,
    pub class: Option<Class>,
    pub logic_type: Option<String>,
    pub children: Vec<(i32, Status, Option<i32>)>,
    pub parents: Vec<(i32, Status)>,
    pub in_analysis: bool,
}

pub struct ReqView {
    pub id: i32,
    pub name: Seq<char>,
    pub pftype: Seq<char>,
    pub class: Option<ClassView>,
    pub logic_type: Option<Seq<char>>,
    pub children: Seq<(i32, Status, Option<i32>)>,
    pub parents: Seq<(i32, Status)>,
    pub in_analysis: bool,
}

impl View for Req {
    type V = ReqView;

    open spec fn view(&self) -> ReqView {
        ReqView {
            id: self.id,
            name: self.name@,
            pftype: self.pftype@,
            class: match self.class {
                Some(c) => Some(c@),
                None => None,
            },
            logic_type: self.logic_type.deep_view(),
            children: self.children@,
            parents: self.parents@,
            in_analysis: self.in_analysis,
        }
    }
}

/// The text that `Req::str` gives for a requirement with these fields.
pub uninterp spec fn req_text(
    name: Seq<char>,
    logic_type: Option<Seq<char>>,
    children: Seq<(i32, Status, Option<i32>)>,
    parents: Seq<(i32, Status)>,
) -> Seq<char>;

/// A copy of the children of a requirement.
pub fn copy_children(v: &Vec<(i32, Status, Option<i32>)>) -> (r: Vec<(i32, Status, Option<i32>)>)
    ensures
        r@ == v@,
{
    let mut out: Vec<(i32, Status, Option<i32>)> = Vec::new();
    let mut i: usize = 0;
    while i < v.len()
        invariant
            0 <= i <= v@.len(),
            out@ == v@.take(i as int),
        decreases v@.len() - i,
    {
        out.push(v[i]);
        assert(out@ =~= v@.take(i + 1));
        i = i + 1;
    }
    assert(v@.take(v@.len() as int) =~= v@);
    out
}

/// A copy of the parents of a requirement.
pub fn copy_parents(v: &Vec<(i32, Status)>) -> (r: Vec<(i32, Status)>)
    ensures
        r@ == v@,
{
    let mut out: Vec<(i32, Status)> = Vec::new();
    let mut i: usize = 0;
    while i < v.len()
        invariant
            0 <= i <= v@.len(),
            out@ == v@.take(i as int),
        decreases v@.len() - i,
    {
        out.push(v[i]);
        assert(out@ =~= v@.take(i + 1));
        i = i + 1;
    }
    assert(v@.take(v@.len() as int) =~= v@);
    out
}

impl Req {
    /// A copy of this requirement.
    pub fn duplicate(&self) -> (r: Req)
        ensures
            r@ == self@,
    {
        Req {
            id: self.id,
            name: self.name.clone(),
            pftype: self.pftype.clone(),
            class: match &self.class {
                Some(c) => Some(crate::db::Record::duplicate(c)),
                None => None,
            },
            logic_type: crate::db::copy_text(&self.logic_type),
            children: copy_children(&self.children),
            parents: copy_parents(&self.parents),
            in_analysis: self.in_analysis,
        }
    }

    /// A one-line description: the name padded to twelve characters, then the
    /// logic type, the children and the parents in debug form. The text is made by
    /// `std::format!`; the contract claims only that it is a function of these four
    /// fields, named `req_text`, and says nothing of its characters.
    #[verifier::external_body]
    pub fn str(&self) -> (s: String)
        ensures
            s@ == req_text(self.name@, self.logic_type.deep_view(), self.children@, self.parents@),
    {
        format!(
            "{:12}: logic_type: {:60?}, children:{:?}, parents: {:?}",
            self.name, self.logic_type, self.children, self.parents
        )
    }
}

/// A schedule: the periods in order.
#[derive(Debug)]
pub struct Schedule {
    pub periods: Vec<Period>,
}

impl Schedule {
    /// An empty schedule.
    pub fn new() -> (s: Self)
        ensures
            s.periods@.len() == 0,
    {
        Schedule { periods: Vec::new() }
    }
}

/// A period of a schedule: a term of a year and the classes taken in it.
#[derive(Debug)]
pub struct Period {
    pub year: u32,
    pub time: String,
    pub classes: Vec<Req>,
}

/// The errors of building a schedule.
#[derive(Debug, Clone, Copy, PartialEq, Eq, Structural)]
pub enum ScheduleError {
    DieselError(DbError),
    AssociationError,
    PrereqError,
    UnimiplementedLogicError,
}

/// The message of a schedule error.
pub open spec fn schedule_error_message(e: ScheduleError) -> Seq<char> {
    match e {
        ScheduleError::DieselError(_) => "Diesel Error"@,
        ScheduleError::AssociationError => "Component not found"@,
        ScheduleError::PrereqError => "Prereq is invalid for this Degree"@,
        ScheduleError::UnimiplementedLogicError => "This logic has not been implemented"@,
    }
}

impl ScheduleError {
    /// The message of this error, as it is shown to a user.
    pub fn message(&self) -> (s: String)
        ensures
            s@ == schedule_error_message(*self),
    {
        match self {
            ScheduleError::DieselError(_) => "Diesel Error".to_owned(),
            ScheduleError::AssociationError => "Component not found".to_owned(),
            ScheduleError::PrereqError => "Prereq is invalid for this Degree".to_owned(),
            ScheduleError::UnimiplementedLogicError => "This logic has not been implemented".to_owned(),
        }
    }

    /// Wraps an error of the store.
    pub fn from_db(e: DbError) -> (r: Self)
        ensures
            r == ScheduleError::DieselError(e),
    {
        ScheduleError::DieselError(e)
    }
}

} // verus!
