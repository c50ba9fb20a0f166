//! What every page is drawn from: components, each with a health, a line
//! of detail, metrics, actions and relations to other components.

use vstd::prelude::*;
use crate::text::owned;

verus! {

/// How a component is doing.
#[derive(Debug, Clone, Copy, PartialEq, Eq)]
pub enum Health {
    Healthy,
    Warn,
    Error,
    Idle,
    Unknown,
}

/// Broken first: the order health is sorted by and the worst is found by.
pub open spec fn severity_of(h: Health) -> u8 {
    match h {
        Health::Error => 0,
        Health::Warn => 1,
        Health::Healthy => 2,
        Health::Idle => 3,
        Health::Unknown => 4,
    }
}

pub fn severity(h: Health) -> (r: u8)
    ensures
        r == severity_of(h),
{
    match h {
        Health::Error => 0,
        Health::Warn => 1,
        Health::Healthy => 2,
        Health::Idle => 3,
        Health::Unknown => 4,
    }
}

/// One labelled figure on a component, with an optional tone
/// (`muted`, `accent`, `ok`, `warn`, `error`) and an optional unit shown
/// after the value (`%`).
#[derive(Debug, Clone, PartialEq)]
pub struct Metric {
    pub label: String,
    pub value: String,
    pub tone: Option<String>,
    pub unit: Option<String>,
}

impl Metric {
    pub fn new(label: &str, value: String) -> (m: Self)
        ensures
            m.label@ == label@,
            m.value@ == value@,
            m.tone is None,
            m.unit is None,
    {
        Metric { label: owned(label), value, tone: None, unit: None }
    }

    pub fn tone(self, tone: &str) -> (m: Self)
        ensures
            m.label == self.label,
            m.value == self.value,
            m.tone matches Some(t) && t@ == tone@,
            m.unit == self.unit,
    {
        Metric { tone: Some(owned(tone)), ..self }
    }

    pub fn unit(self, unit: &str) -> (m: Self)
        ensures
            m.label == self.label,
            m.value == self.value,
            m.tone == self.tone,
            m.unit matches Some(u) && u@ == unit@,
    {
        Metric { unit: Some(owned(unit)), ..self }
    }
}

/// Which way an edge points: a component belongs to another, or has one
/// or many.
#[derive(Debug, Clone, Copy, PartialEq, Eq)]
pub enum RelationKind {
    BelongsTo,
    HasOne,
    HasMany,
}

/// An edge from a component to others, by id.
#[derive(Debug, Clone, PartialEq)]
pub struct Relation {
    pub name: String,
    pub kind: RelationKind,
    pub targets: Vec<String>,
    pub href: Option<String>,
}

pub open spec fn id_views(v: Seq<String>) -> Seq<Seq<char>> {
    v.map_values(|s: String| s@)
}

impl Relation {
    pub fn belongs_to(name: &str, target: String) -> (r: Self)
        ensures
            r.name@ == name@,
            r.kind == RelationKind::BelongsTo,
            id_views(r.targets@) == seq![target@],
            r.href is None,
    {
        let mut targets: Vec<String> = Vec::new();
        targets.push(target);
        assert(id_views(targets@) =~= seq![targets@[0]@]);
        Relation { name: owned(name), kind: RelationKind::BelongsTo, targets, href: None }
    }

    pub fn has_one(name: &str, target: String) -> (r: Self)
        ensures
            r.name@ == name@,
            r.kind == RelationKind::HasOne,
            id_views(r.targets@) == seq![target@],
            r.href is None,
    {
        let mut targets: Vec<String> = Vec::new();
        targets.push(target);
        assert(id_views(targets@) =~= seq![targets@[0]@]);
        Relation { name: owned(name), kind: RelationKind::HasOne, targets, href: None }
    }

    pub fn has_many(name: &str, targets: Vec<String>) -> (r: Self)
        ensures
            r.name@ == name@,
            r.kind == RelationKind::HasMany,
            r.targets@ == targets@,
            r.href is None,
    {
        Relation { name: owned(name), kind: RelationKind::HasMany, targets, href: None }
    }
}

/// Something a component offers to do: a request to a path.
#[derive(Debug, Clone, PartialEq)]
pub struct Action {
    pub id: String,
    pub label: String,
    pub method: String,
    pub path: String,
    pub enabled: bool,
    pub danger: bool,
    pub tone: Option<String>,
}

/// One thing on screen.
#[derive(Debug, Clone, PartialEq)]
pub struct ComponentSummary {
    pub id: String,
    pub kind: String,
    pub label: String,
    pub health: Health,
    pub detail: String,
    pub metrics: Vec<Metric>,
    pub actions: Vec<Action>,
    pub relations: Vec<Relation>,
    pub link: Option<String>,
}

impl ComponentSummary {
    /// A component with nothing on it but its id, kind, label, health and
    /// detail.
    pub fn bare(id: String, kind: String, label: String, health: Health, detail: String) -> (c: Self)
        ensures
            c.id == id,
            c.kind == kind,
            c.label == label,
            c.health == health,
            c.detail == detail,
            c.metrics@.len() == 0,
            c.actions@.len() == 0,
            c.relations@.len() == 0,
            c.link is None,
    {
        ComponentSummary {
            id,
            kind,
            label,
            health,
            detail,
            metrics: Vec::new(),
            actions: Vec::new(),
            relations: Vec::new(),
            link: None,
        }
    }
}

/// The value of the first metric with this label.
pub open spec fn metric_value(ms: Seq<Metric>, label: Seq<char>) -> Option<Seq<char>>
    decreases ms.len(),
{
    if ms.len() == 0 {
        None
    } else if ms[0].label@ == label {
        Some(ms[0].value@)
    } else {
        metric_value(ms.drop_first(), label)
    }
}

} // verus!
