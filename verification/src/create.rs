//! What each plugin lets a user create, and how: a YAML editor seeded with
//! a template, or a small form, posting to a path the plugin serves.

use vstd::prelude::*;
use crate::text::owned;

verus! {

/// One input of a form creator.
#[derive(Debug, Clone, PartialEq)]
pub struct Field {
    pub name: String,
    pub label: String,
    /// text | number | select | textarea
    pub kind: String,
    pub required: bool,
    pub options: Vec<FieldOption>,
    pub default: String,
    pub hint: String,
}

impl Field {
    /// A plain text input.
    pub fn text(name: &str, label: &str) -> (f: Self)
        ensures
            f.name@ == name@,
            f.label@ == label@,
            f.kind@ == "text"@,
            !f.required,
            f.options@.len() == 0,
            f.default@.len() == 0,
            f.hint@.len() == 0,
    {
        Field {
            name: owned(name),
            label: owned(label),
            kind: owned("text"),
            required: false,
            options: Vec::new(),
            default: String::new(),
            hint: String::new(),
        }
    }

    /// A select whose options are their own labels.
    pub fn select(name: &str, label: &str, options: &[&str]) -> (f: Self)
        ensures
            f.name@ == name@,
            f.label@ == label@,
            f.kind@ == "select"@,
            !f.required,
            f.options@.len() == options@.len(),
            forall|i: int| #![trigger f.options@[i]] 0 <= i < options@.len() ==> f.options@[i].value@ == options@[i]@
                && f.options@[i].label@.len() == 0,
            f.default@ == (if options@.len() > 0 { options@[0]@ } else { Seq::<char>::empty() }),
            f.hint@.len() == 0,
    {
        let mut opts: Vec<FieldOption> = Vec::new();
        let mut i: usize = 0;
        while i < options.len()
            invariant
                i <= options@.len(),
                opts@.len() == i,
                forall|j: int| #![trigger opts@[j]] 0 <= j < i ==> opts@[j].value@ == options@[j]@ && opts@[j].label@.len() == 0,
            decreases options@.len() - i,
        {
            opts.push(FieldOption::plain(options[i]));
            i += 1;
        }
        Self::choices(name, label, opts)
    }

    /// A select whose options say one thing and submit another. The form
    /// posts the value; the label is only displayed. The first option's
    /// value is the default.
    pub fn choices(name: &str, label: &str, options: Vec<FieldOption>) -> (f: Self)
        ensures
            f.name@ == name@,
            f.label@ == label@,
            f.kind@ == "select"@,
            !f.required,
            f.options@ == options@,
            f.default@ == (if options@.len() > 0 { options@[0].value@ } else { Seq::<char>::empty() }),
            f.hint@.len() == 0,
    {
        let default = if options.len() > 0 { options[0].value.clone() } else { String::new() };
        Field {
            name: owned(name),
            label: owned(label),
            kind: owned("select"),
            required: false,
            options,
            default,
            hint: String::new(),
        }
    }

    pub fn required(self) -> (f: Self)
        ensures
            f == (Field { required: true, ..self }),
    {
        Field { required: true, ..self }
    }

    pub fn hint(self, hint: &str) -> (f: Self)
        ensures
            f.hint@ == hint@,
            f == (Field { hint: f.hint, ..self }),
    {
        Field { hint: owned(hint), ..self }
    }

    pub fn default(self, d: &str) -> (f: Self)
        ensures
            f.default@ == d@,
            f == (Field { default: f.default, ..self }),
    {
        Field { default: owned(d), ..self }
    }
}

/// One choice in a select: what is submitted, and what is read.
#[derive(Debug, Clone, PartialEq)]
pub struct FieldOption {
    pub value: String,
    /// What a person sees; empty means the value.
    pub label: String,
}

impl FieldOption {
    /// A choice that reads as what it submits.
    pub fn plain(value: &str) -> (o: Self)
        ensures
            o.value@ == value@,
            o.label@.len() == 0,
    {
        FieldOption { value: owned(value), label: String::new() }
    }

    /// A choice that says one thing and submits another.
    pub fn new(value: &str, label: &str) -> (o: Self)
        ensures
            o.value@ == value@,
            o.label@ == label@,
    {
        FieldOption { value: owned(value), label: owned(label) }
    }

    /// What to display.
    pub fn text(&self) -> (r: &str)
        ensures
            r@ == (if self.label@.len() == 0 { self.value@ } else { self.label@ }),
    {
        if self.label.as_str().unicode_len() == 0 {
            self.value.as_str()
        } else {
            self.label.as_str()
        }
    }
}

/// A create action a plugin declares.
#[derive(Debug, Clone, PartialEq)]
pub struct Creator {
    /// Stable id, unique across the console: "k8s:yaml", "sb:volume".
    pub id: String,
    /// Owning plugin; the host fills it in.
    pub plugin: String,
    pub label: String,
    pub description: String,
    /// Hash routes this creator is offered on, by prefix; "*" is everywhere.
    pub at: Vec<String>,
    /// yaml | form
    pub mode: String,
    pub method: String,
    pub path: String,
    pub template: String,
    pub fields: Vec<Field>,
    /// Whether what it makes lives in a project, so the dialog asks which.
    pub project: bool,
}

impl Creator {
    /// A YAML editor seeded with `template`, posting to `path`.
    pub fn yaml(id: &str, label: &str, path: &str, template: &str) -> (c: Self)
        ensures
            c.id@ == id@,
            c.plugin@.len() == 0,
            c.label@ == label@,
            c.description@ == Seq::<char>::empty(),
            c.at@.len() == 0,
            c.mode@ == "yaml"@,
            c.method@ == "POST"@,
            c.path@ == path@,
            c.template@ == template@,
            c.fields@.len() == 0,
            !c.project,
    {
        Creator {
            id: owned(id),
            plugin: String::new(),
            label: owned(label),
            description: String::new(),
            at: Vec::new(),
            mode: owned("yaml"),
            method: owned("POST"),
            path: owned(path),
            template: owned(template),
            fields: Vec::new(),
            project: false,
        }
    }

    /// A form of `fields`, posted as one JSON object to `path`.
    pub fn form(id: &str, label: &str, path: &str, fields: Vec<Field>) -> (c: Self)
        ensures
            c.id@ == id@,
            c.plugin@.len() == 0,
            c.label@ == label@,
            c.description@ == Seq::<char>::empty(),
            c.at@.len() == 0,
            c.mode@ == "form"@,
            c.method@ == "POST"@,
            c.path@ == path@,
            c.template@ == Seq::<char>::empty(),
            c.fields@ == fields@,
            !c.project,
    {
        Creator {
            id: owned(id),
            plugin: String::new(),
            label: owned(label),
            description: String::new(),
            at: Vec::new(),
            mode: owned("form"),
            method: owned("POST"),
            path: owned(path),
            template: String::new(),
            fields,
            project: false,
        }
    }

    /// Offered on these routes.
    pub fn at(self, routes: &[&str]) -> (c: Self)
        ensures
            c == (Creator { at: c.at, ..self }),
            c.at@.len() == routes@.len(),
            forall|i: int| 0 <= i < routes@.len() ==> #[trigger] c.at@[i]@ == routes@[i]@,
    {
        let mut at: Vec<String> = Vec::new();
        let mut i: usize = 0;
        while i < routes.len()
            invariant
                i <= routes@.len(),
                at@.len() == i,
                forall|j: int| 0 <= j < i ==> #[trigger] at@[j]@ == routes@[j]@,
            decreases routes@.len() - i,
        {
            at.push(owned(routes[i]));
            i += 1;
        }
        Creator { at, ..self }
    }

    /// What it makes goes in the project the dialog chose.
    pub fn in_project(self) -> (c: Self)
        ensures
            c == (Creator { project: true, ..self }),
    {
        Creator { project: true, ..self }
    }

    pub fn describe(self, d: &str) -> (c: Self)
        ensures
            c.description@ == d@,
            c == (Creator { description: c.description, ..self }),
    {
        Creator { description: owned(d), ..self }
    }
}

} // verus!
