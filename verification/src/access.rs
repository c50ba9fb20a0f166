//! Who is asking, and what they may see.
//!
//! A [`Viewer`] is the identity carried on a request; a plugin answers with
//! an [`Access`] saying what that identity may see of its slice, and the
//! host applies it before the feed leaves the process. An answer also says
//! what is withheld, so a short list is explained rather than mistaken for
//! a broken console.

use vstd::prelude::*;
use crate::text::{contains_exec, contains_str, owned, str_eq};

verus! {

/// The identity behind one request. Anonymous when the console serves
/// without authentication.
#[derive(Clone, Debug, PartialEq, Eq)]
pub struct Viewer {
    /// The console user, once signed in.
    pub user: Option<String>,
    /// A credential to act as this viewer against an upstream.
    pub token: Option<String>,
    /// What this viewer may do; empty means a reader.
    pub roles: Vec<String>,
    /// This viewer's SSH public keys.
    pub ssh_keys: Vec<String>,
}

impl Default for Viewer {
    fn default() -> (v: Self)
        ensures
            v.user is None,
            v.token is None,
            v.roles@.len() == 0,
            v.ssh_keys@.len() == 0,
    {
        Viewer { user: None, token: None, roles: Vec::new(), ssh_keys: Vec::new() }
    }
}

impl Viewer {
    /// Does this viewer hold `role`? `admin` holds every role, and no
    /// roles at all means a reader: `viewer`.
    pub open spec fn holds(&self, role: Seq<char>) -> bool {
        ||| exists|i: int|
            0 <= i < self.roles@.len() && (#[trigger] self.roles@[i]@ == role
                || self.roles@[i]@ == "admin"@)
        ||| (self.roles@.len() == 0 && role == "viewer"@)
    }

    pub fn anonymous() -> (v: Self)
        ensures
            v.user is None,
            v.token is None,
            v.roles@.len() == 0,
            v.ssh_keys@.len() == 0,
    {
        Self::default()
    }

    /// Nobody signed in, and no credential to carry upstream.
    pub fn is_anonymous(&self) -> (r: bool)
        ensures
            r == (self.user is None && self.token is None),
    {
        self.user.is_none() && self.token.is_none()
    }

    /// Does this viewer hold a role? `admin` holds every role, and a
    /// viewer with none is a reader.
    pub fn has_role(&self, role: &str) -> (r: bool)
        ensures
            r == self.holds(role@),
    {
        if self.roles.len() == 0 {
            proof {
                reveal_strlit("viewer");
            }
            return str_eq(role, "viewer");
        }
        let mut i: usize = 0;
        while i < self.roles.len()
            invariant
                i <= self.roles@.len(),
                forall|j: int|
                    0 <= j < i ==> !(#[trigger] self.roles@[j]@ == role@ || self.roles@[j]@
                        == "admin"@),
            decreases self.roles@.len() - i,
        {
            let r = &self.roles[i];
            if str_eq(r.as_str(), role) || str_eq(r.as_str(), "admin") {
                return true;
            }
            i += 1;
        }
        assert(!(self.roles@.len() == 0));
        false
    }

    /// The role ladder: a viewer holds a role it was given, and an admin
    /// holds every role; a viewer with no roles is a reader and nothing
    /// more; and a viewer holds no role it was neither given nor could
    /// have through `admin`. So only an operator or an admin may write.
    pub proof fn law_roles(&self, role: Seq<char>, i: int)
        ensures
            0 <= i < self.roles@.len() && self.roles@[i]@ == role ==> self.holds(role),
            0 <= i < self.roles@.len() && self.roles@[i]@ == seq!['a', 'd', 'm', 'i', 'n'] ==> self.holds(role),
            self.roles@.len() == 0 ==> (self.holds(role) <==> role == seq!['v', 'i', 'e', 'w', 'e', 'r']),
            self.roles@.len() > 0 && self.holds(role) ==> exists|j: int| 0 <= j < self.roles@.len()
                && (#[trigger] self.roles@[j]@ == role || self.roles@[j]@ == seq!['a', 'd', 'm', 'i', 'n']),
    {
        reveal_strlit("admin");
        reveal_strlit("viewer");
        assert("admin"@ =~= seq!['a', 'd', 'm', 'i', 'n']);
        assert("viewer"@ =~= seq!['v', 'i', 'e', 'w', 'e', 'r']);
        if 0 <= i < self.roles@.len() {
            assert(self.roles@[i]@ == self.roles@[i]@);
        }
    }

    /// May this viewer change things, as opposed to look at them?
    pub fn may_write(&self) -> (r: bool)
        ensures
            r == (self.holds("operator"@) || self.holds("admin"@)),
    {
        self.has_role("operator") || self.has_role("admin")
    }
}

/// Which component ids a limited viewer may see, as data the host can
/// evaluate: a plugin states its rule rather than handing over code.
#[derive(Clone, Debug)]
pub enum Allow {
    /// Ids containing this text.
    Contains(String),
    /// Every id but this one.
    AllBut(String),
    /// Ids not containing this text.
    Lacks(String),
    /// Ids of Kubernetes objects outside these namespaces, and anything
    /// that is not one.
    OutsideNamespaces(Vec<String>),
}

impl Allow {
    /// Does this rule admit `id`?
    pub open spec fn admits(&self, id: Seq<char>) -> bool {
        match self {
            Allow::Contains(t) => contains_str(id, t@),
            Allow::AllBut(t) => id != t@,
            Allow::Lacks(t) => !contains_str(id, t@),
            Allow::OutsideNamespaces(h) => crate::k8s::scope::visible_spec(id, crate::k8s::scope::views(h@)),
        }
    }

    pub fn check(&self, id: &str) -> (r: bool)
        ensures
            r == self.admits(id@),
    {
        match self {
            Allow::Contains(t) => contains_exec(id, t.as_str()),
            Allow::AllBut(t) => !str_eq(id, t.as_str()),
            Allow::Lacks(t) => !contains_exec(id, t.as_str()),
            Allow::OutsideNamespaces(h) => crate::k8s::scope::visible_to(id, h.as_slice()),
        }
    }
}

/// What one viewer may see of one plugin's components.
#[derive(Clone)]
pub enum Access {
    /// Nothing is withheld.
    Unrestricted,
    /// Only what the predicate accepts, with a count and a line naming
    /// what was withheld.
    Limited(Scope),
}

#[derive(Clone)]
pub struct Scope {
    /// Given a component id, may this viewer see it?
    pub allow: Allow,
    /// How many objects were withheld.
    pub hidden: usize,
    /// One line: "3 namespaces you cannot view".
    pub note: String,
}

impl Access {
    /// A limited answer carrying its predicate and explanation.
    pub fn limited(allow: Allow, hidden: usize, note: &str) -> (a: Self)
        ensures
            a matches Access::Limited(s) && s.allow == allow && s.hidden == hidden && s.note@ == note@,
    {
        Access::Limited(Scope { allow, hidden, note: owned(note) })
    }

    /// Does this answer admit `id`?
    pub open spec fn admits(&self, id: Seq<char>) -> bool {
        match self {
            Access::Unrestricted => true,
            Access::Limited(s) => s.allow.admits(id),
        }
    }

    /// May this id be seen?
    pub fn allows(&self, id: &str) -> (r: bool)
        ensures
            r == self.admits(id@),
    {
        match self {
            Access::Unrestricted => true,
            Access::Limited(s) => s.allow.check(id),
        }
    }

    pub fn hidden(&self) -> (r: usize)
        ensures
            r == (match self {
                Access::Unrestricted => 0,
                Access::Limited(s) => s.hidden,
            }),
    {
        match self {
            Access::Unrestricted => 0,
            Access::Limited(s) => s.hidden,
        }
    }

    pub fn note(&self) -> (r: &str)
        ensures
            r@ == (match self {
                Access::Unrestricted => ""@,
                Access::Limited(s) => s.note@,
            }),
    {
        match self {
            Access::Unrestricted => "",
            Access::Limited(s) => s.note.as_str(),
        }
    }

    pub fn is_unrestricted(&self) -> (r: bool)
        ensures
            r == (self is Unrestricted),
    {
        match self {
            Access::Unrestricted => true,
            Access::Limited(_) => false,
        }
    }
}

} // verus!
