//! Projects: a namespace with an owner.
//!
//! The names, the roles a member can hold, and the RoleBinding that makes
//! somebody one, are decided here; the apiserver is asked as the viewer,
//! so what a person may change is its answer.

use vstd::prelude::*;
use crate::json::{Json, arr_1, at2, or_empty, str1, str2, text2};
use crate::registry::opt_chars;
use crate::sort::{Order, Ranked, sort_stable, sorted};
use crate::text::{
    chars_of, debug_quoted, is_ascii_alnum, is_ascii_digit, is_ascii_lower, is_ascii_upper, owned,
    push_char, push_str, quoted, split_once, split_once_str, str_eq, strip_prefix, strip_prefix_str,
    trim, trim_char, trim_char_range, trim_str,
};

verus! {

pub const API: &'static str = "/apis/project.openshift.io/v1";
pub const RBAC: &'static str = "/apis/rbac.authorization.k8s.io/v1";
pub const NETPOL: &'static str = "/apis/networking.k8s.io/v1";
pub const REQUESTER: &'static str = "openshift.io/requester";
pub const DISPLAY: &'static str = "openshift.io/display-name";
pub const DESCRIPTION: &'static str = "openshift.io/description";
pub const ISOLATE: &'static str = "storm-isolate";
pub const ISOLATE_DNS: &'static str = "storm-isolate-dns";

/// What a project-creation form posts.
#[derive(Debug, Clone, PartialEq)]
pub struct New {
    pub name: String,
    pub display_name: String,
    pub description: String,
}

/// Somebody to make a member, and as what.
#[derive(Debug, Clone, PartialEq)]
pub struct Member {
    pub who: String,
    pub role: String,
}

/// Whether an isolation should let names be resolved.
#[derive(Debug, Clone, Copy, PartialEq, Eq)]
pub struct Isolate {
    pub dns: bool,
}

pub open spec fn name_char(c: char) -> bool {
    is_ascii_lower(c) || is_ascii_digit(c) || c == '-'
}

/// A DNS-1123 label: lowercase letters, digits and `-`, one to 63 of
/// them, starting and ending with a letter or digit.
pub open spec fn valid_name(n: Seq<char>) -> bool {
    &&& 0 < n.len() <= 63
    &&& forall|i: int| 0 <= i < n.len() ==> name_char(#[trigger] n[i])
    &&& is_ascii_alnum(n[0])
    &&& is_ascii_alnum(n.last())
}

/// A lowercase letter or a digit.
pub open spec fn lower_alnum(c: char) -> bool {
    ('a' <= c && c <= 'z') || ('0' <= c && c <= '9')
}

/// The DNS-1123 label rule, character by character: one to 63 of them,
/// each a lowercase letter, a digit or `-`, and neither the first nor the
/// last a `-`.
pub open spec fn dns_label(n: Seq<char>) -> bool {
    &&& 1 <= n.len() <= 63
    &&& forall|i: int| 0 <= i < n.len() ==> lower_alnum(#[trigger] n[i]) || n[i] == '-'
    &&& lower_alnum(n[0])
    &&& lower_alnum(n[n.len() - 1])
}

/// A project name is accepted exactly when it is a DNS-1123 label: so a
/// name that starts or ends with `-`, holds anything but lowercase
/// letters, digits and `-`, is empty or is longer than 63 is refused.
pub proof fn law_project_name(n: Seq<char>)
    ensures
        valid_name(n) <==> dns_label(n),
        n.len() > 0 && n[n.len() - 1] == '-' ==> !valid_name(n),
        n.len() > 0 && n[0] == '-' ==> !valid_name(n),
{
}

pub open spec fn name_refusal(n: Seq<char>) -> Seq<char> {
    debug_quoted(n)
        + " is not a project name: lowercase letters, digits and '-', at most 63, starting and ending with a letter or digit"@
}

/// A project name, or why not: the apiserver's rule, said before asking.
pub fn check_name(n: &str) -> (r: Result<(), String>)
    ensures
        r is Ok <==> valid_name(n@),
        r matches Err(e) ==> e@ == name_refusal(n@),
        r is Ok <==> dns_label(n@),
{
    proof {
        law_project_name(n@);
    }
    let v = chars_of(n);
    let len = v.len();
    let mut ok = len > 0 && len <= 63;
    let mut i: usize = 0;
    while ok && i < len
        invariant
            i <= len,
            len == v@.len(),
            v@ == n@,
            ok ==> 0 < len <= 63,
            ok ==> forall|k: int| 0 <= k < i ==> name_char(#[trigger] n@[k]),
            !ok ==> !valid_name(n@),
        decreases len - i,
    {
        let c = v[i];
        if !(('a' <= c && c <= 'z') || ('0' <= c && c <= '9') || c == '-') {
            assert(!name_char(n@[i as int]));
            ok = false;
        }
        i += 1;
    }
    if ok {
        let first = v[0];
        let last = v[len - 1];
        let alnum_first = ('a' <= first && first <= 'z') || ('A' <= first && first <= 'Z') || ('0' <= first && first <= '9');
        let alnum_last = ('a' <= last && last <= 'z') || ('A' <= last && last <= 'Z') || ('0' <= last && last <= '9');
        ok = alnum_first && alnum_last;
    }
    if ok {
        Ok(())
    } else {
        let mut e = quoted(n);
        push_str(
            &mut e,
            " is not a project name: lowercase letters, digits and '-', at most 63, starting and ending with a letter or digit",
        );
        Err(e)
    }
}

/// An ASCII letter in lower case; anything else as it is.
pub open spec fn ascii_lower(c: char) -> char {
    if is_ascii_upper(c) { ((c as u32) + 32) as char } else { c }
}

/// A character of a slug: a letter or digit, lower-cased, or `-`.
pub open spec fn slug_char(c: char) -> char {
    if is_ascii_alnum(c) { ascii_lower(c) } else { '-' }
}

pub open spec fn slug(s: Seq<char>) -> Seq<char> {
    s.map_values(|c: char| slug_char(c))
}

fn slug_char_exec(c: char) -> (r: char)
    ensures
        r == slug_char(c),
{
    if 'A' <= c && c <= 'Z' {
        let b: u8 = ((c as u32) + 32) as u8;
        b as char
    } else if ('a' <= c && c <= 'z') || ('0' <= c && c <= '9') {
        c
    } else {
        '-'
    }
}

fn slug_of(s: &str) -> (r: Vec<char>)
    ensures
        r@ == slug(s@),
{
    let v = chars_of(s);
    let mut out: Vec<char> = Vec::new();
    let mut i: usize = 0;
    while i < v.len()
        invariant
            i <= v@.len(),
            v@ == s@,
            out@ == slug(s@).take(i as int),
        decreases v@.len() - i,
    {
        out.push(slug_char_exec(v[i]));
        assert(slug(s@).take(i + 1) == slug(s@).take(i as int).push(slug_char(s@[i as int])));
        i += 1;
    }
    assert(slug(s@).take(v@.len() as int) == slug(s@));
    out
}

/// A name to offer somebody making their first project: theirs, as a
/// slug of at most fifty characters ("my" when nothing is left of it),
/// then what it is for.
pub open spec fn suggest_spec(user: Seq<char>, purpose: Seq<char>) -> Seq<char> {
    let b = trim_char(slug(user), '-');
    let base = if b.len() == 0 { "my"@ } else { b };
    (if base.len() > 50 { base.take(50) } else { base }) + "-"@ + purpose
}

proof fn lemma_slug_char(c: char)
    ensures
        lower_alnum(slug_char(c)) || slug_char(c) == '-',
        is_ascii_alnum(c) ==> lower_alnum(slug_char(c)),
{
    if is_ascii_upper(c) {
        assert(((c as u32) + 32) as char == ascii_lower(c));
        assert('a' <= ascii_lower(c) <= 'z');
    }
}

/// A suggested name is one the apiserver takes: whatever the user is
/// called, the suggestion for a purpose that is itself a short DNS-1123
/// label (at most 12 characters) is a DNS-1123 label, and it ends with
/// that purpose.
pub proof fn law_suggestion_is_a_name(user: Seq<char>, purpose: Seq<char>)
    requires
        dns_label(purpose),
        purpose.len() <= 12,
    ensures
        dns_label(suggest_spec(user, purpose)),
        suggest_spec(user, purpose).len() >= purpose.len() + 1,
        suggest_spec(user, purpose).skip(suggest_spec(user, purpose).len() - purpose.len()) == purpose,
{
    let sl = slug(user);
    assert forall|k: int| 0 <= k < sl.len() implies lower_alnum(#[trigger] sl[k]) || sl[k] == '-' by {
        lemma_slug_char(user[k]);
    }
    let b = trim_char(sl, '-');
    crate::text::lemma_first_at_props(sl.len() as int, crate::text::char_not(sl, '-'));
    crate::text::lemma_last_at_props(sl.len() as int, crate::text::char_not(sl, '-'));
    reveal_strlit("my");
    reveal_strlit("-");
    let base = if b.len() == 0 { "my"@ } else { b };
    assert(base.len() > 0);
    assert(lower_alnum(base[0]));
    assert forall|k: int| 0 <= k < base.len() implies lower_alnum(#[trigger] base[k]) || base[k] == '-' by {
        if b.len() > 0 {
            match (crate::text::first_at(sl.len() as int, crate::text::char_not(sl, '-')), crate::text::last_at(sl.len() as int, crate::text::char_not(sl, '-'))) {
                (Some(i), Some(j)) => {
                    assert(base[k] == sl[i + k]);
                },
                _ => {},
            }
        }
    }
    let cut = if base.len() > 50 { base.take(50) } else { base };
    let r = cut + "-"@ + purpose;
    assert(r == suggest_spec(user, purpose));
    assert(r[0] == cut[0]);
    assert(r[r.len() - 1] == purpose[purpose.len() - 1]);
    assert forall|k: int| 0 <= k < r.len() implies lower_alnum(#[trigger] r[k]) || r[k] == '-' by {
        if k < cut.len() {
            assert(r[k] == base[k]);
        } else if k > cut.len() {
            assert(r[k] == purpose[k - cut.len() - 1]);
        }
    }
    assert(r.skip(r.len() - purpose.len()) =~= purpose);
}

pub fn suggest(user: &str, purpose: &str) -> (r: String)
    ensures
        r@ == suggest_spec(user@, purpose@),
{
    let v = slug_of(user);
    let (a, b) = trim_char_range(v.as_slice(), '-');
    let mut out = String::new();
    if a == b {
        push_str(&mut out, "my");
        proof {
            reveal_strlit("my");
        }
    } else {
        let end = if b - a > 50 { a + 50 } else { b };
        let mut i = a;
        while i < end
            invariant
                a <= i <= end <= b <= v@.len(),
                out@ == v@.subrange(a as int, i as int),
            decreases end - i,
        {
            push_char(&mut out, v[i]);
            assert(v@.subrange(a as int, i + 1) == v@.subrange(a as int, i as int).push(v@[i as int]));
            i += 1;
        }
        assert(v@.subrange(a as int, end as int) == (if b - a > 50 { v@.subrange(a as int, b as int).take(50) } else { v@.subrange(a as int, b as int) }));
    }
    push_str(&mut out, "-");
    push_str(&mut out, purpose);
    out
}

/// The roles a member can hold, most to least.
pub open spec fn is_role(r: Seq<char>) -> bool {
    r == "admin"@ || r == "edit"@ || r == "view"@
}

pub fn role_known(r: &str) -> (b: bool)
    ensures
        b == is_role(r@),
{
    str_eq(r, "admin") || str_eq(r, "edit") || str_eq(r, "view")
}

/// Whom a binding names.
#[derive(Debug, Clone, PartialEq)]
pub enum Subject {
    ServiceAccount { name: String, namespace: String },
    User { name: String },
}

/// The RoleBinding that makes somebody a member of a project.
#[derive(Debug, Clone, PartialEq)]
pub struct RoleBinding {
    pub name: String,
    pub namespace: String,
    pub role: String,
    pub subject: Subject,
}

pub open spec fn role_refusal(role: Seq<char>) -> Seq<char> {
    debug_quoted(role) + " is not a project role: admin, edit or view"@
}

pub open spec fn who_refusal() -> Seq<char> {
    "who? A user name, or system:serviceaccount:<namespace>:<name>"@
}

/// `system:serviceaccount:<ns>:<name>` is a ServiceAccount's namespace and
/// name; anything else is a user.
pub open spec fn service_account(who: Seq<char>) -> Option<(Seq<char>, Seq<char>)> {
    match strip_prefix(who, "system:serviceaccount:"@) {
        Some(rest) => split_once(rest, ':'),
        None => None,
    }
}

/// What is made of the request to make `who` a `role` in `ns`.
pub open spec fn binding_ok(b: RoleBinding, ns: Seq<char>, who: Seq<char>, role: Seq<char>) -> bool {
    let w = trim(who);
    &&& b.name@ == role + "-"@ + trim_char(slug(w), '-')
    &&& b.namespace@ == ns
    &&& b.role@ == role
    &&& match (b.subject, service_account(w)) {
        (Subject::ServiceAccount { name, namespace }, Some((sns, sname))) => name@ == sname && namespace@ == sns,
        (Subject::User { name }, None) => name@ == w,
        _ => false,
    }
}

/// The RoleBinding that makes `who` a `role` in `ns`, or why not.
pub fn binding(ns: &str, who: &str, role: &str) -> (r: Result<RoleBinding, String>)
    ensures
        !is_role(role@) ==> (r matches Err(e) && e@ == role_refusal(role@)),
        is_role(role@) && trim(who@).len() == 0 ==> (r matches Err(e) && e@ == who_refusal()),
        is_role(role@) && trim(who@).len() > 0 ==> (r matches Ok(b) && binding_ok(b, ns@, who@, role@)),
{
    if !role_known(role) {
        let mut e = quoted(role);
        push_str(&mut e, " is not a project role: admin, edit or view");
        return Err(e);
    }
    let who = trim_str(who);
    if who.unicode_len() == 0 {
        return Err(owned("who? A user name, or system:serviceaccount:<namespace>:<name>"));
    }
    let subject = match strip_prefix_str(who, "system:serviceaccount:") {
        Some(rest) => match split_once_str(rest, ':') {
            Some((sns, name)) => Subject::ServiceAccount { name: owned(name), namespace: owned(sns) },
            None => Subject::User { name: owned(who) },
        },
        None => Subject::User { name: owned(who) },
    };
    let s = slug_of(who);
    let (a, b) = trim_char_range(s.as_slice(), '-');
    let mut name = owned(role);
    push_str(&mut name, "-");
    let mut i = a;
    while i < b
        invariant
            a <= i <= b <= s@.len(),
            name@ == role@ + "-"@ + s@.subrange(a as int, i as int),
        decreases b - i,
    {
        push_char(&mut name, s[i]);
        assert(s@.subrange(a as int, i + 1) == s@.subrange(a as int, i as int).push(s@[i as int]));
        i += 1;
    }
    Ok(RoleBinding { name, namespace: owned(ns), role: owned(role), subject })
}


/// An annotation that says something: present, text, and not empty.
pub open spec fn ann_spec(o: Json, k: Seq<char>) -> Option<Seq<char>> {
    match o.path(seq!["metadata"@, "annotations"@]) {
        Some(a) => match a.member(k) {
            Some(v) => match v.str_of() {
                Some(t) => if t.len() > 0 { Some(t) } else { None },
                None => None,
            },
            None => None,
        },
        None => None,
    }
}

fn ann(o: &Json, k: &str) -> (r: Option<String>)
    ensures
        opt_chars(r) == ann_spec(*o, k@),
{
    match at2(o, "metadata", "annotations") {
        Some(a) => match a.get(k) {
            Some(v) => match v.as_str() {
                Some(t) => if t.unicode_len() > 0 { Some(owned(t)) } else { None },
                None => None,
            },
            None => None,
        },
        None => None,
    }
}

/// One project as a row, from a `Project` or a `Namespace`, which carry
/// the same metadata.
#[derive(Debug, Clone, PartialEq)]
pub struct ProjectRow {
    pub name: String,
    pub display_name: Option<String>,
    pub description: Option<String>,
    pub requester: Option<String>,
    pub phase: Option<String>,
    pub created: Option<String>,
    pub system: bool,
    pub isolated: bool,
    pub dns: bool,
}

pub type RowV = (Seq<char>, Option<Seq<char>>, Option<Seq<char>>, Option<Seq<char>>, Option<Seq<char>>, Option<Seq<char>>, bool, bool, bool);

pub open spec fn row_view(r: ProjectRow) -> RowV {
    (r.name@, opt_chars(r.display_name), opt_chars(r.description), opt_chars(r.requester), opt_chars(r.phase),
        opt_chars(r.created), r.system, r.isolated, r.dns)
}

pub open spec fn rows_view(rs: Seq<ProjectRow>) -> Seq<RowV> {
    rs.map_values(|r: ProjectRow| row_view(r))
}

/// What a row says of an object: its name, its descriptive annotations,
/// phase and creation time, whether it is the system's, and its isolation
/// (`isolated` holds whether names resolve, when it is isolated at all).
pub open spec fn row_spec(o: Json, system: bool, isolated: Option<bool>) -> RowV {
    (
        or_empty(o.path_str(seq!["metadata"@, "name"@])),
        ann_spec(o, DISPLAY@),
        ann_spec(o, DESCRIPTION@),
        ann_spec(o, REQUESTER@),
        o.path_str(seq!["status"@, "phase"@]),
        o.path_str(seq!["metadata"@, "creationTimestamp"@]),
        system,
        match isolated {
            Some(b) => b,
            None => false,
        },
        isolated == Some(true),
    )
}

fn opt_owned(t: Option<&str>) -> (r: Option<String>)
    ensures
        opt_chars(r) == match t {
            Some(x) => Some(x@),
            None => None,
        },
{
    match t {
        Some(x) => Some(owned(x)),
        None => None,
    }
}

pub fn row(o: &Json, system: bool, isolated: Option<bool>) -> (r: ProjectRow)
    ensures
        row_view(r) == row_spec(*o, system, isolated),
{
    ProjectRow {
        name: text2(o, "metadata", "name"),
        display_name: ann(o, DISPLAY),
        description: ann(o, DESCRIPTION),
        requester: ann(o, REQUESTER),
        phase: opt_owned(str2(o, "status", "phase")),
        created: opt_owned(str2(o, "metadata", "creationTimestamp")),
        system,
        isolated: match isolated {
            Some(b) => b,
            None => false,
        },
        dns: match isolated {
            Some(b) => b,
            None => false,
        },
    }
}

/// Whether key `i` of a kind's store keys is `<ns>/<name>`.
pub open spec fn keyed(keys: Seq<Seq<char>>, ns: Seq<char>, name: Seq<char>) -> bool {
    exists|i: int| 0 <= i < keys.len() && #[trigger] split_once(keys[i], '/') == Some((ns, name))
}

/// A namespace's isolation, from the watched NetworkPolicies' keys: none
/// when it has no isolation policy; whether names resolve when it has.
pub open spec fn isolation_of_spec(ns: Seq<char>, keys: Seq<Seq<char>>) -> Option<bool> {
    if keyed(keys, ns, ISOLATE@) {
        Some(keyed(keys, ns, ISOLATE_DNS@))
    } else {
        None
    }
}

pub open spec fn key_texts(keys: Seq<String>) -> Seq<Seq<char>> {
    keys.map_values(|k: String| k@)
}

fn has_key(keys: &[String], ns: &str, name: &str) -> (r: bool)
    ensures
        r == keyed(key_texts(keys@), ns@, name@),
{
    let ghost ks = key_texts(keys@);
    let mut i: usize = 0;
    while i < keys.len()
        invariant
            i <= keys@.len(),
            ks == key_texts(keys@),
            forall|j: int| 0 <= j < i ==> #[trigger] split_once(ks[j], '/') != Some((ns@, name@)),
        decreases keys@.len() - i,
    {
        match split_once_str(keys[i].as_str(), '/') {
            Some((a, b)) => {
                if str_eq(a, ns) && str_eq(b, name) {
                    assert(split_once(ks[i as int], '/') == Some((ns@, name@)));
                    return true;
                }
            },
            None => {},
        }
        i += 1;
    }
    false
}

pub fn isolation_of(ns: &str, keys: &[String]) -> (r: Option<bool>)
    ensures
        r == isolation_of_spec(ns@, key_texts(keys@)),
{
    if has_key(keys, ns, ISOLATE) {
        Some(has_key(keys, ns, ISOLATE_DNS))
    } else {
        None
    }
}

/// A row with a namespace's isolation put in: isolated when it has an
/// isolation policy, names resolving when it has the DNS one too.
pub open spec fn isolated_view(r: RowV, iso: Option<bool>) -> RowV {
    (r.0, r.1, r.2, r.3, r.4, r.5, r.6, iso is Some, iso == Some(true))
}

pub fn with_isolation(r: ProjectRow, iso: Option<bool>) -> (out: ProjectRow)
    ensures
        row_view(out) == isolated_view(row_view(r), iso),
{
    let isolated = match iso {
        Some(_) => true,
        None => false,
    };
    let dns = match iso {
        Some(b) => b,
        None => false,
    };
    ProjectRow { isolated, dns, ..r }
}

/// Projects before the system's, each in name order.
impl Order for ProjectRow {
    open spec fn before(&self, other: &Self) -> bool {
        crate::text::str_lt(self.name@, other.name@)
    }
}

impl Ranked for ProjectRow {
    fn is_before(&self, other: &Self) -> (r: bool) {
        crate::text::str_less(self.name.as_str(), other.name.as_str())
    }
}

/// The rows of a project listing: every object as a row, those the system
/// owns apart from the others, and each list in name order.
pub open spec fn listing_rows(objects: Seq<Json>, extra: Seq<Seq<char>>, keys: Seq<Seq<char>>, system: bool) -> Seq<RowV>
    decreases objects.len(),
{
    if objects.len() == 0 {
        Seq::empty()
    } else {
        let o = objects.last();
        let name = or_empty(o.path_str(seq!["metadata"@, "name"@]));
        let rest = listing_rows(objects.drop_last(), extra, keys, system);
        if crate::k8s::authz::system_namespace(name, extra) == system {
            rest.push(isolated_view(row_spec(o, system, None), isolation_of_spec(name, keys)))
        } else {
            rest
        }
    }
}

impl Order for (Seq<char>, Option<Seq<char>>, Option<Seq<char>>, Option<Seq<char>>, Option<Seq<char>>, Option<Seq<char>>, bool, bool, bool) {
    open spec fn before(&self, other: &Self) -> bool {
        crate::text::str_lt(self.0, other.0)
    }
}

/// The projects and the system namespaces of a listing, each sorted by
/// name (the part of the project list after the fetch).
pub fn project_rows(objects: &Vec<Json>, extra: &[String], keys: &[String]) -> (r: (Vec<ProjectRow>, Vec<ProjectRow>))
    ensures
        rows_view(r.0@) == sorted(listing_rows(objects@, key_texts(extra@), key_texts(keys@), false)),
        rows_view(r.1@) == sorted(listing_rows(objects@, key_texts(extra@), key_texts(keys@), true)),
{
    let ghost ev = key_texts(extra@);
    let ghost kv = key_texts(keys@);
    let mut projects: Vec<ProjectRow> = Vec::new();
    let mut system: Vec<ProjectRow> = Vec::new();
    let mut i: usize = 0;
    assert(objects@.take(0) =~= Seq::<Json>::empty());
    assert(rows_view(projects@) =~= Seq::<RowV>::empty());
    assert(rows_view(system@) =~= Seq::<RowV>::empty());
    while i < objects.len()
        invariant
            i <= objects@.len(),
            ev == key_texts(extra@),
            kv == key_texts(keys@),
            rows_view(projects@) == listing_rows(objects@.take(i as int), ev, kv, false),
            rows_view(system@) == listing_rows(objects@.take(i as int), ev, kv, true),
        decreases objects@.len() - i,
    {
        let o = &objects[i];
        let name = text2(o, "metadata", "name");
        let sys = crate::k8s::authz::is_system_namespace(name.as_str(), extra);
        assert(extra@.map_values(|s: String| s@) =~= ev);
        let iso = isolation_of(name.as_str(), keys);
        let r = with_isolation(row(o, sys, None), iso);
        proof {
            assert(objects@.take(i + 1).drop_last() =~= objects@.take(i as int));
            assert(objects@.take(i + 1).last() == objects@[i as int]);
        }
        let ghost rv = row_view(r);
        let ghost p0 = projects@;
        let ghost s0 = system@;
        if sys {
            system.push(r);
            assert(system@ =~= s0.push(r));
            assert(rows_view(system@) =~= rows_view(s0).push(rv));
        } else {
            projects.push(r);
            assert(projects@ =~= p0.push(r));
            assert(rows_view(projects@) =~= rows_view(p0).push(rv));
        }
        assert(rows_view(projects@) =~= listing_rows(objects@.take(i + 1), ev, kv, false));
        assert(rows_view(system@) =~= listing_rows(objects@.take(i + 1), ev, kv, true));
        i += 1;
    }
    assert(objects@.take(objects@.len() as int) =~= objects@);
    let ghost pv = projects@;
    let ghost sv = system@;
    let p = sort_stable(projects);
    let q = sort_stable(system);
    proof {
        crate::sort::lemma_sorted_map(pv, |r: ProjectRow| row_view(r));
        crate::sort::lemma_sorted_map(sv, |r: ProjectRow| row_view(r));
    }
    (p, q)
}

/// One member of a project: a subject of a RoleBinding to one of the
/// project roles. The binding's name and the subject's kind, name and
/// namespace are read as text.
#[derive(Debug, Clone, PartialEq)]
pub struct MemberRow {
    pub binding: Option<String>,
    pub role: String,
    pub kind: Option<String>,
    pub name: Option<String>,
    pub namespace: Option<String>,
}

pub type MemberV = (Option<Seq<char>>, Seq<char>, Option<Seq<char>>, Option<Seq<char>>, Option<Seq<char>>);

pub open spec fn member_view(m: MemberRow) -> MemberV {
    (opt_chars(m.binding), m.role@, opt_chars(m.kind), opt_chars(m.name), opt_chars(m.namespace))
}

pub open spec fn members_view(ms: Seq<MemberRow>) -> Seq<MemberV> {
    ms.map_values(|m: MemberRow| member_view(m))
}

/// Where a role stands among the project roles, most first.
pub open spec fn role_rank(role: Seq<char>) -> int {
    if role == "admin"@ {
        0
    } else if role == "edit"@ {
        1
    } else if role == "view"@ {
        2
    } else {
        9
    }
}

/// A missing name sorts first, then names in order.
pub open spec fn name_before(a: Option<Seq<char>>, b: Option<Seq<char>>) -> bool {
    match (a, b) {
        (None, Some(_)) => true,
        (Some(x), Some(y)) => crate::text::str_lt(x, y),
        _ => false,
    }
}

pub open spec fn member_before(a: MemberV, b: MemberV) -> bool {
    role_rank(a.1) < role_rank(b.1) || (role_rank(a.1) == role_rank(b.1) && name_before(a.3, b.3))
}

impl Order for (Option<Seq<char>>, Seq<char>, Option<Seq<char>>, Option<Seq<char>>, Option<Seq<char>>) {
    open spec fn before(&self, other: &Self) -> bool {
        member_before(*self, *other)
    }
}

impl Order for MemberRow {
    open spec fn before(&self, other: &Self) -> bool {
        member_before(member_view(*self), member_view(*other))
    }
}

fn rank_of(role: &str) -> (r: u8)
    ensures
        r == role_rank(role@),
{
    if str_eq(role, "admin") {
        0
    } else if str_eq(role, "edit") {
        1
    } else if str_eq(role, "view") {
        2
    } else {
        9
    }
}

impl Ranked for MemberRow {
    fn is_before(&self, other: &Self) -> (r: bool) {
        let a = rank_of(self.role.as_str());
        let b = rank_of(other.role.as_str());
        if a != b {
            return a < b;
        }
        match (&self.name, &other.name) {
            (None, Some(_)) => true,
            (Some(x), Some(y)) => crate::text::str_less(x.as_str(), y.as_str()),
            _ => false,
        }
    }
}

/// A binding that makes project members: to a ClusterRole that is one of
/// the project roles.
pub open spec fn project_binding(b: Json) -> bool {
    b.path_str(seq!["roleRef"@, "kind"@]) == Some("ClusterRole"@)
        && is_role(or_empty(b.path_str(seq!["roleRef"@, "name"@])))
}

pub open spec fn member_of(b: Json, s: Json) -> MemberV {
    (
        b.path_str(seq!["metadata"@, "name"@]),
        or_empty(b.path_str(seq!["roleRef"@, "name"@])),
        s.path_str(seq!["kind"@]),
        s.path_str(seq!["name"@]),
        s.path_str(seq!["namespace"@]),
    )
}

pub open spec fn subjects_of(b: Json) -> Seq<Json> {
    match b.path_arr(seq!["subjects"@]) {
        Some(a) => a,
        None => Seq::empty(),
    }
}

/// The members one binding makes: one per subject.
pub open spec fn binding_rows(b: Json) -> Seq<MemberV> {
    if project_binding(b) {
        Seq::new(subjects_of(b).len(), |j: int| member_of(b, subjects_of(b)[j]))
    } else {
        Seq::empty()
    }
}

pub open spec fn all_rows(items: Seq<Json>) -> Seq<MemberV>
    decreases items.len(),
{
    if items.len() == 0 {
        Seq::empty()
    } else {
        all_rows(items.drop_last()) + binding_rows(items.last())
    }
}

/// The members of a project: every subject of every binding in it to a
/// project role, admins first, then editors, then viewers, each by name.
pub open spec fn members_spec(bindings: Json) -> Seq<MemberV> {
    sorted(all_rows(match bindings.path_arr(seq!["items"@]) {
        Some(a) => a,
        None => Seq::empty(),
    }))
}

fn member_row(b: &Json, role: &str, s: &Json) -> (m: MemberRow)
    requires
        role@ == or_empty(b.path_str(seq!["roleRef"@, "name"@])),
    ensures
        member_view(m) == member_of(*b, *s),
{
    MemberRow {
        binding: opt_owned(str2(b, "metadata", "name")),
        role: owned(role),
        kind: opt_owned(str1(s, "kind")),
        name: opt_owned(str1(s, "name")),
        namespace: opt_owned(str1(s, "namespace")),
    }
}

fn push_binding(out: &mut Vec<MemberRow>, b: &Json)
    ensures
        members_view(final(out)@) == members_view(old(out)@) + binding_rows(*b),
{
    let kind_ok = match str2(b, "roleRef", "kind") {
        Some(k) => str_eq(k, "ClusterRole"),
        None => false,
    };
    let role = match str2(b, "roleRef", "name") {
        Some(r) => r,
        None => {
            proof {
                reveal_strlit("");
                assert(""@ =~= Seq::<char>::empty());
            }
            ""
        },
    };
    assert(role@ == or_empty(b.path_str(seq!["roleRef"@, "name"@])));
    assert(kind_ok == (b.path_str(seq!["roleRef"@, "kind"@]) == Some("ClusterRole"@)));
    if !(kind_ok && role_known(role)) {
        assert(binding_rows(*b) =~= Seq::<MemberV>::empty());
        assert(members_view(out@) + binding_rows(*b) =~= members_view(out@));
        return;
    }
    let ss = match arr_1(b, "subjects") {
        Some(a) => a,
        None => {
            assert(binding_rows(*b) =~= Seq::<MemberV>::empty());
            assert(members_view(out@) + binding_rows(*b) =~= members_view(out@));
            return;
        },
    };
    let ghost start = members_view(out@);
    let ghost rows = binding_rows(*b);
    let mut j: usize = 0;
    while j < ss.len()
        invariant
            j <= ss@.len(),
            ss@ == subjects_of(*b),
            rows == binding_rows(*b),
            rows.len() == ss@.len(),
            role@ == or_empty(b.path_str(seq!["roleRef"@, "name"@])),
            members_view(out@) == start + rows.take(j as int),
        decreases ss@.len() - j,
    {
        let m = member_row(b, role, &ss[j]);
        let ghost o0 = out@;
        out.push(m);
        proof {
            assert(out@ =~= o0.push(m));
            assert(members_view(out@) =~= members_view(o0).push(member_view(m)));
            assert(rows.take(j + 1) =~= rows.take(j as int).push(rows[j as int]));
        }
        j += 1;
    }
    assert(rows.take(ss@.len() as int) =~= rows);
}

pub fn members(bindings: &Json) -> (r: Vec<MemberRow>)
    ensures
        members_view(r@) == members_spec(*bindings),
{
    let empty: Vec<Json> = Vec::new();
    let items = match arr_1(bindings, "items") {
        Some(a) => a,
        None => &empty,
    };
    assert(items@ == match bindings.path_arr(seq!["items"@]) {
        Some(a) => a,
        None => Seq::<Json>::empty(),
    });
    let mut out: Vec<MemberRow> = Vec::new();
    let mut i: usize = 0;
    assert(members_view(out@) =~= Seq::<MemberV>::empty());
    assert(items@.take(0) =~= Seq::<Json>::empty());
    while i < items.len()
        invariant
            i <= items@.len(),
            members_view(out@) == all_rows(items@.take(i as int)),
        decreases items@.len() - i,
    {
        push_binding(&mut out, &items[i]);
        proof {
            assert(items@.take(i + 1).drop_last() =~= items@.take(i as int));
            assert(items@.take(i + 1).last() == items@[i as int]);
        }
        i += 1;
    }
    assert(items@.take(items@.len() as int) =~= items@);
    let ghost unsorted = out@;
    let r = sort_stable(out);
    proof {
        crate::sort::lemma_sorted_map(unsorted, |m: MemberRow| member_view(m));
    }
    r
}

/// The isolation policies for a namespace: every pod in it may talk to
/// every other and nothing else goes in or out; with `dns`, a second one
/// lets names be resolved in kube-system.
#[derive(Debug, Clone, PartialEq)]
pub struct IsolationPolicy {
    pub name: String,
    pub namespace: String,
    /// The DNS exception rather than the isolation itself.
    pub dns: bool,
}

pub fn isolation(ns: &str, dns: bool) -> (r: Vec<IsolationPolicy>)
    ensures
        r@.len() == (if dns { 2int } else { 1int }),
        r@[0].name@ == ISOLATE@ && r@[0].namespace@ == ns@ && !r@[0].dns,
        dns ==> r@[1].name@ == ISOLATE_DNS@ && r@[1].namespace@ == ns@ && r@[1].dns,
{
    let mut out: Vec<IsolationPolicy> = Vec::new();
    out.push(IsolationPolicy { name: owned(ISOLATE), namespace: owned(ns), dns: false });
    if dns {
        out.push(IsolationPolicy { name: owned(ISOLATE_DNS), namespace: owned(ns), dns: true });
    }
    out
}

/// What the apiserver said when it refused: its message, or its status.
pub open spec fn apiserver_says_spec(status: u16, body: Json) -> Seq<char> {
    match body.path_str(seq!["message"@]) {
        Some(m) => m,
        None => "apiserver returned "@ + crate::text::decimal(status as nat),
    }
}

pub fn apiserver_says(status: u16, body: &Json) -> (r: String)
    ensures
        r@ == apiserver_says_spec(status, *body),
{
    match str1(body, "message") {
        Some(m) => owned(m),
        None => {
            let mut e = owned("apiserver returned ");
            crate::text::push_decimal(&mut e, status as u64);
            e
        },
    }
}

/// The status a refusal is passed on with: "you may not" stays a 403, a
/// missing object a 404, a conflict a 409, a bad request a 400; anything
/// else is the gateway's failure.
pub open spec fn refusal_status_spec(status: u16) -> u16 {
    if status == 403 {
        403
    } else if status == 404 {
        404
    } else if status == 409 {
        409
    } else if status == 422 || status == 400 {
        400
    } else {
        502
    }
}

pub fn refusal_status(status: u16) -> (r: u16)
    ensures
        r == refusal_status_spec(status),
{
    if status == 403 {
        403
    } else if status == 404 {
        404
    } else if status == 409 {
        409
    } else if status == 422 || status == 400 {
        400
    } else {
        502
    }
}

} // verus!
