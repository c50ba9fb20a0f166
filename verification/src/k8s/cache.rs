//! What the watch cache holds: one declaration per resource kind, read by
//! everything that needs to know whether a kind lives in a namespace.

use vstd::prelude::*;
use crate::text::{
    chars_of, find_char_in, owned, push_str, rsplit_once, rsplit_once_str, split_once, split_once_str,
    str_eq,
};

verus! {

/// One watched resource.
///
/// `kind` is the console's short noun: the component id's middle, the hash
/// route and the key the SPA asks for. `api_kind` is what the apiserver
/// calls it, and what an event's `involvedObject` carries.
#[derive(Debug, Clone, Copy, PartialEq, Eq)]
pub struct ResourceSpec {
    pub kind: &'static str,
    pub title: &'static str,
    pub list_path: &'static str,
    pub api_kind: &'static str,
    pub namespaced: bool,
    /// A CRD that may not be installed: a 404 means "none", not "broken".
    pub optional: bool,
    /// Counted in a namespace's inventory.
    pub inventory: bool,
}

pub open spec fn in_namespace(
    kind: &'static str,
    title: &'static str,
    list_path: &'static str,
    api_kind: &'static str,
) -> ResourceSpec {
    ResourceSpec { kind, title, list_path, api_kind, namespaced: true, optional: false, inventory: true }
}

pub open spec fn cluster_wide(
    kind: &'static str,
    title: &'static str,
    list_path: &'static str,
    api_kind: &'static str,
) -> ResourceSpec {
    ResourceSpec { kind, title, list_path, api_kind, namespaced: false, optional: false, inventory: false }
}

pub open spec fn custom(
    kind: &'static str,
    title: &'static str,
    list_path: &'static str,
    api_kind: &'static str,
    namespaced: bool,
) -> ResourceSpec {
    ResourceSpec { kind, title, list_path, api_kind, namespaced, optional: true, inventory: namespaced }
}

/// Every kind the plugin watches, in the order the catalogue lists them.
pub open spec fn resources_spec() -> Seq<ResourceSpec> {
    seq![
        cluster_wide("ns", "Namespaces", "/api/v1/namespaces", "Namespace"),
        cluster_wide("node", "Nodes", "/api/v1/nodes", "Node"),
        in_namespace("pod", "Pods", "/api/v1/pods", "Pod"),
        in_namespace("deploy", "Deployments", "/apis/apps/v1/deployments", "Deployment"),
        in_namespace("sts", "StatefulSets", "/apis/apps/v1/statefulsets", "StatefulSet"),
        in_namespace("ds", "DaemonSets", "/apis/apps/v1/daemonsets", "DaemonSet"),
        in_namespace("job", "Jobs", "/apis/batch/v1/jobs", "Job"),
        in_namespace("cronjob", "CronJobs", "/apis/batch/v1/cronjobs", "CronJob"),
        in_namespace("svc", "Services", "/api/v1/services", "Service"),
        in_namespace("pvc", "PersistentVolumeClaims", "/api/v1/persistentvolumeclaims", "PersistentVolumeClaim"),
        in_namespace("cm", "ConfigMaps", "/api/v1/configmaps", "ConfigMap"),
        in_namespace("netpol", "Network policies", "/apis/networking.k8s.io/v1/networkpolicies", "NetworkPolicy"),
        in_namespace("quota", "Resource quotas", "/api/v1/resourcequotas", "ResourceQuota"),
        in_namespace("limits", "Limit ranges", "/api/v1/limitranges", "LimitRange"),
        custom("cep", "Cilium endpoints", "/apis/cilium.io/v2/ciliumendpoints", "CiliumEndpoint", true),
        custom("cn", "Cilium nodes", "/apis/cilium.io/v2/ciliumnodes", "CiliumNode", false),
        custom("cid", "Cilium identities", "/apis/cilium.io/v2/ciliumidentities", "CiliumIdentity", false),
        custom("cnp", "Cilium network policies", "/apis/cilium.io/v2/ciliumnetworkpolicies", "CiliumNetworkPolicy", true),
        custom(
            "ccnp",
            "Cilium clusterwide policies",
            "/apis/cilium.io/v2/ciliumclusterwidenetworkpolicies",
            "CiliumClusterwideNetworkPolicy",
            false,
        ),
    ]
}

/// The declarations, as values.
pub fn resources() -> (r: Vec<ResourceSpec>)
    ensures
        r@ == resources_spec(),
{
    let r = vec![
        ResourceSpec { kind: "ns", title: "Namespaces", list_path: "/api/v1/namespaces", api_kind: "Namespace", namespaced: false, optional: false, inventory: false },
        ResourceSpec { kind: "node", title: "Nodes", list_path: "/api/v1/nodes", api_kind: "Node", namespaced: false, optional: false, inventory: false },
        ResourceSpec { kind: "pod", title: "Pods", list_path: "/api/v1/pods", api_kind: "Pod", namespaced: true, optional: false, inventory: true },
        ResourceSpec { kind: "deploy", title: "Deployments", list_path: "/apis/apps/v1/deployments", api_kind: "Deployment", namespaced: true, optional: false, inventory: true },
        ResourceSpec { kind: "sts", title: "StatefulSets", list_path: "/apis/apps/v1/statefulsets", api_kind: "StatefulSet", namespaced: true, optional: false, inventory: true },
        ResourceSpec { kind: "ds", title: "DaemonSets", list_path: "/apis/apps/v1/daemonsets", api_kind: "DaemonSet", namespaced: true, optional: false, inventory: true },
        ResourceSpec { kind: "job", title: "Jobs", list_path: "/apis/batch/v1/jobs", api_kind: "Job", namespaced: true, optional: false, inventory: true },
        ResourceSpec { kind: "cronjob", title: "CronJobs", list_path: "/apis/batch/v1/cronjobs", api_kind: "CronJob", namespaced: true, optional: false, inventory: true },
        ResourceSpec { kind: "svc", title: "Services", list_path: "/api/v1/services", api_kind: "Service", namespaced: true, optional: false, inventory: true },
        ResourceSpec { kind: "pvc", title: "PersistentVolumeClaims", list_path: "/api/v1/persistentvolumeclaims", api_kind: "PersistentVolumeClaim", namespaced: true, optional: false, inventory: true },
        ResourceSpec { kind: "cm", title: "ConfigMaps", list_path: "/api/v1/configmaps", api_kind: "ConfigMap", namespaced: true, optional: false, inventory: true },
        ResourceSpec { kind: "netpol", title: "Network policies", list_path: "/apis/networking.k8s.io/v1/networkpolicies", api_kind: "NetworkPolicy", namespaced: true, optional: false, inventory: true },
        ResourceSpec { kind: "quota", title: "Resource quotas", list_path: "/api/v1/resourcequotas", api_kind: "ResourceQuota", namespaced: true, optional: false, inventory: true },
        ResourceSpec { kind: "limits", title: "Limit ranges", list_path: "/api/v1/limitranges", api_kind: "LimitRange", namespaced: true, optional: false, inventory: true },
        ResourceSpec { kind: "cep", title: "Cilium endpoints", list_path: "/apis/cilium.io/v2/ciliumendpoints", api_kind: "CiliumEndpoint", namespaced: true, optional: true, inventory: true },
        ResourceSpec { kind: "cn", title: "Cilium nodes", list_path: "/apis/cilium.io/v2/ciliumnodes", api_kind: "CiliumNode", namespaced: false, optional: true, inventory: false },
        ResourceSpec { kind: "cid", title: "Cilium identities", list_path: "/apis/cilium.io/v2/ciliumidentities", api_kind: "CiliumIdentity", namespaced: false, optional: true, inventory: false },
        ResourceSpec { kind: "cnp", title: "Cilium network policies", list_path: "/apis/cilium.io/v2/ciliumnetworkpolicies", api_kind: "CiliumNetworkPolicy", namespaced: true, optional: true, inventory: true },
        ResourceSpec { kind: "ccnp", title: "Cilium clusterwide policies", list_path: "/apis/cilium.io/v2/ciliumclusterwidenetworkpolicies", api_kind: "CiliumClusterwideNetworkPolicy", namespaced: false, optional: true, inventory: false },
    ];
    assert(r@ =~= resources_spec());
    r
}


pub open spec fn kind_at(t: Seq<ResourceSpec>, kind: Seq<char>) -> spec_fn(int) -> bool {
    |i: int| t[i].kind@ == kind
}

/// The declaration of a kind, by its short noun.
pub open spec fn spec_of(kind: Seq<char>) -> Option<ResourceSpec> {
    let t = resources_spec();
    match crate::text::first_at(t.len() as int, kind_at(t, kind)) {
        Some(i) => Some(t[i]),
        None => None,
    }
}

/// Whether a kind lives in a namespace. Unknown kinds are cluster-scoped,
/// because filtering something by a namespace it does not have hides it
/// entirely.
pub open spec fn namespaced_kind(kind: Seq<char>) -> bool {
    spec_of(kind) matches Some(s) && s.namespaced
}

/// The declaration of a kind.
pub fn spec(kind: &str) -> (r: Option<ResourceSpec>)
    ensures
        r == spec_of(kind@),
{
    let t = resources();
    let mut i: usize = 0;
    while i < t.len()
        invariant
            i <= t@.len(),
            t@ == resources_spec(),
            forall|j: int| 0 <= j < i ==> !#[trigger] kind_at(t@, kind@)(j),
        decreases t@.len() - i,
    {
        if str_eq(t[i].kind, kind) {
            proof {
                crate::text::lemma_first_at_some(t@.len() as int, kind_at(t@, kind@), i as int);
            }
            return Some(t[i]);
        }
        i += 1;
    }
    proof {
        crate::text::lemma_first_at_none(t@.len() as int, kind_at(t@, kind@));
    }
    None
}

/// Is this kind scoped to a namespace?
pub fn is_namespaced(kind: &str) -> (r: bool)
    ensures
        r == namespaced_kind(kind@),
{
    match spec(kind) {
        Some(s) => s.namespaced,
        None => false,
    }
}

/// The collection's group-version base and its plural: the list path split
/// at its last `/`, or nothing and the whole path when it has none.
pub open spec fn split_path_spec(path: Seq<char>) -> (Seq<char>, Seq<char>) {
    match rsplit_once(path, '/') {
        Some((base, plural)) => (base, plural),
        None => (Seq::empty(), path),
    }
}

/// Where one object lives, from the key the store uses: a namespaced kind's
/// `ns/name` goes under `namespaces/ns`, anything else straight under the
/// plural.
pub open spec fn object_path_spec(r: ResourceSpec, key: Seq<char>) -> Seq<char> {
    let (base, plural) = split_path_spec(r.list_path@);
    match (r.namespaced, split_once(key, '/')) {
        (true, Some((ns, name))) => base + "/namespaces/"@ + ns + "/"@ + plural + "/"@ + name,
        _ => base + "/"@ + plural + "/"@ + key,
    }
}

impl ResourceSpec {
    /// `/apis/apps/v1/deployments` is `/apis/apps/v1` and `deployments`.
    pub fn split_path(&self) -> (r: (&'static str, &'static str))
        ensures
            r.0@ == split_path_spec(self.list_path@).0,
            r.1@ == split_path_spec(self.list_path@).1,
    {
        match rsplit_once_str(self.list_path, '/') {
            Some((base, plural)) => (base, plural),
            None => {
                proof {
                    reveal_strlit("");
                }
                ("", self.list_path)
            },
        }
    }

    /// The path a YAML edit writes one object back to.
    pub fn object_path(&self, key: &str) -> (r: String)
        ensures
            r@ == object_path_spec(*self, key@),
    {
        let (base, plural) = self.split_path();
        let mut out = owned(base);
        if self.namespaced {
            match split_once_str(key, '/') {
                Some((ns, name)) => {
                    push_str(&mut out, "/namespaces/");
                    push_str(&mut out, ns);
                    push_str(&mut out, "/");
                    push_str(&mut out, plural);
                    push_str(&mut out, "/");
                    push_str(&mut out, name);
                    return out;
                },
                None => {},
            }
        }
        push_str(&mut out, "/");
        push_str(&mut out, plural);
        push_str(&mut out, "/");
        push_str(&mut out, key);
        out
    }
}

/// One row of the kind catalogue the SPA renders from.
#[derive(Debug, Clone, PartialEq)]
pub struct CatalogueEntry {
    pub kind: String,
    pub title: String,
    pub namespaced: bool,
    pub optional: bool,
    pub inventory: bool,
    pub href: String,
}

pub open spec fn entry_matches(e: CatalogueEntry, r: ResourceSpec) -> bool {
    &&& e.kind@ == r.kind@
    &&& e.title@ == r.title@
    &&& e.namespaced == r.namespaced
    &&& e.optional == r.optional
    &&& e.inventory == r.inventory
    &&& e.href@ == "#/k8s/"@ + r.kind@
}

/// The catalogue: what exists, what to call it, whether the namespace
/// selector applies to it, and where its page is.
pub fn catalogue() -> (r: Vec<CatalogueEntry>)
    ensures
        r@.len() == resources_spec().len(),
        forall|i: int| 0 <= i < r@.len() ==> entry_matches(#[trigger] r@[i], resources_spec()[i]),
{
    let t = resources();
    let mut out: Vec<CatalogueEntry> = Vec::new();
    let mut i: usize = 0;
    while i < t.len()
        invariant
            i <= t@.len(),
            t@ == resources_spec(),
            out@.len() == i,
            forall|j: int| 0 <= j < i ==> entry_matches(#[trigger] out@[j], t@[j]),
        decreases t@.len() - i,
    {
        let r = t[i];
        let mut href = owned("#/k8s/");
        push_str(&mut href, r.kind);
        out.push(CatalogueEntry {
            kind: owned(r.kind),
            title: owned(r.title),
            namespaced: r.namespaced,
            optional: r.optional,
            inventory: r.inventory,
            href,
        });
        i += 1;
    }
    out
}

} // verus!
