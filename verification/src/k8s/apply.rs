//! YAML in, resources out: where each document goes, and what the
//! console offers to create.

use vstd::prelude::*;
use crate::create::{Creator, Field};
use crate::json::{Json, or_empty, str1, str2};
use crate::text::{lowercase, owned, push_str, str_eq, to_lowercase};

verus! {

pub const APPLY: &'static str = "/api/plugins/k8s/apply";

pub const IMPORT: &'static str = "# Paste one or more resources; separate documents with ---\napiVersion: v1\nkind: ConfigMap\nmetadata:\n  name: example\ndata:\n  key: value\n";

pub const POD: &'static str = "apiVersion: v1\nkind: Pod\nmetadata:\n  name: example\n  labels:\n    app: example\nspec:\n  containers:\n    - name: app\n      image: registry.gt.lo:5000/busybox:latest\n      command: [\"sh\", \"-c\", \"sleep 3600\"]\n      resources:\n        limits:\n          memory: 64Mi\n";

pub const DEPLOYMENT: &'static str = "apiVersion: apps/v1\nkind: Deployment\nmetadata:\n  name: example\nspec:\n  replicas: 1\n  selector:\n    matchLabels:\n      app: example\n  template:\n    metadata:\n      labels:\n        app: example\n    spec:\n      containers:\n        - name: app\n          image: registry.gt.lo:5000/nginx:latest\n          ports:\n            - containerPort: 80\n";

pub const STATEFULSET: &'static str = "apiVersion: apps/v1\nkind: StatefulSet\nmetadata:\n  name: example\nspec:\n  serviceName: example\n  replicas: 1\n  selector:\n    matchLabels:\n      app: example\n  template:\n    metadata:\n      labels:\n        app: example\n    spec:\n      containers:\n        - name: app\n          image: registry.gt.lo:5000/nginx:latest\n  volumeClaimTemplates:\n    - metadata:\n        name: data\n      spec:\n        accessModes: [\"ReadWriteOnce\"]\n        resources:\n          requests:\n            storage: 1Gi\n";

pub const DAEMONSET: &'static str = "apiVersion: apps/v1\nkind: DaemonSet\nmetadata:\n  name: example\nspec:\n  selector:\n    matchLabels:\n      app: example\n  template:\n    metadata:\n      labels:\n        app: example\n    spec:\n      containers:\n        - name: app\n          image: registry.gt.lo:5000/busybox:latest\n          command: [\"sh\", \"-c\", \"sleep 3600\"]\n";

pub const JOB: &'static str = "apiVersion: batch/v1\nkind: Job\nmetadata:\n  name: example\nspec:\n  template:\n    spec:\n      restartPolicy: Never\n      containers:\n        - name: job\n          image: registry.gt.lo:5000/busybox:latest\n          command: [\"sh\", \"-c\", \"echo done\"]\n";

pub const CRONJOB: &'static str = "apiVersion: batch/v1\nkind: CronJob\nmetadata:\n  name: example\nspec:\n  schedule: \"*/5 * * * *\"\n  jobTemplate:\n    spec:\n      template:\n        spec:\n          restartPolicy: Never\n          containers:\n            - name: job\n              image: registry.gt.lo:5000/busybox:latest\n              command: [\"sh\", \"-c\", \"date\"]\n";

pub const SERVICE: &'static str = "apiVersion: v1\nkind: Service\nmetadata:\n  name: example\nspec:\n  selector:\n    app: example\n  ports:\n    - port: 80\n      targetPort: 80\n";

pub const PVC: &'static str = "apiVersion: v1\nkind: PersistentVolumeClaim\nmetadata:\n  name: example\nspec:\n  accessModes: [\"ReadWriteOnce\"]\n  resources:\n    requests:\n      storage: 1Gi\n";

pub const NETPOL: &'static str = "apiVersion: networking.k8s.io/v1\nkind: NetworkPolicy\nmetadata:\n  name: allow-same-namespace\nspec:\n  podSelector: {}\n  policyTypes: [\"Ingress\"]\n  ingress:\n    - from:\n        - podSelector: {}\n";

pub const CNP: &'static str = "apiVersion: cilium.io/v2\nkind: CiliumNetworkPolicy\nmetadata:\n  name: allow-dns-egress\nspec:\n  endpointSelector:\n    matchLabels:\n      app: example\n  egress:\n    - toEndpoints:\n        - matchLabels:\n            k8s:io.kubernetes.pod.namespace: kube-system\n            k8s:k8s-app: kube-dns\n      toPorts:\n        - ports:\n            - port: \"53\"\n              protocol: UDP\n";

pub const CCNP: &'static str = "apiVersion: cilium.io/v2\nkind: CiliumClusterwideNetworkPolicy\nmetadata:\n  name: default-deny-ingress\nspec:\n  endpointSelector: {}\n  ingress:\n    - fromEndpoints:\n        - {}\n";

pub const NAMESPACE: &'static str = "apiVersion: v1\nkind: Namespace\nmetadata:\n  name: example\n";

/// What a creator is, as text: id, label, mode, path, template, whether it
/// asks for a project, where it is offered and how it describes itself.
pub open spec fn creator_view(c: Creator) -> (Seq<char>, Seq<char>, Seq<char>, Seq<char>, Seq<char>, bool, Seq<Seq<char>>, Seq<char>) {
    (c.id@, c.label@, c.mode@, c.path@, c.template@, c.project, c.at@.map_values(|s: String| s@), c.description@)
}

pub open spec fn creators_spec() -> Seq<(Seq<char>, Seq<char>, Seq<char>, Seq<char>, Seq<char>, bool, Seq<Seq<char>>, Seq<char>)> {
    seq![
        ("k8s:project"@, "Project"@, "form"@, "/api/plugins/k8s/projects"@, Seq::<char>::empty(), false, seq!["*"@], "A namespace of your own, with you as its admin — where your VMs, pods and claims go"@),
        ("k8s:yaml"@, "Import YAML"@, "yaml"@, APPLY@, IMPORT@, true, seq!["*"@], "Any resources, one or more documents — like oc apply -f. A document that names no namespace goes in the project chosen here"@),
        ("k8s:pod"@, "Pod"@, "yaml"@, APPLY@, POD@, true, seq!["#/k8s/pod"@], Seq::<char>::empty()),
        ("k8s:deploy"@, "Deployment"@, "yaml"@, APPLY@, DEPLOYMENT@, true, seq!["#/k8s/deploy"@], Seq::<char>::empty()),
        ("k8s:sts"@, "StatefulSet"@, "yaml"@, APPLY@, STATEFULSET@, true, seq!["#/k8s/sts"@], Seq::<char>::empty()),
        ("k8s:ds"@, "DaemonSet"@, "yaml"@, APPLY@, DAEMONSET@, true, seq!["#/k8s/ds"@], Seq::<char>::empty()),
        ("k8s:job"@, "Job"@, "yaml"@, APPLY@, JOB@, true, seq!["#/k8s/job"@], Seq::<char>::empty()),
        ("k8s:cronjob"@, "CronJob"@, "yaml"@, APPLY@, CRONJOB@, true, seq!["#/k8s/cronjob"@], Seq::<char>::empty()),
        ("k8s:svc"@, "Service"@, "yaml"@, APPLY@, SERVICE@, true, seq!["#/k8s/svc"@], Seq::<char>::empty()),
        ("k8s:pvc"@, "PersistentVolumeClaim"@, "yaml"@, APPLY@, PVC@, true, seq!["#/k8s/pvc"@], Seq::<char>::empty()),
        ("k8s:ns"@, "Namespace"@, "yaml"@, APPLY@, NAMESPACE@, false, seq!["#/k8s/ns"@], "A bare namespace, for administrators. Somebody's own work goes in a project"@),
        ("k8s:netpol"@, "NetworkPolicy"@, "yaml"@, APPLY@, NETPOL@, true, seq!["#/k8s/netpol"@], Seq::<char>::empty()),
        ("k8s:cnp"@, "CiliumNetworkPolicy"@, "yaml"@, APPLY@, CNP@, true, seq!["#/k8s/cnp"@], Seq::<char>::empty()),
        ("k8s:ccnp"@, "CiliumClusterwideNetworkPolicy"@, "yaml"@, APPLY@, CCNP@, false, seq!["#/k8s/ccnp"@], Seq::<char>::empty()),
    ]
}

/// The project form's fields: name (required, with a hint), display name
/// and description.
pub open spec fn project_fields(f: Seq<Field>) -> bool {
    &&& f.len() == 3
    &&& f[0].name@ == "name"@ && f[0].label@ == "Name"@ && f[0].required
    &&& f[0].hint@ == "lowercase letters, digits and '-'. You become its admin"@
    &&& f[1].name@ == "displayName"@ && f[1].label@ == "Display name"@ && !f[1].required
    &&& f[2].name@ == "description"@ && f[2].label@ == "Description"@ && !f[2].required
}

fn routes(c: Creator, route: &str) -> (r: Creator)
    ensures
        r == (Creator { at: r.at, ..c }),
        r.at@.map_values(|s: String| s@) == seq![route@],
{
    let rs = [route];
    assert(rs@ == seq![route]);
    let r = c.at(&rs);
    assert(r.at@.map_values(|s: String| s@) =~= seq![route@]);
    r
}

/// What the plugin offers to create, in the order the menu lists it.
pub fn creators() -> (r: Vec<Creator>)
    ensures
        r@.map_values(|c: Creator| creator_view(c)) == creators_spec(),
        project_fields(r@[0].fields@),
{
    let mut fields: Vec<Field> = Vec::new();
    fields.push(Field::text("name", "Name").required().hint("lowercase letters, digits and '-'. You become its admin"));
    fields.push(Field::text("displayName", "Display name"));
    fields.push(Field::text("description", "Description"));
    let mut out: Vec<Creator> = Vec::new();
    out.push(routes(
        Creator::form("k8s:project", "Project", "/api/plugins/k8s/projects", fields).describe(
            "A namespace of your own, with you as its admin — where your VMs, pods and claims go",
        ),
        "*",
    ));
    out.push(routes(Creator::yaml("k8s:yaml", "Import YAML", APPLY, IMPORT).describe("Any resources, one or more documents — like oc apply -f. A document that names no namespace goes in the project chosen here").in_project(), "*"));
    out.push(routes(Creator::yaml("k8s:pod", "Pod", APPLY, POD).in_project(), "#/k8s/pod"));
    out.push(routes(Creator::yaml("k8s:deploy", "Deployment", APPLY, DEPLOYMENT).in_project(), "#/k8s/deploy"));
    out.push(routes(Creator::yaml("k8s:sts", "StatefulSet", APPLY, STATEFULSET).in_project(), "#/k8s/sts"));
    out.push(routes(Creator::yaml("k8s:ds", "DaemonSet", APPLY, DAEMONSET).in_project(), "#/k8s/ds"));
    out.push(routes(Creator::yaml("k8s:job", "Job", APPLY, JOB).in_project(), "#/k8s/job"));
    out.push(routes(Creator::yaml("k8s:cronjob", "CronJob", APPLY, CRONJOB).in_project(), "#/k8s/cronjob"));
    out.push(routes(Creator::yaml("k8s:svc", "Service", APPLY, SERVICE).in_project(), "#/k8s/svc"));
    out.push(routes(Creator::yaml("k8s:pvc", "PersistentVolumeClaim", APPLY, PVC).in_project(), "#/k8s/pvc"));
    out.push(routes(Creator::yaml("k8s:ns", "Namespace", APPLY, NAMESPACE).describe("A bare namespace, for administrators. Somebody's own work goes in a project"), "#/k8s/ns"));
    out.push(routes(Creator::yaml("k8s:netpol", "NetworkPolicy", APPLY, NETPOL).in_project(), "#/k8s/netpol"));
    out.push(routes(Creator::yaml("k8s:cnp", "CiliumNetworkPolicy", APPLY, CNP).in_project(), "#/k8s/cnp"));
    out.push(routes(Creator::yaml("k8s:ccnp", "CiliumClusterwideNetworkPolicy", APPLY, CCNP), "#/k8s/ccnp"));
    assert(out@.map_values(|c: Creator| creator_view(c)) =~= creators_spec());
    out
}


/// The collection name of a kind: the irregular ones by name, anything
/// else lower-cased with an `s`.
pub open spec fn plural_spec(kind: Seq<char>) -> Seq<char> {
    if kind == "Endpoints"@ {
        "endpoints"@
    } else if kind == "Ingress"@ {
        "ingresses"@
    } else if kind == "NetworkPolicy"@ {
        "networkpolicies"@
    } else if kind == "StorageClass"@ {
        "storageclasses"@
    } else if kind == "IngressClass"@ {
        "ingressclasses"@
    } else if kind == "PriorityClass"@ {
        "priorityclasses"@
    } else if kind == "RuntimeClass"@ {
        "runtimeclasses"@
    } else if kind == "PodDisruptionBudget"@ {
        "poddisruptionbudgets"@
    } else if kind == "CiliumNetworkPolicy"@ {
        "ciliumnetworkpolicies"@
    } else if kind == "CiliumClusterwideNetworkPolicy"@ {
        "ciliumclusterwidenetworkpolicies"@
    } else if kind == "CiliumIdentity"@ {
        "ciliumidentities"@
    } else {
        lowercase(kind) + "s"@
    }
}

pub fn plural(kind: &str) -> (r: String)
    ensures
        r@ == plural_spec(kind@),
{
    if str_eq(kind, "Endpoints") {
        owned("endpoints")
    } else if str_eq(kind, "Ingress") {
        owned("ingresses")
    } else if str_eq(kind, "NetworkPolicy") {
        owned("networkpolicies")
    } else if str_eq(kind, "StorageClass") {
        owned("storageclasses")
    } else if str_eq(kind, "IngressClass") {
        owned("ingressclasses")
    } else if str_eq(kind, "PriorityClass") {
        owned("priorityclasses")
    } else if str_eq(kind, "RuntimeClass") {
        owned("runtimeclasses")
    } else if str_eq(kind, "PodDisruptionBudget") {
        owned("poddisruptionbudgets")
    } else if str_eq(kind, "CiliumNetworkPolicy") {
        owned("ciliumnetworkpolicies")
    } else if str_eq(kind, "CiliumClusterwideNetworkPolicy") {
        owned("ciliumclusterwidenetworkpolicies")
    } else if str_eq(kind, "CiliumIdentity") {
        owned("ciliumidentities")
    } else {
        let mut s = to_lowercase(kind);
        push_str(&mut s, "s");
        s
    }
}

/// The kinds that live outside any namespace.
pub open spec fn cluster_scoped(kind: Seq<char>) -> bool {
    ||| kind == "CiliumClusterwideNetworkPolicy"@
    ||| kind == "CiliumNode"@
    ||| kind == "CiliumIdentity"@
    ||| kind == "Namespace"@
    ||| kind == "Node"@
    ||| kind == "PersistentVolume"@
    ||| kind == "ClusterRole"@
    ||| kind == "ClusterRoleBinding"@
    ||| kind == "StorageClass"@
    ||| kind == "CustomResourceDefinition"@
    ||| kind == "IngressClass"@
    ||| kind == "PriorityClass"@
    ||| kind == "CSIDriver"@
    ||| kind == "CSINode"@
    ||| kind == "RuntimeClass"@
    ||| kind == "APIService"@
}

fn is_cluster_scoped(kind: &str) -> (r: bool)
    ensures
        r == cluster_scoped(kind@),
{
    str_eq(kind, "CiliumClusterwideNetworkPolicy")
        || str_eq(kind, "CiliumNode")
        || str_eq(kind, "CiliumIdentity")
        || str_eq(kind, "Namespace")
        || str_eq(kind, "Node")
        || str_eq(kind, "PersistentVolume")
        || str_eq(kind, "ClusterRole")
        || str_eq(kind, "ClusterRoleBinding")
        || str_eq(kind, "StorageClass")
        || str_eq(kind, "CustomResourceDefinition")
        || str_eq(kind, "IngressClass")
        || str_eq(kind, "PriorityClass")
        || str_eq(kind, "CSIDriver")
        || str_eq(kind, "CSINode")
        || str_eq(kind, "RuntimeClass")
        || str_eq(kind, "APIService")
}

/// Where a document's name comes from: `metadata.name`, else
/// `metadata.generateName`.
pub open spec fn doc_name(doc: Json) -> Option<Seq<char>> {
    match doc.path_str(seq!["metadata"@, "name"@]) {
        Some(n) => Some(n),
        None => doc.path_str(seq!["metadata"@, "generateName"@]),
    }
}

/// The namespace a document names for itself, when it names one.
pub open spec fn doc_namespace(doc: Json) -> Option<Seq<char>> {
    match doc.path_str(seq!["metadata"@, "namespace"@]) {
        Some(n) => if n.len() > 0 { Some(n) } else { None },
        None => None,
    }
}

pub open spec fn opt_view(o: Option<&str>) -> Option<Seq<char>> {
    match o {
        Some(s) => Some(s@),
        None => None,
    }
}

/// `(kind, name, collection path)` for one document. A namespaced document
/// goes to its own namespace, else to the project the dialog chose, and
/// with neither it is refused rather than landing in `default`.
pub open spec fn target_spec(doc: Json, project: Option<Seq<char>>) -> Result<(Seq<char>, Seq<char>, Seq<char>), Seq<char>> {
    match doc.path_str(seq!["apiVersion"@]) {
        None => Err("document has no apiVersion"@),
        Some(api_version) => match doc.path_str(seq!["kind"@]) {
            None => Err("document has no kind"@),
            Some(kind) => match doc_name(doc) {
                None => Err(kind + " has no metadata.name"@),
                Some(name) => {
                    let base = if api_version == "v1"@ { "/api/v1"@ } else { "/apis/"@ + api_version };
                    if cluster_scoped(kind) {
                        Ok((kind, name, base + "/"@ + plural_spec(kind)))
                    } else {
                        match (match doc_namespace(doc) {
                            Some(n) => Some(n),
                            None => project,
                        }) {
                            None => Err(kind + " "@ + name + " names no namespace, and no project was chosen"@),
                            Some(ns) => Ok((kind, name, base + "/namespaces/"@ + ns + "/"@ + plural_spec(kind))),
                        }
                    }
                },
            },
        },
    }
}

pub fn target(doc: &Json, project: Option<&str>) -> (r: Result<(String, String, String), String>)
    ensures
        match (r, target_spec(*doc, opt_view(project))) {
            (Ok((k, n, p)), Ok((a, b, c))) => k@ == a && n@ == b && p@ == c,
            (Err(e), Err(f)) => e@ == f,
            _ => false,
        },
{
    let api_version = match str1(doc, "apiVersion") {
        Some(a) => a,
        None => return Err(owned("document has no apiVersion")),
    };
    let kind = match str1(doc, "kind") {
        Some(k) => k,
        None => return Err(owned("document has no kind")),
    };
    let name = match str2(doc, "metadata", "name") {
        Some(n) => n,
        None => match str2(doc, "metadata", "generateName") {
            Some(n) => n,
            None => {
                let mut e = owned(kind);
                push_str(&mut e, " has no metadata.name");
                return Err(e);
            },
        },
    };
    let mut path = if str_eq(api_version, "v1") {
        owned("/api/v1")
    } else {
        let mut b = owned("/apis/");
        push_str(&mut b, api_version);
        b
    };
    if is_cluster_scoped(kind) {
        push_str(&mut path, "/");
        let pl = plural(kind);
        push_str(&mut path, pl.as_str());
        return Ok((owned(kind), owned(name), path));
    }
    let own = match str2(doc, "metadata", "namespace") {
        Some(n) => if n.unicode_len() > 0 { Some(n) } else { None },
        None => None,
    };
    let ns = match own {
        Some(n) => n,
        None => match project {
            Some(p) => p,
            None => {
                let mut e = owned(kind);
                push_str(&mut e, " ");
                push_str(&mut e, name);
                push_str(&mut e, " names no namespace, and no project was chosen");
                return Err(e);
            },
        },
    };
    push_str(&mut path, "/namespaces/");
    push_str(&mut path, ns);
    push_str(&mut path, "/");
    let pl = plural(kind);
    push_str(&mut path, pl.as_str());
    Ok((owned(kind), owned(name), path))
}


/// Where reading a YAML document failed: loading it, or turning what was
/// loaded into JSON.
#[derive(Debug, Clone, Copy, PartialEq, Eq)]
pub enum YamlStage {
    Load,
    Convert,
}

/// The documents `serde_yaml` reads out of a stream, each as JSON or as
/// the stage that failed with its error's text.
pub uninterp spec fn yaml_docs(text: Seq<char>) -> Seq<Result<Json, (YamlStage, Seq<char>)>>;

pub open spec fn doc_view(d: Result<Json, (YamlStage, String)>) -> Result<Json, (YamlStage, Seq<char>)> {
    match d {
        Ok(j) => Ok(j),
        Err((st, e)) => Err((st, e@)),
    }
}

/// `serde_yaml::Deserializer::from_str`, each document deserialized
/// into a `serde_yaml::Value` and then turned into JSON
/// (`serde_json::to_value`). Claimed: the outcomes are the named
/// function of the text. The iterator repeats a loader failure without
/// end, so the reading ends after the first document that cannot be
/// loaded; a failure to convert does not end it.
#[verifier::external_body]
fn yaml_documents(text: &str) -> (r: Vec<Result<Json, (YamlStage, String)>>)
    ensures
        r@.map_values(|d: Result<Json, (YamlStage, String)>| doc_view(d)) == yaml_docs(text@),
{
    let mut out = Vec::new();
    for doc in serde_yaml::Deserializer::from_str(text) {
        match <serde_yaml::Value as serde::Deserialize>::deserialize(doc) {
            Err(e) => {
                out.push(Err((YamlStage::Load, e.to_string())));
                break;
            },
            Ok(v) => match serde_json::to_value(v) {
                Ok(j) => out.push(Ok(crate::json::from_serde(j))),
                Err(e) => out.push(Err((YamlStage::Convert, e.to_string()))),
            },
        }
    }
    out
}

/// How a failed document is said: `yaml: …` where it could not be loaded,
/// `yaml → json: …` where it could not be turned into JSON.
pub open spec fn yaml_error(stage: YamlStage, e: Seq<char>) -> Seq<char> {
    match stage {
        YamlStage::Load => "yaml: "@ + e,
        YamlStage::Convert => "yaml → json: "@ + e,
    }
}

/// The documents of a YAML stream as JSON objects, empty ones skipped; the
/// first error, or the first document that is not a mapping, refuses the
/// whole stream.
pub open spec fn documents_from(docs: Seq<Result<Json, (YamlStage, Seq<char>)>>, acc: Seq<Json>) -> Result<Seq<Json>, Seq<char>>
    decreases docs.len(),
{
    if docs.len() == 0 {
        Ok(acc)
    } else {
        match docs[0] {
            Err((st, e)) => Err(yaml_error(st, e)),
            Ok(j) => if j is Null {
                documents_from(docs.drop_first(), acc)
            } else if j is Obj {
                documents_from(docs.drop_first(), acc.push(j))
            } else {
                Err("a document is not a mapping"@)
            },
        }
    }
}

pub fn parse_documents(text: &str) -> (r: Result<Vec<Json>, String>)
    ensures
        match (r, documents_from(yaml_docs(text@), Seq::empty())) {
            (Ok(v), Ok(s)) => v@ == s,
            (Err(e), Err(f)) => e@ == f,
            _ => false,
        },
{
    let mut docs = yaml_documents(text);
    let ghost all = yaml_docs(text@);
    let mut out: Vec<Json> = Vec::new();
    let ghost mut k: int = 0;
    assert(all.skip(0) == all);
    assert(out@ == Seq::<Json>::empty());
    while docs.len() > 0
        invariant
            0 <= k <= all.len(),
            all == yaml_docs(text@),
            docs@.map_values(|d: Result<Json, (YamlStage, String)>| doc_view(d)) == all.skip(k),
            documents_from(all, Seq::empty()) == documents_from(all.skip(k), out@),
        decreases docs@.len(),
    {
        let d = docs.remove(0);
        let ghost cur = all.skip(k);
        proof {
            assert(all.skip(k)[0] == doc_view(d));
            assert(all.skip(k).drop_first() == all.skip(k + 1));
            assert(docs@.map_values(|d: Result<Json, (YamlStage, String)>| doc_view(d)) =~= all.skip(k + 1));
            k = k + 1;
        }
        match d {
            Err((st, e)) => {
                let msg = match st {
                    YamlStage::Load => {
                        let mut m = owned("yaml: ");
                        push_str(&mut m, e.as_str());
                        m
                    },
                    YamlStage::Convert => {
                        let mut m = owned("yaml → json: ");
                        push_str(&mut m, e.as_str());
                        m
                    },
                };
                assert(documents_from(cur, out@) == Err::<Seq<Json>, Seq<char>>(yaml_error(st, e@)));
                return Err(msg);
            },
            Ok(j) => {
                match j {
                    Json::Null => {},
                    Json::Obj(_) => {
                        out.push(j);
                    },
                    _ => {
                        assert(documents_from(cur, out@) == Err::<Seq<Json>, Seq<char>>("a document is not a mapping"@));
                        return Err(owned("a document is not a mapping"));
                    },
                }
            },
        }
    }
    assert(all.skip(k).len() == 0);
    Ok(out)
}

} // verus!
