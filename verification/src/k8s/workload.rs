//! What a workload is: its category, the labels worth keeping, and what owns it.

use crate::table::{
    distinct_keys, enter, get, has_key, lemma_position, lemma_position_unique, lemma_text_map_put,
    text_map,
};
use crate::text::{
    begins_with, chars_of, contains, ends_with, law_part_is_found, named, same, split, split_on,
    stands_at, starts_with, text_of, trim, trimmed, views, whole_text,
};
use vstd::prelude::*;

verus! {

/// What is known of a pod and the workload it belongs to.
#[derive(Debug)]
pub struct PodIdentity {
    pub name: String,
    pub namespace: String,
    pub workload_uid: String,
    pub workload_name: String,
    pub workload_kind: String,
    pub workload_category: WorkloadCategory,
    pub labels: Vec<(String, String)>,
}

/// The category of a workload.
#[derive(Clone, Copy, Debug, PartialEq, Eq, Structural)]
pub enum WorkloadCategory {
    Platform,
    Operator,
    Application,
}

impl WorkloadCategory {
    /// The category's name.
    pub open spec fn text(self) -> Seq<char> {
        match self {
            WorkloadCategory::Platform => "platform"@,
            WorkloadCategory::Operator => "operator"@,
            WorkloadCategory::Application => "application"@,
        }
    }

    pub fn as_str(&self) -> (r: &'static str)
        ensures
            r@ == self.text(),
    {
        match self {
            WorkloadCategory::Platform => "platform",
            WorkloadCategory::Operator => "operator",
            WorkloadCategory::Application => "application",
        }
    }
}

// ─── Labels ─────────────────────────────────────────────────────

/// Whether an entry stands for all keys that begin with what it says.
pub open spec fn is_prefix_entry(entry: Seq<char>) -> bool {
    ends_with(entry, "/*"@)
}

/// The keys that the first `n` of a configuration's entries name.
pub open spec fn exact_keys_of(entries: Seq<Seq<char>>, n: int) -> Seq<Seq<char>>
    decreases n,
{
    if n <= 0 {
        Seq::empty()
    } else {
        let e = trimmed(entries[n - 1]);
        if e.len() == 0 || is_prefix_entry(e) {
            exact_keys_of(entries, n - 1)
        } else {
            exact_keys_of(entries, n - 1).push(e)
        }
    }
}

/// The prefixes that the first `n` of a configuration's entries name: what stands before the star.
pub open spec fn prefixes_of(entries: Seq<Seq<char>>, n: int) -> Seq<Seq<char>>
    decreases n,
{
    if n <= 0 {
        Seq::empty()
    } else {
        let e = trimmed(entries[n - 1]);
        if is_prefix_entry(e) {
            prefixes_of(entries, n - 1).push(e.drop_last())
        } else {
            prefixes_of(entries, n - 1)
        }
    }
}

/// The texts that strings hold.
pub open spec fn text_views(v: Seq<String>) -> Seq<Seq<char>> {
    v.map_values(|s: String| s@)
}

/// Reads which labels to keep: entries set off by commas, each a key or, with `/*` at its end, a
/// prefix.
pub fn parse_label_config(raw: &str) -> (r: (Vec<String>, Vec<String>))
    ensures
        text_views(r.0@) == exact_keys_of(
            split_on(raw@, ','),
            split_on(raw@, ',').len() as int,
        ),
        text_views(r.1@) == prefixes_of(split_on(raw@, ','), split_on(raw@, ',').len() as int),
{
    let entries: Vec<Vec<char>> = split(&chars_of(raw), ',');
    let ghost all = split_on(raw@, ',');
    let mut exact: Vec<String> = Vec::new();
    let mut prefixes: Vec<String> = Vec::new();
    let mut i: usize = 0;
    assert(text_views(exact@) =~= Seq::empty());
    assert(text_views(prefixes@) =~= Seq::empty());
    proof {
        reveal_strlit("/*");
    }
    while i < entries.len()
        invariant
            i <= entries@.len(),
            views(entries@) == all,
            "/*"@.len() == 2,
            text_views(exact@) == exact_keys_of(all, i as int),
            text_views(prefixes@) == prefixes_of(all, i as int),
        decreases entries@.len() - i,
    {
        assert(all[i as int] == entries@[i as int]@);
        let entry: Vec<char> = trim(&entries[i]);
        let n: usize = entry.len();
        if n > 0 {
            if n >= 2 && stands_at(&entry, "/*", n - 2) {
                let ghost before = text_views(prefixes@);
                let prefix: String = text_of(&entry, 0, n - 1);
                assert(prefix@ =~= entry@.drop_last());
                prefixes.push(prefix);
                assert(text_views(prefixes@) =~= before.push(prefix@));
            } else {
                let ghost before = text_views(exact@);
                let key: String = whole_text(&entry);
                exact.push(key);
                assert(text_views(exact@) =~= before.push(key@));
            }
        }
        i = i + 1;
    }
    (exact, prefixes)
}

/// The labels that are kept where no others are configured.
pub fn default_captured_labels() -> (r: Vec<String>)
    ensures
        text_views(r@) == seq![
            "app.kubernetes.io/name"@,
            "app.kubernetes.io/part-of"@,
            "app.kubernetes.io/component"@,
            "argocd.argoproj.io/instance"@,
            "olm.owner"@,
        ],
{
    let r: Vec<String> = vec![
        "app.kubernetes.io/name".to_owned(),
        "app.kubernetes.io/part-of".to_owned(),
        "app.kubernetes.io/component".to_owned(),
        "argocd.argoproj.io/instance".to_owned(),
        "olm.owner".to_owned(),
    ];
    assert(text_views(r@) =~= seq![
        "app.kubernetes.io/name"@,
        "app.kubernetes.io/part-of"@,
        "app.kubernetes.io/component"@,
        "argocd.argoproj.io/instance"@,
        "olm.owner"@,
    ]);
    r
}

/// The prefixes of labels that are kept where no others are configured.
pub fn default_captured_prefixes() -> (r: Vec<String>)
    ensures
        text_views(r@) == seq!["operators.coreos.com/"@],
{
    let r: Vec<String> = vec!["operators.coreos.com/".to_owned()];
    assert(text_views(r@) =~= seq!["operators.coreos.com/"@]);
    r
}

/// Whether a key begins with one of the first `n` prefixes.
pub open spec fn has_prefix(key: Seq<char>, prefixes: Seq<String>, n: int) -> bool {
    exists|i: int| 0 <= i < n && begins_with(key, (#[trigger] prefixes[i])@)
}

/// The labels that are kept: those whose keys are named, or begin with a prefix.
pub open spec fn captured(
    labels: Map<Seq<char>, Seq<char>>,
    exact_keys: Seq<String>,
    prefixes: Seq<String>,
) -> Map<Seq<char>, Seq<char>> {
    labels.restrict(
        Set::new(
            |k: Seq<char>| named(exact_keys, k) || has_prefix(k, prefixes, prefixes.len() as int),
        ),
    )
}

proof fn lemma_named_push(names: Seq<String>, i: int)
    requires
        0 <= i < names.len(),
    ensures
        forall|k: Seq<char>| #[trigger]
            named(names.take(i + 1), k) <==> named(names.take(i), k) || k == names[i]@,
{
    let t = names.take(i + 1);
    let t0 = names.take(i);
    assert forall|k: Seq<char>| #[trigger] named(t, k) <==> named(t0, k) || k == names[i]@ by {
        if named(t0, k) {
            let j = choose|j: int| 0 <= j < t0.len() && (#[trigger] t0[j])@ == k;
            assert(t[j]@ == k);
        }
        assert(t[i] == names[i]);
        if named(t, k) && k != names[i]@ {
            let j = choose|j: int| 0 <= j < t.len() && (#[trigger] t[j])@ == k;
            assert(t0[j]@ == k);
        }
    }
}

/// Keeps those of a pod's labels that are asked for.
pub fn capture_labels(
    pod_labels: &Vec<(String, String)>,
    exact_keys: &Vec<String>,
    prefix_keys: &Vec<String>,
) -> (r: Vec<(String, String)>)
    requires
        distinct_keys(pod_labels@),
    ensures
        distinct_keys(r@),
        text_map(r@) == captured(text_map(pod_labels@), exact_keys@, prefix_keys@),
{
    let ghost all = text_map(pod_labels@);
    let mut r: Vec<(String, String)> = Vec::new();
    let mut i: usize = 0;
    assert(text_map(r@) =~= Map::empty());
    while i < exact_keys.len()
        invariant
            i <= exact_keys@.len(),
            all == text_map(pod_labels@),
            distinct_keys(r@),
            text_map(r@) =~= all.restrict(
                Set::new(|k: Seq<char>| named(exact_keys@.take(i as int), k)),
            ),
        decreases exact_keys@.len() - i,
    {
        proof {
            lemma_named_push(exact_keys@, i as int);
        }
        if let Some(val) = get(pod_labels, &exact_keys[i]) {
            let key: String = exact_keys[i].clone();
            let value: String = val.clone();
            proof {
                lemma_text_map_put(r@, key, value);
            }
            enter(&mut r, key, value);
        }
        i = i + 1;
    }
    assert(exact_keys@.take(i as int) =~= exact_keys@);
    let mut p: usize = 0;
    while p < prefix_keys.len()
        invariant
            p <= prefix_keys@.len(),
            all == text_map(pod_labels@),
            distinct_keys(pod_labels@),
            distinct_keys(r@),
            text_map(r@) =~= all.restrict(
                Set::new(
                    |k: Seq<char>|
                        named(exact_keys@, k) || has_prefix(k, prefix_keys@, p as int),
                ),
            ),
        decreases prefix_keys@.len() - p,
    {
        let prefix: &str = prefix_keys[p].as_str();
        let ghost kept = Set::new(
            |k: Seq<char>| named(exact_keys@, k) || has_prefix(k, prefix_keys@, p as int),
        );
        let mut j: usize = 0;
        assert(text_map(r@) =~= all.restrict(
            kept.union(
                Set::new(
                    |k: Seq<char>|
                        begins_with(k, prefix@) && has_key(pod_labels@.take(0), k),
                ),
            ),
        ));
        while j < pod_labels.len()
            invariant
                j <= pod_labels@.len(),
                all == text_map(pod_labels@),
                distinct_keys(pod_labels@),
                distinct_keys(r@),
                text_map(r@) =~= all.restrict(
                    kept.union(
                        Set::new(
                            |k: Seq<char>|
                                begins_with(k, prefix@) && has_key(
                                    pod_labels@.take(j as int),
                                    k,
                                ),
                        ),
                    ),
                ),
            decreases pod_labels@.len() - j,
        {
            let ghost key0 = pod_labels@[j as int].0@;
            proof {
                assert forall|k: Seq<char>| #[trigger]
                    has_key(pod_labels@.take(j + 1), k) <==> has_key(
                        pod_labels@.take(j as int),
                        k,
                    ) || k == key0 by {
                    assert(pod_labels@.take(j + 1).drop_last() =~= pod_labels@.take(j as int));
                    lemma_position(pod_labels@.take(j as int), k);
                }
                lemma_position_unique(pod_labels@, j as int);
                lemma_position(pod_labels@, key0);
            }
            if starts_with(pod_labels[j].0.as_str(), prefix) {
                let key: String = pod_labels[j].0.clone();
                let value: String = pod_labels[j].1.clone();
                proof {
                    lemma_text_map_put(r@, key, value);
                }
                enter(&mut r, key, value);
            }
            j = j + 1;
        }
        proof {
            assert(pod_labels@.take(j as int) =~= pod_labels@);
            assert forall|k: Seq<char>| has_prefix(k, prefix_keys@, p + 1) <==> has_prefix(
                k,
                prefix_keys@,
                p as int,
            ) || begins_with(k, prefix@) by {
                if has_prefix(k, prefix_keys@, p as int) {
                    let n = choose|n: int|
                        0 <= n < p && begins_with(k, (#[trigger] prefix_keys@[n])@);
                    assert(begins_with(k, prefix_keys@[n]@));
                }
                if begins_with(k, prefix@) {
                    assert(begins_with(k, prefix_keys@[p as int]@));
                }
            }
        }
        p = p + 1;
    }
    assert(text_map(r@) =~= captured(all, exact_keys@, prefix_keys@));
    r
}

// ─── Categories ─────────────────────────────────────────────────

/// Whether a label marks the pods of an operator.
pub open spec fn has_operator_label(labels: Seq<(String, String)>) -> bool {
    exists|i: int|
        0 <= i < labels.len() && begins_with((#[trigger] labels[i]).0@, "operators.coreos.com/"@)
}

/// The category of a workload, by its namespace and labels and the namespaces that have operator
/// subscriptions.
pub open spec fn category_of(
    namespace: Seq<char>,
    labels: Seq<(String, String)>,
    operator_namespaces: Seq<String>,
) -> WorkloadCategory {
    if named(operator_namespaces, namespace) || namespace
        == "openshift-operator-lifecycle-manager"@ || namespace == "openshift-marketplace"@
        || has_operator_label(labels) {
        WorkloadCategory::Operator
    } else if begins_with(namespace, "openshift-"@) || begins_with(namespace, "kube-"@) {
        WorkloadCategory::Platform
    } else {
        WorkloadCategory::Application
    }
}

fn any_operator_label(labels: &Vec<(String, String)>) -> (r: bool)
    ensures
        r == has_operator_label(labels@),
{
    let mut i: usize = 0;
    while i < labels.len()
        invariant
            i <= labels@.len(),
            forall|j: int|
                0 <= j < i ==> !begins_with(
                    (#[trigger] labels@[j]).0@,
                    "operators.coreos.com/"@,
                ),
        decreases labels@.len() - i,
    {
        if starts_with(labels[i].0.as_str(), "operators.coreos.com/") {
            return true;
        }
        i = i + 1;
    }
    false
}

/// Classifies a pod's workload:
/// - a namespace with an operator subscription, one of the operator lifecycle manager's own, or
///   an operator's label: operator
/// - an `openshift-` or `kube-` namespace: platform
/// - everything else: application
pub fn classify_category(
    namespace: &str,
    labels: &Vec<(String, String)>,
    operator_namespaces: &Vec<String>,
) -> (r: WorkloadCategory)
    ensures
        r == category_of(namespace@, labels@, operator_namespaces@),
{
    if contains(operator_namespaces, namespace) {
        return WorkloadCategory::Operator;
    }
    if same(namespace, "openshift-operator-lifecycle-manager") || same(
        namespace,
        "openshift-marketplace",
    ) {
        return WorkloadCategory::Operator;
    }
    if any_operator_label(labels) {
        return WorkloadCategory::Operator;
    }
    if starts_with(namespace, "openshift-") || starts_with(namespace, "kube-") {
        return WorkloadCategory::Platform;
    }
    WorkloadCategory::Application
}

/// An operator's subscription decides before the namespace's name does: a namespace that has one
/// is never the platform's.
pub proof fn law_subscription_decides(
    namespace: Seq<char>,
    labels: Seq<(String, String)>,
    operator_namespaces: Seq<String>,
)
    requires
        named(operator_namespaces, namespace),
    ensures
        category_of(namespace, labels, operator_namespaces) == WorkloadCategory::Operator,
{
}

// ─── Owners ─────────────────────────────────────────────────────

/// What owns a pod's workload.
#[derive(Debug)]
pub struct OwnerMapping {
    pub uid: String,
    pub name: String,
    pub kind: String,
}

/// A reference to an owner, which may be the one that controls.
#[derive(Debug)]
pub struct OwnerReference {
    pub owner: OwnerMapping,
    pub controller: Option<bool>,
}

/// The index of the owner that controls, from `from` on, or -1.
pub open spec fn controller_index(refs: Seq<OwnerReference>, from: int) -> int
    decreases refs.len() - from,
{
    if from < 0 || from >= refs.len() {
        -1
    } else if refs[from].controller == Some(true) {
        from
    } else {
        controller_index(refs, from + 1)
    }
}

/// Selects the owner that controls, or else the first.
pub fn select_controller_owner(owner_refs: &Vec<OwnerReference>) -> (r: Option<&OwnerReference>)
    ensures
        match r {
            Some(o) => {
                let i = controller_index(owner_refs@, 0);
                owner_refs@.len() > 0 && *o == owner_refs@[if i >= 0 {
                    i
                } else {
                    0
                }]
            },
            None => owner_refs@.len() == 0,
        },
{
    let mut i: usize = 0;
    while i < owner_refs.len()
        invariant
            i <= owner_refs@.len(),
            controller_index(owner_refs@, 0) == controller_index(owner_refs@, i as int),
        decreases owner_refs@.len() - i,
    {
        let controls: bool = match owner_refs[i].controller {
            Some(c) => c,
            None => false,
        };
        if controls {
            return Some(&owner_refs[i]);
        }
        i = i + 1;
    }
    if owner_refs.len() > 0 {
        Some(&owner_refs[0])
    } else {
        None
    }
}

// ─── Laws ───────────────────────────────────────────────────────

/// A key is named if and only if one of the entries, without the white space around it, is the key
/// and does not end in a slash and an asterisk.
pub proof fn law_named_keys(entries: Seq<Seq<char>>, n: int, key: Seq<char>)
    requires
        0 <= n <= entries.len(),
    ensures
        exact_keys_of(entries, n).contains(key) <==> key.len() > 0 && !ends_with(key, "/*"@)
            && exists|i: int| 0 <= i < n && trimmed(#[trigger] entries[i]) == key,
    decreases n,
{
    if n > 0 {
        law_named_keys(entries, n - 1, key);
        let before = exact_keys_of(entries, n - 1);
        let after = exact_keys_of(entries, n);
        let e = trimmed(entries[n - 1]);
        if before.contains(key) {
            let k = before.index_of(key);
            assert(after[k] == key);
            let i = choose|i: int| 0 <= i < n - 1 && trimmed(#[trigger] entries[i]) == key;
            assert(trimmed(entries[i]) == key);
        }
        if e == key && key.len() > 0 && !ends_with(key, "/*"@) {
            assert(after[after.len() - 1] == key);
        }
        if after.contains(key) && !before.contains(key) {
            let k = after.index_of(key);
            if k < before.len() {
                assert(before[k] == key);
            }
            assert(e == key);
            assert(trimmed(entries[n - 1]) == key);
        }
        if key.len() > 0 && !ends_with(key, "/*"@) && exists|i: int|
            0 <= i < n && trimmed(#[trigger] entries[i]) == key {
            let i = choose|i: int| 0 <= i < n && trimmed(#[trigger] entries[i]) == key;
            if i < n - 1 {
                assert(trimmed(entries[i]) == key);
            }
        }
    }
}

/// A prefix is kept for each entry that, without the white space around it, is the prefix with an
/// asterisk behind its slash.
pub proof fn law_prefix_keys(entries: Seq<Seq<char>>, n: int, i: int, prefix: Seq<char>)
    requires
        0 <= i < n <= entries.len(),
        trimmed(entries[i]) == prefix.push('*'),
        prefix.len() > 0,
        prefix.last() == '/',
    ensures
        prefixes_of(entries, n).contains(prefix),
    decreases n,
{
    let after = prefixes_of(entries, n);
    if i == n - 1 {
        reveal_strlit("/*");
        let e = prefix.push('*');
        assert(e.subrange(e.len() - 2, e.len() - 2 + 2) =~= "/*"@);
        assert(e.drop_last() =~= prefix);
        assert(after[after.len() - 1] == prefix);
    } else {
        law_prefix_keys(entries, n - 1, i, prefix);
        let before = prefixes_of(entries, n - 1);
        let k = before.index_of(prefix);
        assert(after[k] == prefix);
    }
}

/// A label is kept, as it is, if and only if its key is named or begins with a prefix.
pub proof fn law_labels_kept(
    labels: Map<Seq<char>, Seq<char>>,
    exact_keys: Seq<String>,
    prefixes: Seq<String>,
    key: Seq<char>,
    i: int,
)
    ensures
        captured(labels, exact_keys, prefixes).contains_key(key) ==> labels.contains_pair(
            key,
            captured(labels, exact_keys, prefixes)[key],
        ),
        0 <= i < exact_keys.len() && exact_keys[i]@ == key && labels.contains_key(key)
            ==> captured(labels, exact_keys, prefixes).contains_key(key),
        0 <= i < prefixes.len() && begins_with(key, prefixes[i]@) && labels.contains_key(key)
            ==> captured(labels, exact_keys, prefixes).contains_key(key),
        !captured(labels, exact_keys, prefixes).contains_key(key) && labels.contains_key(key)
            && 0 <= i < prefixes.len() ==> !begins_with(key, prefixes[i]@),
        captured(labels, exact_keys, prefixes).contains_key(key) ==> named(exact_keys, key)
            || exists|j: int| 0 <= j < prefixes.len() && begins_with(key, (#[trigger] prefixes[j])@),
{
}

/// A pod with an operator's label, or in a marketplace's namespace, is an operator's; else one in a
/// namespace of OpenShift or Kubernetes is the platform's, and any other an application.
pub proof fn law_names_decide(
    namespace: Seq<char>,
    labels: Seq<(String, String)>,
    operator_namespaces: Seq<String>,
    i: int,
    rest: Seq<char>,
)
    ensures
        0 <= i < labels.len() && labels[i].0@ == "operators.coreos.com/"@ + rest ==> category_of(
            namespace,
            labels,
            operator_namespaces,
        ) == WorkloadCategory::Operator,
        category_of("openshift-marketplace"@, labels, operator_namespaces)
            == WorkloadCategory::Operator,
        category_of("openshift-operator-lifecycle-manager"@, labels, operator_namespaces)
            == WorkloadCategory::Operator,
        category_of("openshift-"@ + rest, labels, operator_namespaces)
            != WorkloadCategory::Application,
        category_of("kube-"@ + rest, labels, operator_namespaces) != WorkloadCategory::Application,
        category_of(namespace, labels, operator_namespaces) == WorkloadCategory::Application
            ==> !begins_with(namespace, "openshift-"@) && !begins_with(namespace, "kube-"@)
            && !named(operator_namespaces, namespace),
        category_of(namespace, labels, operator_namespaces) == WorkloadCategory::Platform
            ==> begins_with(namespace, "openshift-"@) || begins_with(namespace, "kube-"@),
        category_of(namespace, labels, operator_namespaces) == WorkloadCategory::Operator ==> named(
            operator_namespaces,
            namespace,
        ) || namespace == "openshift-operator-lifecycle-manager"@ || namespace
            == "openshift-marketplace"@ || exists|j: int|
            0 <= j < labels.len() && begins_with(
                (#[trigger] labels[j]).0@,
                "operators.coreos.com/"@,
            ),
{
    law_part_is_found(Seq::empty(), "openshift-"@, rest);
    law_part_is_found(Seq::empty(), "kube-"@, rest);
    law_part_is_found(Seq::empty(), "operators.coreos.com/"@, rest);
    if 0 <= i < labels.len() && labels[i].0@ == "operators.coreos.com/"@ + rest {
        assert(begins_with(labels[i].0@, "operators.coreos.com/"@));
    }
}

/// The owner that controls is the first that says so.
pub proof fn law_controller(refs: Seq<OwnerReference>, from: int)
    requires
        0 <= from <= refs.len(),
    ensures
        ({
            let k = controller_index(refs, from);
            &&& k == -1 || (from <= k < refs.len() && refs[k].controller == Some(true))
            &&& forall|i: int|
                from <= i < refs.len() && (k == -1 || i < k) ==> (#[trigger] refs[i]).controller
                    != Some(true)
        }),
    decreases refs.len() - from,
{
    if from < refs.len() && refs[from].controller != Some(true) {
        law_controller(refs, from + 1);
    }
}

} // verus!
