//! Classification of namespaces into three categories that do not overlap:
//! 1. platform: a cluster operator names the namespace among its objects
//! 2. operator: the namespace has an operator subscription, and is no platform namespace
//! 3. application: everything else

use crate::table::{distinct_keys, enter, get, lemma_text_map_put, text_map};
use crate::text::{chars_of, contains, contains_text, distinct, holds_text, named, same};
use vstd::prelude::*;

verus! {

/// All data needed to classify pods.
#[derive(Debug)]
pub struct ClassificationData {
    /// The cluster operator of each platform namespace
    pub co_namespaces: Vec<(String, String)>,
    /// Namespaces with operator subscriptions, without the platform's
    pub operator_namespaces: Vec<String>,
}

impl Default for ClassificationData {
    fn default() -> (r: Self)
        ensures
            r.co_namespaces@.len() == 0,
            r.operator_namespaces@.len() == 0,
    {
        ClassificationData { co_namespaces: Vec::new(), operator_namespaces: Vec::new() }
    }
}

impl ClassificationData {
    /// The category of a namespace.
    pub open spec fn category(&self, namespace: Seq<char>) -> Seq<char> {
        if text_map(self.co_namespaces@).contains_key(namespace) {
            "platform"@
        } else if named(self.operator_namespaces@, namespace) {
            "operator"@
        } else {
            "application"@
        }
    }

    /// Classifies a pod by its namespace: its category, and the cluster operator of a platform
    /// namespace.
    pub fn classify(&self, namespace: &str) -> (r: (&'static str, Option<&String>))
        ensures
            r.0@ == self.category(namespace@),
            match r.1 {
                Some(co) => text_map(self.co_namespaces@).contains_key(namespace@) && co@
                    == text_map(self.co_namespaces@)[namespace@],
                None => !text_map(self.co_namespaces@).contains_key(namespace@),
            },
    {
        if let Some(co_name) = get(&self.co_namespaces, &namespace.to_owned()) {
            return ("platform", Some(co_name));
        }
        if contains(&self.operator_namespaces, namespace) {
            return ("operator", None);
        }
        ("application", None)
    }
}

/// An object that a cluster operator relates to.
#[derive(Debug)]
pub struct RelatedObject {
    pub resource: String,
    pub name: Option<String>,
}

/// A cluster operator with the objects that it relates to.
#[derive(Debug)]
pub struct ClusterOperator {
    pub name: String,
    pub related: Vec<RelatedObject>,
}

/// A name with underscores where it has dashes.
pub open spec fn with_underscores(s: Seq<char>) -> Seq<char> {
    s.map_values(
        |c: char|
            if c == '-' {
                '_'
            } else {
                c
            },
    )
}

/// Whether a namespace bears an operator's name.
pub open spec fn dominated(ns: Seq<char>, co_name: Seq<char>) -> bool {
    holds_text(ns, co_name) || holds_text(ns, with_underscores(co_name))
}

/// The namespace that an object is, if it is one that counts: configuration namespaces do not.
pub open spec fn namespace_of(obj: RelatedObject) -> Option<Seq<char>> {
    if obj.resource@ == "namespaces"@ && obj.name is Some && obj.name->0@ != "openshift-config"@
        && obj.name->0@ != "openshift-config-managed"@ {
        Some(obj.name->0@)
    } else {
        None
    }
}

/// The operators of namespaces once one object is taken in. The first operator that relates to a
/// namespace has it, unless a later one bears its name and the first does not.
pub open spec fn with_object(
    m: Map<Seq<char>, Seq<char>>,
    co_name: Seq<char>,
    obj: RelatedObject,
) -> Map<Seq<char>, Seq<char>> {
    match namespace_of(obj) {
        Some(ns) => if !m.contains_key(ns) || (dominated(ns, co_name) && !holds_text(ns, m[ns])) {
            m.insert(ns, co_name)
        } else {
            m
        },
        None => m,
    }
}

/// The operators of namespaces once the first `n` objects of an operator are taken in.
pub open spec fn with_objects(
    m: Map<Seq<char>, Seq<char>>,
    co: ClusterOperator,
    n: int,
) -> Map<Seq<char>, Seq<char>>
    decreases n,
{
    if n <= 0 {
        m
    } else {
        with_object(with_objects(m, co, n - 1), co.name@, co.related@[n - 1])
    }
}

/// The operators of namespaces, by the first `n` operators.
pub open spec fn with_operators(cos: Seq<ClusterOperator>, n: int) -> Map<Seq<char>, Seq<char>>
    decreases n,
{
    if n <= 0 {
        Map::empty()
    } else {
        with_objects(
            with_operators(cos, n - 1),
            cos[n - 1],
            cos[n - 1].related@.len() as int,
        )
    }
}

fn underscored(s: &str) -> (r: String)
    ensures
        r@ == with_underscores(s@),
{
    let chars: Vec<char> = chars_of(s);
    let mut r: String = String::new();
    let mut i: usize = 0;
    assert(r@ =~= with_underscores(s@).take(0));
    while i < chars.len()
        invariant
            i <= chars@.len(),
            chars@ == s@,
            r@ == with_underscores(s@).take(i as int),
        decreases chars@.len() - i,
    {
        r.push(
            if chars[i] == '-' {
                '_'
            } else {
                chars[i]
            },
        );
        i = i + 1;
        assert(r@ =~= with_underscores(s@).take(i as int));
    }
    assert(r@ =~= with_underscores(s@));
    r
}

/// Takes in one object of an operator.
fn take_object(m: &mut Vec<(String, String)>, co_name: &str, obj: &RelatedObject)
    requires
        distinct_keys(old(m)@),
    ensures
        distinct_keys(final(m)@),
        text_map(final(m)@) == with_object(text_map(old(m)@), co_name@, *obj),
{
    if !same(obj.resource.as_str(), "namespaces") {
        return ;
    }
    let ns: String = match &obj.name {
        Some(n) => n.clone(),
        None => {
            return ;
        },
    };
    if same(ns.as_str(), "openshift-config") || same(ns.as_str(), "openshift-config-managed") {
        return ;
    }
    let bears: bool = contains_text(ns.as_str(), co_name) || contains_text(
        ns.as_str(),
        underscored(co_name).as_str(),
    );
    let takes: bool = match get(m, &ns) {
        None => true,
        Some(existing) => bears && !contains_text(ns.as_str(), existing.as_str()),
    };
    if takes {
        let name: String = co_name.to_owned();
        proof {
            lemma_text_map_put(m@, ns, name);
        }
        enter(m, ns, name);
    }
}

/// Maps each namespace to its cluster operator.
pub fn discover_co_namespaces(cos: &Vec<ClusterOperator>) -> (r: Vec<(String, String)>)
    ensures
        distinct_keys(r@),
        text_map(r@) == with_operators(cos@, cos@.len() as int),
{
    let mut r: Vec<(String, String)> = Vec::new();
    let mut i: usize = 0;
    assert(text_map(r@) =~= Map::empty());
    while i < cos.len()
        invariant
            i <= cos@.len(),
            distinct_keys(r@),
            text_map(r@) == with_operators(cos@, i as int),
        decreases cos@.len() - i,
    {
        let co: &ClusterOperator = &cos[i];
        let ghost before = text_map(r@);
        let mut j: usize = 0;
        while j < co.related.len()
            invariant
                j <= co.related@.len(),
                distinct_keys(r@),
                text_map(r@) == with_objects(before, *co, j as int),
            decreases co.related@.len() - j,
        {
            take_object(&mut r, co.name.as_str(), &co.related[j]);
            j = j + 1;
        }
        i = i + 1;
    }
    r
}

/// Builds the classification out of the cluster's operators and the namespaces that have operator
/// subscriptions.
pub fn build_classification(cos: &Vec<ClusterOperator>, subscribed: &Vec<String>) -> (r:
    ClassificationData)
    ensures
        distinct_keys(r.co_namespaces@),
        text_map(r.co_namespaces@) == with_operators(cos@, cos@.len() as int),
        distinct(r.operator_namespaces@),
        forall|ns: Seq<char>| #[trigger]
            named(r.operator_namespaces@, ns) <==> named(subscribed@, ns) && !text_map(
                r.co_namespaces@,
            ).contains_key(ns),
{
    let co_namespaces: Vec<(String, String)> = discover_co_namespaces(cos);
    let ghost m = text_map(co_namespaces@);
    let mut operator_namespaces: Vec<String> = Vec::new();
    let mut i: usize = 0;
    while i < subscribed.len()
        invariant
            i <= subscribed@.len(),
            m == text_map(co_namespaces@),
            distinct(operator_namespaces@),
            forall|ns: Seq<char>| #[trigger]
                named(operator_namespaces@, ns) <==> named(subscribed@.take(i as int), ns)
                    && !m.contains_key(ns),
        decreases subscribed@.len() - i,
    {
        let ghost before = operator_namespaces@;
        let ghost key = subscribed@[i as int]@;
        let listed: bool = contains(&operator_namespaces, subscribed[i].as_str());
        if get(&co_namespaces, &subscribed[i]).is_none() && !listed {
            operator_namespaces.push(subscribed[i].clone());
        }
        proof {
            assert forall|ns: Seq<char>| #[trigger]
                named(operator_namespaces@, ns) <==> named(subscribed@.take(i + 1), ns)
                    && !m.contains_key(ns) by {
                let t = subscribed@.take(i + 1);
                let t0 = subscribed@.take(i as int);
                assert(t[i as int]@ == key);
                if named(t0, ns) {
                    let k = choose|k: int| 0 <= k < t0.len() && (#[trigger] t0[k])@ == ns;
                    assert(t[k]@ == ns);
                }
                if named(t, ns) && ns != key {
                    let k = choose|k: int| 0 <= k < t.len() && (#[trigger] t[k])@ == ns;
                    assert(t0[k]@ == ns);
                }
                if named(before, ns) {
                    let k = choose|k: int| 0 <= k < before.len() && (#[trigger] before[k])@ == ns;
                    assert(operator_namespaces@[k]@ == ns);
                }
                if operator_namespaces@.len() > before.len() {
                    assert(operator_namespaces@[before.len() as int]@ == key);
                    if named(operator_namespaces@, ns) && ns != key {
                        let k = choose|k: int|
                            0 <= k < operator_namespaces@.len() && (
                            #[trigger] operator_namespaces@[k])@ == ns;
                        assert(before[k]@ == ns);
                    }
                }
                assert(named(before, ns) <==> named(t0, ns) && !m.contains_key(ns));
            }
        }
        i = i + 1;
    }
    assert(subscribed@.take(i as int) =~= subscribed@);
    ClassificationData { co_namespaces, operator_namespaces }
}

/// The categories do not overlap: a namespace that an operator subscribed in counts as an
/// operator's only if no cluster operator has it.
pub proof fn law_categories_disjoint(data: ClassificationData, ns: Seq<char>)
    requires
        forall|n: Seq<char>| #[trigger]
            named(data.operator_namespaces@, n) ==> !text_map(data.co_namespaces@).contains_key(n),
    ensures
        data.category(ns) == "platform"@ <==> text_map(data.co_namespaces@).contains_key(ns),
        data.category(ns) == "operator"@ <==> named(data.operator_namespaces@, ns),
        data.category(ns) == "application"@ <==> !text_map(data.co_namespaces@).contains_key(ns)
            && !named(data.operator_namespaces@, ns),
{
    reveal_strlit("platform");
    reveal_strlit("operator");
    reveal_strlit("application");
    assert("platform"@[0] != "operator"@[0]);
    assert("platform"@[0] != "application"@[0]);
    assert("operator"@[0] != "application"@[0]);
}

// ─── Whose a namespace is ───────────────────────────────────────

/// Whether an operator relates to a namespace: one of its objects is that namespace.
pub open spec fn relates(co: ClusterOperator, ns: Seq<char>) -> bool {
    exists|j: int|
        {
            &&& 0 <= j < co.related@.len()
            &&& (#[trigger] co.related@[j]).resource@ == "namespaces"@
            &&& co.related@[j].name is Some
            &&& co.related@[j].name->0@ == ns
        }
}

/// Whether a namespace can be of the platform: the configuration namespaces cannot.
pub open spec fn ownable(ns: Seq<char>) -> bool {
    ns != "openshift-config"@ && ns != "openshift-config-managed"@
}

/// Whether one of the first `n` objects of an operator is a namespace.
spec fn relates_among(co: ClusterOperator, ns: Seq<char>, n: int) -> bool {
    exists|j: int|
        {
            &&& 0 <= j < n
            &&& (#[trigger] co.related@[j]).resource@ == "namespaces"@
            &&& co.related@[j].name is Some
            &&& co.related@[j].name->0@ == ns
        }
}

proof fn lemma_objects(m: Map<Seq<char>, Seq<char>>, co: ClusterOperator, n: int, ns: Seq<char>)
    requires
        0 <= n <= co.related@.len(),
    ensures
        ({
            let r = with_objects(m, co, n);
            if ownable(ns) && relates_among(co, ns, n) {
                &&& r.contains_key(ns)
                &&& r[ns] == co.name@ || (m.contains_key(ns) && r[ns] == m[ns])
                &&& dominated(ns, co.name@) ==> dominated(ns, r[ns])
                &&& m.contains_key(ns) && dominated(ns, m[ns]) ==> dominated(ns, r[ns])
                &&& m.contains_key(ns) && !dominated(ns, co.name@) ==> r[ns] == m[ns]
            } else {
                r.contains_key(ns) == m.contains_key(ns) && (m.contains_key(ns) ==> r[ns] == m[ns])
            }
        }),
    decreases n,
{
    if n > 0 {
        lemma_objects(m, co, n - 1, ns);
        let obj = co.related@[n - 1];
        if relates_among(co, ns, n - 1) {
            let j = choose|j: int|
                {
                    &&& 0 <= j < n - 1
                    &&& (#[trigger] co.related@[j]).resource@ == "namespaces"@
                    &&& co.related@[j].name is Some
                    &&& co.related@[j].name->0@ == ns
                };
            assert(co.related@[j].resource@ == "namespaces"@);
            assert(relates_among(co, ns, n));
        }
        if obj.resource@ == "namespaces"@ && obj.name is Some && obj.name->0@ == ns {
            assert(co.related@[n - 1].resource@ == "namespaces"@);
            assert(relates_among(co, ns, n));
        } else if relates_among(co, ns, n) {
            let j = choose|j: int|
                {
                    &&& 0 <= j < n
                    &&& (#[trigger] co.related@[j]).resource@ == "namespaces"@
                    &&& co.related@[j].name is Some
                    &&& co.related@[j].name->0@ == ns
                };
            assert(co.related@[j].resource@ == "namespaces"@);
            assert(relates_among(co, ns, n - 1));
        }
    }
}

/// A namespace is of the platform if and only if an operator relates to it and it is no
/// configuration namespace. Its operator is one of those that relate to it: one that bears its
/// name, if any does, or else the first.
pub proof fn law_namespace_has_operator(cos: Seq<ClusterOperator>, n: int, ns: Seq<char>)
    requires
        0 <= n <= cos.len(),
    ensures
        ({
            let m = with_operators(cos, n);
            &&& m.contains_key(ns) <==> ownable(ns) && exists|i: int|
                0 <= i < n && relates(#[trigger] cos[i], ns)
            &&& m.contains_key(ns) ==> exists|i: int|
                0 <= i < n && relates(#[trigger] cos[i], ns) && m[ns] == cos[i].name@
            &&& ownable(ns) && (exists|i: int|
                0 <= i < n && relates(#[trigger] cos[i], ns) && dominated(ns, cos[i].name@))
                ==> dominated(ns, m[ns])
            &&& forall|k: int|
                0 <= k < n && ownable(ns) && relates(#[trigger] cos[k], ns) && (forall|i: int|
                    0 <= i < k ==> !relates(#[trigger] cos[i], ns)) && (forall|i: int|
                    0 <= i < n && relates(#[trigger] cos[i], ns) ==> !dominated(ns, cos[i].name@))
                    ==> m[ns] == cos[k].name@
        }),
    decreases n,
{
    if n > 0 {
        law_namespace_has_operator(cos, n - 1, ns);
        let co = cos[n - 1];
        let before = with_operators(cos, n - 1);
        let m = with_operators(cos, n);
        lemma_objects(before, co, co.related@.len() as int, ns);
        assert(relates_among(co, ns, co.related@.len() as int) <==> relates(co, ns)) by {
            if relates(co, ns) {
                let j = choose|j: int|
                    {
                        &&& 0 <= j < co.related@.len()
                        &&& (#[trigger] co.related@[j]).resource@ == "namespaces"@
                        &&& co.related@[j].name is Some
                        &&& co.related@[j].name->0@ == ns
                    };
                assert(co.related@[j].resource@ == "namespaces"@);
            }
        }
        if before.contains_key(ns) {
            let i = choose|i: int|
                0 <= i < n - 1 && relates(#[trigger] cos[i], ns) && before[ns] == cos[i].name@;
            assert(relates(cos[i], ns));
        }
        if relates(co, ns) {
            assert(relates(cos[n - 1], ns));
        }
        assert forall|k: int|
            0 <= k < n && ownable(ns) && relates(#[trigger] cos[k], ns) && (forall|i: int|
                0 <= i < k ==> !relates(#[trigger] cos[i], ns)) && (forall|i: int|
                0 <= i < n && relates(#[trigger] cos[i], ns) ==> !dominated(ns, cos[i].name@))
            implies m[ns] == cos[k].name@ by {
            if k < n - 1 {
                assert(before[ns] == cos[k].name@);
                assert(before.contains_key(ns));
                if relates(co, ns) {
                    assert(!dominated(ns, cos[n - 1].name@));
                }
            }
        }
    }
}

/// A name is borne if it stands in the namespace as it is or with underscores for its dashes; the
/// latter differ only there.
pub proof fn law_bearing_a_name(ns: Seq<char>, name: Seq<char>, i: int)
    requires
        0 <= i < name.len(),
    ensures
        dominated(ns, name) <==> holds_text(ns, name) || holds_text(ns, with_underscores(name)),
        with_underscores(name).len() == name.len(),
        name[i] == '-' ==> with_underscores(name)[i] == '_',
        name[i] != '-' ==> with_underscores(name)[i] == name[i],
{
}

} // verus!
