//! Measurements: the name/kind/help/labels/value tuples reported by the
//! monitored system, and the canonical ordering of their labels.

use vstd::prelude::*;

use crate::text::chars_lt;
use crate::text::str_lt;
use crate::text::valid_label_name;

verus! {

/// The kind of a metric family: a counter accumulates applied values,
/// a gauge is overwritten by each applied value.
#[derive(Clone, Copy, PartialEq, Eq, Structural, Debug)]
pub enum MetricKind {
    Counter,
    Gauge,
}

/// One reported measurement: a named, typed value with its labels.
/// The label list is a mapping with unique keys; each entry is a
/// `(label name, label value)` pair.
pub struct Measurement {
    pub name: String,
    pub kind: MetricKind,
    pub help: String,
    pub labels: Vec<(String, String)>,
    pub value: i64,
}

/// The mathematical value of a measurement.
pub ghost struct MeasurementModel {
    pub name: Seq<char>,
    pub kind: MetricKind,
    pub help: Seq<char>,
    pub labels: Seq<(Seq<char>, Seq<char>)>,
    pub value: int,
}

/// The mathematical value of a label list.
pub open spec fn labels_model(v: Seq<(String, String)>) -> Seq<(Seq<char>, Seq<char>)> {
    v.map_values(|p: (String, String)| (p.0@, p.1@))
}

impl View for Measurement {
    type V = MeasurementModel;

    open spec fn view(&self) -> MeasurementModel {
        MeasurementModel {
            name: self.name@,
            kind: self.kind,
            help: self.help@,
            labels: labels_model(self.labels@),
            value: self.value as int,
        }
    }
}

/// Label keys are unique.
pub open spec fn labels_wf(labels: Seq<(Seq<char>, Seq<char>)>) -> bool {
    forall|i: int, j: int| 0 <= i < j < labels.len() ==> (#[trigger] labels[i]).0 != (
    #[trigger] labels[j]).0
}

/// A measurement is well formed when its label keys are unique.
pub open spec fn meas_wf(m: MeasurementModel) -> bool {
    labels_wf(m.labels)
}

/// All label names of a measurement are valid exposition label names.
pub open spec fn labels_valid(labels: Seq<(Seq<char>, Seq<char>)>) -> bool {
    forall|i: int| 0 <= i < labels.len() ==> valid_label_name((#[trigger] labels[i]).0)
}

/// The value bound to label name `name`, taking the first match.
pub open spec fn label_lookup(labels: Seq<(Seq<char>, Seq<char>)>, name: Seq<char>) -> Option<
    Seq<char>,
>
    decreases labels.len(),
{
    if labels.len() == 0 {
        None
    } else if labels[0].0 == name {
        Some(labels[0].1)
    } else {
        label_lookup(labels.drop_first(), name)
    }
}

/// Some entry carries label name `name`.
pub open spec fn has_label_name(labels: Seq<(Seq<char>, Seq<char>)>, name: Seq<char>) -> bool {
    exists|i: int| 0 <= i < labels.len() && (#[trigger] labels[i]).0 == name
}

proof fn lemma_label_lookup_skip(labels: Seq<(Seq<char>, Seq<char>)>, name: Seq<char>, i: int)
    requires
        0 <= i <= labels.len(),
        forall|j: int| 0 <= j < i ==> (#[trigger] labels[j]).0 != name,
    ensures
        label_lookup(labels, name) == label_lookup(labels.skip(i), name),
    decreases i,
{
    if i > 0 {
        assert(labels[0].0 != name);
        assert(forall|j: int| 0 <= j < i - 1 ==> (#[trigger] labels.drop_first()[j]).0 != name);
        lemma_label_lookup_skip(labels.drop_first(), name, i - 1);
        assert(labels.drop_first().skip(i - 1) =~= labels.skip(i));
    } else {
        assert(labels.skip(0) =~= labels);
    }
}

/// Looks up the value bound to `name` in a label list, cloning it.
pub fn lookup_label(labels: &Vec<(String, String)>, name: &String) -> (r: Option<String>)
    ensures
        match r {
            Some(v) => label_lookup(labels_model(labels@), name@) == Some(v@),
            None => label_lookup(labels_model(labels@), name@) is None,
        },
{
    let ghost m = labels_model(labels@);
    let mut i: usize = 0;
    while i < labels.len()
        invariant
            0 <= i <= labels.len(),
            m == labels_model(labels@),
            m.len() == labels.len(),
            forall|j: int| 0 <= j < i ==> (#[trigger] m[j]).0 != name@,
        decreases labels.len() - i,
    {
        if labels[i].0 == *name {
            proof {
                lemma_label_lookup_skip(m, name@, i as int);
                assert(m.skip(i as int)[0] == m[i as int]);
            }
            return Some(labels[i].1.clone());
        }
        i = i + 1;
    }
    proof {
        lemma_label_lookup_skip(m, name@, i as int);
        assert(m.skip(i as int).len() == 0);
    }
    None
}

/// The order that fixes the canonical label-name ordering of a family at
/// registration time: by label value first, then by label name.
pub open spec fn pair_le(a: (Seq<char>, Seq<char>), b: (Seq<char>, Seq<char>)) -> bool {
    chars_lt(a.1, b.1) || (a.1 == b.1 && (chars_lt(a.0, b.0) || a.0 == b.0))
}

/// Inserts `p` into `s` before the first entry that `p` precedes or equals.
pub open spec fn sorted_insert(
    p: (Seq<char>, Seq<char>),
    s: Seq<(Seq<char>, Seq<char>)>,
) -> Seq<(Seq<char>, Seq<char>)>
    decreases s.len(),
{
    if s.len() == 0 {
        seq![p]
    } else if pair_le(p, s[0]) {
        seq![p] + s
    } else {
        seq![s[0]] + sorted_insert(p, s.drop_first())
    }
}

/// The canonical ordering of a label list: an insertion sort by `pair_le`.
pub open spec fn canonical_order(s: Seq<(Seq<char>, Seq<char>)>) -> Seq<(Seq<char>, Seq<char>)>
    decreases s.len(),
{
    if s.len() == 0 {
        Seq::empty()
    } else {
        sorted_insert(s[0], canonical_order(s.drop_first()))
    }
}

proof fn lemma_sorted_insert_at(p: (Seq<char>, Seq<char>), s: Seq<(Seq<char>, Seq<char>)>, j: int)
    requires
        0 <= j <= s.len(),
        forall|k: int| 0 <= k < j ==> !pair_le(p, #[trigger] s[k]),
        j < s.len() ==> pair_le(p, s[j]),
    ensures
        sorted_insert(p, s) == s.subrange(0, j) + seq![p] + s.subrange(j, s.len() as int),
    decreases j,
{
    if j == 0 {
        if s.len() == 0 {
            assert(sorted_insert(p, s) =~= s.subrange(0, 0) + seq![p] + s.subrange(0, 0));
        } else {
            assert(pair_le(p, s[0]));
            assert(sorted_insert(p, s) =~= s.subrange(0, 0) + seq![p] + s.subrange(
                0,
                s.len() as int,
            ));
        }
    } else {
        assert(!pair_le(p, s[0]));
        let d = s.drop_first();
        assert(forall|k: int| 0 <= k < j - 1 ==> !pair_le(p, #[trigger] d[k]));
        assert(j - 1 < d.len() ==> pair_le(p, d[j - 1]));
        lemma_sorted_insert_at(p, d, j - 1);
        assert(seq![s[0]] + (d.subrange(0, j - 1) + seq![p] + d.subrange(j - 1, d.len() as int))
            =~= s.subrange(0, j) + seq![p] + s.subrange(j, s.len() as int));
    }
}

/// `sorted_insert` grows the list by one and adds exactly the one name.
pub proof fn lemma_sorted_insert_names(p: (Seq<char>, Seq<char>), s: Seq<(Seq<char>, Seq<char>)>)
    ensures
        sorted_insert(p, s).len() == s.len() + 1,
        forall|n: Seq<char>|
            #![trigger has_label_name(sorted_insert(p, s), n)]
            #![trigger has_label_name(s, n)]
            has_label_name(sorted_insert(p, s), n) <==> (n == p.0 || has_label_name(s, n)),
        (labels_wf(s) && !has_label_name(s, p.0)) ==> labels_wf(sorted_insert(p, s)),
    decreases s.len(),
{
    if s.len() == 0 {
        assert forall|n: Seq<char>|
            #![trigger has_label_name(sorted_insert(p, s), n)]
            #![trigger has_label_name(s, n)]
            has_label_name(sorted_insert(p, s), n) <==> (n == p.0 || has_label_name(s, n)) by {
            if n == p.0 {
                assert(sorted_insert(p, s)[0].0 == n);
            }
            if has_label_name(sorted_insert(p, s), n) {
                let i = choose|i: int|
                    0 <= i < sorted_insert(p, s).len() && (#[trigger] sorted_insert(p, s)[i]).0
                        == n;
                assert(i == 0);
            }
        }
    } else if pair_le(p, s[0]) {
        let r = seq![p] + s;
        assert(sorted_insert(p, s) == r);
        assert forall|n: Seq<char>|
            #![trigger has_label_name(sorted_insert(p, s), n)]
            #![trigger has_label_name(s, n)]
            has_label_name(sorted_insert(p, s), n) <==> (n == p.0 || has_label_name(s, n)) by {
            if n == p.0 {
                assert(r[0].0 == n);
            }
            if has_label_name(s, n) {
                let i = choose|i: int| 0 <= i < s.len() && (#[trigger] s[i]).0 == n;
                assert(r[i + 1].0 == n);
            }
            if has_label_name(r, n) {
                let i = choose|i: int| 0 <= i < r.len() && (#[trigger] r[i]).0 == n;
                if i > 0 {
                    assert(s[i - 1].0 == n);
                }
            }
        }
        if labels_wf(s) && !has_label_name(s, p.0) {
            assert forall|i: int, j: int| 0 <= i < j < r.len() implies (#[trigger] r[i]).0 != (
            #[trigger] r[j]).0 by {
                if i == 0 {
                    assert(r[j].0 == s[j - 1].0);
                    if r[0].0 == s[j - 1].0 {
                        assert(has_label_name(s, p.0));
                    }
                } else {
                    assert(r[i].0 == s[i - 1].0 && r[j].0 == s[j - 1].0);
                }
            }
        }
    } else {
        let d = s.drop_first();
        let inner = sorted_insert(p, d);
        let r = seq![s[0]] + inner;
        assert(sorted_insert(p, s) == r);
        lemma_sorted_insert_names(p, d);
        assert forall|n: Seq<char>|
            #![trigger has_label_name(sorted_insert(p, s), n)]
            #![trigger has_label_name(s, n)]
            has_label_name(sorted_insert(p, s), n) <==> (n == p.0 || has_label_name(s, n)) by {
            if n == p.0 {
                assert(has_label_name(inner, n));
                let i = choose|i: int| 0 <= i < inner.len() && (#[trigger] inner[i]).0 == n;
                assert(r[i + 1].0 == n);
            }
            if has_label_name(s, n) {
                let i = choose|i: int| 0 <= i < s.len() && (#[trigger] s[i]).0 == n;
                if i == 0 {
                    assert(r[0].0 == n);
                } else {
                    assert(d[i - 1].0 == n);
                    assert(has_label_name(d, n));
                    let k = choose|k: int| 0 <= k < inner.len() && (#[trigger] inner[k]).0 == n;
                    assert(r[k + 1].0 == n);
                }
            }
            if has_label_name(r, n) {
                let i = choose|i: int| 0 <= i < r.len() && (#[trigger] r[i]).0 == n;
                if i == 0 {
                    assert(s[0].0 == n);
                } else {
                    assert(inner[i - 1].0 == n);
                    assert(has_label_name(inner, n));
                    if n != p.0 {
                        assert(has_label_name(d, n));
                        let k = choose|k: int| 0 <= k < d.len() && (#[trigger] d[k]).0 == n;
                        assert(s[k + 1].0 == n);
                    }
                }
            }
        }
        if labels_wf(s) && !has_label_name(s, p.0) {
            assert forall|i: int, j: int| 0 <= i < j < d.len() implies (#[trigger] d[i]).0 != (
            #[trigger] d[j]).0 by {
                assert(s[i + 1].0 == d[i].0 && s[j + 1].0 == d[j].0);
            }
            if has_label_name(d, p.0) {
                let k = choose|k: int| 0 <= k < d.len() && (#[trigger] d[k]).0 == p.0;
                assert(s[k + 1].0 == p.0);
                assert(has_label_name(s, p.0));
            }
            assert(labels_wf(inner));
            assert forall|i: int, j: int| 0 <= i < j < r.len() implies (#[trigger] r[i]).0 != (
            #[trigger] r[j]).0 by {
                if i == 0 {
                    assert(r[j].0 == inner[j - 1].0);
                    if r[0].0 == inner[j - 1].0 {
                        assert(has_label_name(inner, s[0].0));
                        if s[0].0 == p.0 {
                            assert(!pair_le(p, s[0]));
                            assert(false);
                        } else {
                            assert(has_label_name(d, s[0].0));
                            let k = choose|k: int|
                                0 <= k < d.len() && (#[trigger] d[k]).0 == s[0].0;
                            assert(s[k + 1].0 == s[0].0);
                        }
                    }
                } else {
                    assert(r[i].0 == inner[i - 1].0 && r[j].0 == inner[j - 1].0);
                }
            }
        }
    }
}

/// The canonical ordering keeps the length, the set of label names, and the
/// uniqueness of label names.
pub proof fn lemma_canonical_order_names(s: Seq<(Seq<char>, Seq<char>)>)
    ensures
        canonical_order(s).len() == s.len(),
        forall|n: Seq<char>|
            #![trigger has_label_name(canonical_order(s), n)]
            #![trigger has_label_name(s, n)]
            has_label_name(canonical_order(s), n) <==> has_label_name(s, n),
        labels_wf(s) ==> labels_wf(canonical_order(s)),
    decreases s.len(),
{
    if s.len() > 0 {
        let d = s.drop_first();
        lemma_canonical_order_names(d);
        lemma_sorted_insert_names(s[0], canonical_order(d));
        assert forall|n: Seq<char>| has_label_name(d, n) implies has_label_name(s, n) by {
            let i = choose|i: int| 0 <= i < d.len() && (#[trigger] d[i]).0 == n;
            assert(s[i + 1].0 == n);
        }
        assert forall|n: Seq<char>|
            has_label_name(s, n) implies (n == s[0].0 || has_label_name(d, n)) by {
            let i = choose|i: int| 0 <= i < s.len() && (#[trigger] s[i]).0 == n;
            if i > 0 {
                assert(d[i - 1].0 == n);
            }
        }
        if labels_wf(s) {
            assert forall|i: int, j: int| 0 <= i < j < d.len() implies (#[trigger] d[i]).0 != (
            #[trigger] d[j]).0 by {
                assert(s[i + 1].0 == d[i].0 && s[j + 1].0 == d[j].0);
            }
            if has_label_name(d, s[0].0) {
                let k = choose|k: int| 0 <= k < d.len() && (#[trigger] d[k]).0 == s[0].0;
                assert(s[k + 1].0 == s[0].0);
            }
        }
    }
}

fn pair_le_exec(a: &(String, String), b: &(String, String)) -> (r: bool)
    ensures
        r == pair_le((a.0@, a.1@), (b.0@, b.1@)),
{
    if str_lt(a.1.as_str(), b.1.as_str()) {
        true
    } else if a.1 == b.1 {
        str_lt(a.0.as_str(), b.0.as_str()) || a.0 == b.0
    } else {
        false
    }
}

fn find_insert_pos(r: &Vec<(String, String)>, p: &(String, String)) -> (j: usize)
    ensures
        0 <= j <= r.len(),
        forall|k: int| 0 <= k < j ==> !pair_le((p.0@, p.1@), #[trigger] labels_model(r@)[k]),
        j < r.len() ==> pair_le((p.0@, p.1@), labels_model(r@)[j as int]),
{
    let ghost m = labels_model(r@);
    let ghost pm = (p.0@, p.1@);
    let mut j: usize = 0;
    while j < r.len()
        invariant
            0 <= j <= r.len(),
            m == labels_model(r@),
            pm == (p.0@, p.1@),
            m.len() == r.len(),
            forall|k: int| 0 <= k < j ==> !pair_le(pm, #[trigger] m[k]),
        decreases r.len() - j,
    {
        let rj: &(String, String) = &r[j];
        let le = pair_le_exec(p, rj);
        proof {
            assert(*rj == r@[j as int]);
            assert(m[j as int] == (r@[j as int].0@, r@[j as int].1@));
        }
        if le {
            return j;
        }
        j = j + 1;
    }
    j
}

fn insert_pair(r: &mut Vec<(String, String)>, p: (String, String))
    ensures
        labels_model(final(r)@) == sorted_insert((p.0@, p.1@), labels_model(old(r)@)),
{
    let ghost m = labels_model(r@);
    let ghost pm = (p.0@, p.1@);
    let j = find_insert_pos(r, &p);
    proof {
        lemma_sorted_insert_at(pm, m, j as int);
    }
    r.insert(j, p);
    proof {
        assert(labels_model(r@) =~= m.subrange(0, j as int) + seq![pm] + m.subrange(
            j as int,
            m.len() as int,
        ));
    }
}

/// Sorts a label list into its canonical order.
pub fn sort_labels(labels: &Vec<(String, String)>) -> (r: Vec<(String, String)>)
    ensures
        labels_model(r@) == canonical_order(labels_model(labels@)),
{
    let ghost m = labels_model(labels@);
    let mut r: Vec<(String, String)> = Vec::new();
    let mut i: usize = labels.len();
    proof {
        assert(m.skip(i as int) =~= Seq::<(Seq<char>, Seq<char>)>::empty());
        assert(labels_model(r@) =~= canonical_order(m.skip(i as int)));
    }
    while i > 0
        invariant
            0 <= i <= labels.len(),
            m == labels_model(labels@),
            m.len() == labels.len(),
            labels_model(r@) == canonical_order(m.skip(i as int)),
        decreases i,
    {
        i = i - 1;
        let p = (labels[i].0.clone(), labels[i].1.clone());
        insert_pair(&mut r, p);
        proof {
            let rest = m.skip(i as int);
            assert(rest.len() > 0);
            assert(rest[0] == m[i as int]);
            assert(rest.drop_first() =~= m.skip(i + 1 as int));
            assert(canonical_order(rest) == sorted_insert(m[i as int], canonical_order(m.skip(i + 1 as int))));
        }
    }
    proof {
        assert(m.skip(0) =~= m);
    }
    r
}

} // verus!
