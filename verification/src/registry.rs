//! The metric registry: two name-keyed collections of metric families, one
//! for counters and one for gauges, with idempotent registration and
//! label-routed application of fresh values.

use vstd::prelude::*;
use vstd::pervasive::VecAdditionalExecFns;

use crate::measurement::Measurement;
use crate::measurement::MeasurementModel;
use crate::measurement::MetricKind;
use crate::measurement::canonical_order;
use crate::measurement::label_lookup;
use crate::measurement::labels_model;
use crate::measurement::labels_valid;
use crate::measurement::lookup_label;
use crate::measurement::meas_wf;
use crate::measurement::sort_labels;
use crate::text::is_valid_label_name;
use crate::text::is_valid_metric_name;
use crate::text::valid_metric_name;

verus! {

/// One series: the current value of one label-value combination.
pub struct Series {
    pub label_values: Vec<String>,
    pub value: i64,
}

/// One metric family: a fixed name, help text and label-name order, and the
/// series seen so far.
pub struct Family {
    pub name: String,
    pub help: String,
    pub label_names: Vec<String>,
    pub series: Vec<Series>,
}

/// The registry: counter families and gauge families, both keyed by name.
pub struct Registry {
    pub counters: Vec<Family>,
    pub gauges: Vec<Family>,
}

/// The mathematical value of a series.
pub ghost struct SeriesModel {
    pub label_values: Seq<Seq<char>>,
    pub value: int,
}

/// The mathematical value of a family.
pub ghost struct FamilyModel {
    pub name: Seq<char>,
    pub help: Seq<char>,
    pub label_names: Seq<Seq<char>>,
    pub series: Seq<SeriesModel>,
}

/// The mathematical value of the registry.
pub ghost struct RegistryModel {
    pub counters: Seq<FamilyModel>,
    pub gauges: Seq<FamilyModel>,
}

/// The mathematical value of a list of strings.
pub open spec fn strings_model(v: Seq<String>) -> Seq<Seq<char>> {
    v.map_values(|s: String| s@)
}

/// Appending one string appends its text to the model.
pub proof fn lemma_strings_model_push(v: Seq<String>, s: String)
    ensures
        strings_model(v.push(s)) == strings_model(v).push(s@),
{
    assert forall|t: int| 0 <= t < v.len() + 1 implies strings_model(v.push(s))[t]
        == strings_model(v).push(s@)[t] by {
        if t < v.len() {
            assert(v.push(s)[t] == v[t]);
            assert(strings_model(v)[t] == v[t]@);
        } else {
            assert(v.push(s)[t] == s);
        }
    }
    assert(strings_model(v.push(s)) =~= strings_model(v).push(s@));
}

/// The names of a list of label pairs, in order.
pub open spec fn pair_names(s: Seq<(Seq<char>, Seq<char>)>) -> Seq<Seq<char>> {
    s.map_values(|p: (Seq<char>, Seq<char>)| p.0)
}

/// The names of a list of families, in order.
pub open spec fn fam_names(fams: Seq<FamilyModel>) -> Seq<Seq<char>> {
    fams.map_values(|f: FamilyModel| f.name)
}

impl View for Series {
    type V = SeriesModel;

    open spec fn view(&self) -> SeriesModel {
        SeriesModel { label_values: strings_model(self.label_values@), value: self.value as int }
    }
}

impl View for Family {
    type V = FamilyModel;

    open spec fn view(&self) -> FamilyModel {
        FamilyModel {
            name: self.name@,
            help: self.help@,
            label_names: strings_model(self.label_names@),
            series: self.series@.map_values(|s: Series| s@),
        }
    }
}

/// The mathematical value of a list of families.
pub open spec fn fams_model(v: Seq<Family>) -> Seq<FamilyModel> {
    v.map_values(|f: Family| f@)
}

impl View for Registry {
    type V = RegistryModel;

    open spec fn view(&self) -> RegistryModel {
        RegistryModel {
            counters: fams_model(self.counters@),
            gauges: fams_model(self.gauges@),
        }
    }
}

/// The outcome of registering one measurement.
#[derive(Clone, Copy, PartialEq, Eq, Structural, Debug)]
pub enum RegisterOutcome {
    /// A new family was created.
    Created,
    /// A family of that name already exists; the call was a no-op.
    AlreadyRegistered,
    /// The metric name or a label name is malformed; the measurement was
    /// skipped.
    InvalidDefinition,
}

/// The outcome of applying one measurement.
#[derive(Clone, Copy, PartialEq, Eq, Structural, Debug)]
pub enum ApplyOutcome {
    /// The value reached its series.
    Applied,
    /// No family of that name and kind is registered; nothing changed.
    NotRegistered,
    /// The measurement's label-key set differs from the family's fixed set;
    /// nothing changed.
    LabelMismatch,
    /// A counter increment would leave the representable range; nothing
    /// changed.
    Overflow,
}

/// The index of the first family named `name`.
pub open spec fn fam_index(fams: Seq<FamilyModel>, name: Seq<char>) -> Option<int>
    decreases fams.len(),
{
    if fams.len() == 0 {
        None
    } else if fams[0].name == name {
        Some(0int)
    } else {
        match fam_index(fams.drop_first(), name) {
            None => None,
            Some(i) => Some(i + 1),
        }
    }
}

/// What `fam_index` returns: the first index carrying the name, if any.
pub proof fn lemma_fam_index_props(fams: Seq<FamilyModel>, name: Seq<char>)
    ensures
        match fam_index(fams, name) {
            None => forall|i: int| 0 <= i < fams.len() ==> (#[trigger] fams[i]).name != name,
            Some(i) => 0 <= i < fams.len() && fams[i].name == name && forall|j: int|
                0 <= j < i ==> (#[trigger] fams[j]).name != name,
        },
    decreases fams.len(),
{
    if fams.len() > 0 {
        lemma_fam_index_props(fams.drop_first(), name);
        if fams[0].name != name {
            match fam_index(fams.drop_first(), name) {
                None => {
                    assert forall|i: int| 0 <= i < fams.len() implies (#[trigger] fams[i]).name
                        != name by {
                        if i > 0 {
                            assert(fams.drop_first()[i - 1] == fams[i]);
                        }
                    }
                },
                Some(i) => {
                    assert(fams.drop_first()[i] == fams[i + 1]);
                    assert forall|j: int| 0 <= j < i + 1 implies (#[trigger] fams[j]).name
                        != name by {
                        if j > 0 {
                            assert(fams.drop_first()[j - 1] == fams[j]);
                        }
                    }
                },
            }
        }
    }
}

proof fn lemma_fam_index_skip(fams: Seq<FamilyModel>, name: Seq<char>, i: int)
    requires
        0 <= i <= fams.len(),
        forall|j: int| 0 <= j < i ==> (#[trigger] fams[j]).name != name,
    ensures
        fam_index(fams, name) == match fam_index(fams.skip(i), name) {
            None => None::<int>,
            Some(k) => Some(k + i),
        },
    decreases i,
{
    if i > 0 {
        assert(fams[0].name != name);
        assert(forall|j: int| 0 <= j < i - 1 ==> (#[trigger] fams.drop_first()[j]).name != name);
        lemma_fam_index_skip(fams.drop_first(), name, i - 1);
        assert(fams.drop_first().skip(i - 1) =~= fams.skip(i));
    } else {
        assert(fams.skip(0) =~= fams);
        match fam_index(fams, name) {
            None => {},
            Some(k) => {},
        }
    }
}

/// The index of the first series whose key equals `key`.
pub open spec fn key_index(keys: Seq<Seq<Seq<char>>>, key: Seq<Seq<char>>) -> Option<int>
    decreases keys.len(),
{
    if keys.len() == 0 {
        None
    } else if keys[0] == key {
        Some(0int)
    } else {
        match key_index(keys.drop_first(), key) {
            None => None,
            Some(i) => Some(i + 1),
        }
    }
}

/// The keys of a list of series.
pub open spec fn series_keys(series: Seq<SeriesModel>) -> Seq<Seq<Seq<char>>> {
    series.map_values(|s: SeriesModel| s.label_values)
}

/// What `key_index` returns: the first index carrying the key, if any.
pub proof fn lemma_key_index_props(keys: Seq<Seq<Seq<char>>>, key: Seq<Seq<char>>)
    ensures
        match key_index(keys, key) {
            None => forall|i: int| 0 <= i < keys.len() ==> (#[trigger] keys[i]) != key,
            Some(i) => 0 <= i < keys.len() && keys[i] == key && forall|j: int|
                0 <= j < i ==> (#[trigger] keys[j]) != key,
        },
    decreases keys.len(),
{
    if keys.len() > 0 {
        lemma_key_index_props(keys.drop_first(), key);
        if keys[0] != key {
            match key_index(keys.drop_first(), key) {
                None => {
                    assert forall|i: int| 0 <= i < keys.len() implies (#[trigger] keys[i])
                        != key by {
                        if i > 0 {
                            assert(keys.drop_first()[i - 1] == keys[i]);
                        }
                    }
                },
                Some(i) => {
                    assert(keys.drop_first()[i] == keys[i + 1]);
                    assert forall|j: int| 0 <= j < i + 1 implies (#[trigger] keys[j]) != key by {
                        if j > 0 {
                            assert(keys.drop_first()[j - 1] == keys[j]);
                        }
                    }
                },
            }
        }
    }
}

proof fn lemma_key_index_skip(keys: Seq<Seq<Seq<char>>>, key: Seq<Seq<char>>, i: int)
    requires
        0 <= i <= keys.len(),
        forall|j: int| 0 <= j < i ==> (#[trigger] keys[j]) != key,
    ensures
        key_index(keys, key) == match key_index(keys.skip(i), key) {
            None => None::<int>,
            Some(k) => Some(k + i),
        },
    decreases i,
{
    if i > 0 {
        assert(keys[0] != key);
        assert(forall|j: int| 0 <= j < i - 1 ==> (#[trigger] keys.drop_first()[j]) != key);
        lemma_key_index_skip(keys.drop_first(), key, i - 1);
        assert(keys.drop_first().skip(i - 1) =~= keys.skip(i));
    } else {
        assert(keys.skip(0) =~= keys);
        match key_index(keys, key) {
            None => {},
            Some(k) => {},
        }
    }
}

/// The measurement's label-key set matches the family's fixed label names.
pub open spec fn labels_match(
    names: Seq<Seq<char>>,
    labels: Seq<(Seq<char>, Seq<char>)>,
) -> bool {
    names.len() == labels.len() && forall|k: int|
        0 <= k < names.len() ==> label_lookup(labels, #[trigger] names[k]) is Some
}

/// The value bound to `name`, or the empty value where none is bound.
pub open spec fn label_value_or_empty(
    labels: Seq<(Seq<char>, Seq<char>)>,
    name: Seq<char>,
) -> Seq<char> {
    match label_lookup(labels, name) {
        Some(v) => v,
        None => Seq::empty(),
    }
}

/// The series key of a measurement under a family's label-name order.
pub open spec fn series_key(
    names: Seq<Seq<char>>,
    labels: Seq<(Seq<char>, Seq<char>)>,
) -> Seq<Seq<char>> {
    names.map_values(|ln: Seq<char>| label_value_or_empty(labels, ln))
}

/// The value fits in the registry's machine representation.
pub open spec fn fits_i64(v: int) -> bool {
    i64::MIN <= v <= i64::MAX
}

/// What applying one measurement does to the families of its kind.
pub open spec fn fams_apply_one(fams: Seq<FamilyModel>, m: MeasurementModel) -> (
    Seq<FamilyModel>,
    ApplyOutcome,
) {
    match fam_index(fams, m.name) {
        None => (fams, ApplyOutcome::NotRegistered),
        Some(fi) => {
            let fam = fams[fi];
            if !labels_match(fam.label_names, m.labels) {
                (fams, ApplyOutcome::LabelMismatch)
            } else {
                let key = series_key(fam.label_names, m.labels);
                match key_index(series_keys(fam.series), key) {
                    None => {
                        let s = SeriesModel { label_values: key, value: m.value };
                        let fam2 = FamilyModel {
                            name: fam.name,
                            help: fam.help,
                            label_names: fam.label_names,
                            series: fam.series.push(s),
                        };
                        (fams.update(fi, fam2), ApplyOutcome::Applied)
                    },
                    Some(si) => {
                        if m.kind == MetricKind::Counter {
                            let nv = fam.series[si].value + m.value;
                            if fits_i64(nv) {
                                let s = SeriesModel {
                                    label_values: fam.series[si].label_values,
                                    value: nv,
                                };
                                let fam2 = FamilyModel {
                                    name: fam.name,
                                    help: fam.help,
                                    label_names: fam.label_names,
                                    series: fam.series.update(si, s),
                                };
                                (fams.update(fi, fam2), ApplyOutcome::Applied)
                            } else {
                                (fams, ApplyOutcome::Overflow)
                            }
                        } else {
                            let s = SeriesModel {
                                label_values: fam.series[si].label_values,
                                value: m.value,
                            };
                            let fam2 = FamilyModel {
                                name: fam.name,
                                help: fam.help,
                                label_names: fam.label_names,
                                series: fam.series.update(si, s),
                            };
                            (fams.update(fi, fam2), ApplyOutcome::Applied)
                        }
                    },
                }
            }
        },
    }
}

/// What applying one measurement does to the registry: it touches only the
/// families of the measurement's kind.
pub open spec fn reg_apply_one(r: RegistryModel, m: MeasurementModel) -> (
    RegistryModel,
    ApplyOutcome,
) {
    if m.kind == MetricKind::Counter {
        let step = fams_apply_one(r.counters, m);
        (RegistryModel { counters: step.0, gauges: r.gauges }, step.1)
    } else {
        let step = fams_apply_one(r.gauges, m);
        (RegistryModel { counters: r.counters, gauges: step.0 }, step.1)
    }
}

/// What applying a batch does: each measurement in order, none skipped.
pub open spec fn reg_apply(r: RegistryModel, ms: Seq<MeasurementModel>) -> (
    RegistryModel,
    Seq<ApplyOutcome>,
)
    decreases ms.len(),
{
    if ms.len() == 0 {
        (r, Seq::empty())
    } else {
        let first = reg_apply_one(r, ms[0]);
        let rest = reg_apply(first.0, ms.drop_first());
        (rest.0, seq![first.1] + rest.1)
    }
}

/// What registering one measurement does to the registry.
pub open spec fn reg_register_one(r: RegistryModel, m: MeasurementModel) -> (
    RegistryModel,
    RegisterOutcome,
) {
    if !(valid_metric_name(m.name) && labels_valid(m.labels)) {
        (r, RegisterOutcome::InvalidDefinition)
    } else if fam_index(r.counters, m.name) is Some || fam_index(r.gauges, m.name) is Some {
        (r, RegisterOutcome::AlreadyRegistered)
    } else {
        let fam = FamilyModel {
            name: m.name,
            help: m.help,
            label_names: pair_names(canonical_order(m.labels)),
            series: Seq::empty(),
        };
        if m.kind == MetricKind::Counter {
            (RegistryModel { counters: r.counters.push(fam), gauges: r.gauges }, RegisterOutcome::Created)
        } else {
            (RegistryModel { counters: r.counters, gauges: r.gauges.push(fam) }, RegisterOutcome::Created)
        }
    }
}

/// What registering a batch does: each measurement in order, none skipped.
pub open spec fn reg_register(r: RegistryModel, ms: Seq<MeasurementModel>) -> (
    RegistryModel,
    Seq<RegisterOutcome>,
)
    decreases ms.len(),
{
    if ms.len() == 0 {
        (r, Seq::empty())
    } else {
        let first = reg_register_one(r, ms[0]);
        let rest = reg_register(first.0, ms.drop_first());
        (rest.0, seq![first.1] + rest.1)
    }
}

/// The mathematical values of a batch of measurements.
pub open spec fn meas_models(ms: Seq<Measurement>) -> Seq<MeasurementModel> {
    ms.map_values(|m: Measurement| m@)
}

/// All measurements of a batch have unique label keys.
pub open spec fn all_meas_wf(ms: Seq<MeasurementModel>) -> bool {
    forall|i: int| 0 <= i < ms.len() ==> meas_wf(#[trigger] ms[i])
}

/// A family is well formed: unique label names, and every series carries one
/// value per label name under a unique key.
pub open spec fn fam_wf(f: FamilyModel) -> bool {
    &&& forall|i: int, j: int|
        0 <= i < j < f.label_names.len() ==> (#[trigger] f.label_names[i]) != (
        #[trigger] f.label_names[j])
    &&& forall|i: int|
        0 <= i < f.series.len() ==> (#[trigger] f.series[i]).label_values.len()
            == f.label_names.len()
    &&& forall|i: int, j: int|
        0 <= i < j < f.series.len() ==> (#[trigger] f.series[i]).label_values != (
        #[trigger] f.series[j]).label_values
}

/// A family list is well formed: unique names, well-formed families.
pub open spec fn fams_wf(fams: Seq<FamilyModel>) -> bool {
    &&& forall|i: int, j: int|
        0 <= i < j < fams.len() ==> (#[trigger] fams[i]).name != (#[trigger] fams[j]).name
    &&& forall|i: int| 0 <= i < fams.len() ==> fam_wf(#[trigger] fams[i])
}

/// The registry invariant: both family lists well formed, and no name is
/// carried by both a counter and a gauge family.
pub open spec fn reg_wf(r: RegistryModel) -> bool {
    &&& fams_wf(r.counters)
    &&& fams_wf(r.gauges)
    &&& forall|i: int, j: int|
        0 <= i < r.counters.len() && 0 <= j < r.gauges.len() ==> (#[trigger] r.counters[i]).name
            != (#[trigger] r.gauges[j]).name
}

/// Applying one measurement preserves each family's identity: the names and
/// label names stand, only series change.
pub proof fn lemma_fams_apply_one_shape(fams: Seq<FamilyModel>, m: MeasurementModel)
    ensures
        fams_apply_one(fams, m).0.len() == fams.len(),
        forall|k: int|
            0 <= k < fams.len() ==> (#[trigger] fams_apply_one(fams, m).0[k]).name == fams[k].name
                && fams_apply_one(fams, m).0[k].label_names == fams[k].label_names
                && fams_apply_one(fams, m).0[k].help == fams[k].help,
{
    lemma_fam_index_props(fams, m.name);
}

/// Applying one measurement preserves well-formedness.
pub proof fn lemma_fams_apply_one_wf(fams: Seq<FamilyModel>, m: MeasurementModel)
    requires
        fams_wf(fams),
    ensures
        fams_wf(fams_apply_one(fams, m).0),
{
    lemma_fam_index_props(fams, m.name);
    match fam_index(fams, m.name) {
        None => {},
        Some(fi) => {
            let fam = fams[fi];
            if labels_match(fam.label_names, m.labels) {
                let key = series_key(fam.label_names, m.labels);
                lemma_key_index_props(series_keys(fam.series), key);
                match key_index(series_keys(fam.series), key) {
                    None => {
                        let s = SeriesModel { label_values: key, value: m.value };
                        let fam2 = FamilyModel {
                            name: fam.name,
                            help: fam.help,
                            label_names: fam.label_names,
                            series: fam.series.push(s),
                        };
                        assert(key.len() == fam.label_names.len());
                        assert forall|i: int, j: int|
                            0 <= i < j < fam2.series.len() implies (
                        #[trigger] fam2.series[i]).label_values != (
                        #[trigger] fam2.series[j]).label_values by {
                            if j == fam.series.len() {
                                assert(series_keys(fam.series)[i] == fam.series[i].label_values);
                            }
                        }
                        assert(fam_wf(fam2));
                        let fams2 = fams.update(fi, fam2);
                        assert forall|i: int| 0 <= i < fams2.len() implies fam_wf(
                            #[trigger] fams2[i],
                        ) by {
                            if i != fi {
                                assert(fams2[i] == fams[i]);
                            }
                        }
                    },
                    Some(si) => {
                        let nv = if m.kind == MetricKind::Counter {
                            fam.series[si].value + m.value
                        } else {
                            m.value
                        };
                        if m.kind != MetricKind::Counter || fits_i64(
                            fam.series[si].value + m.value,
                        ) {
                            let s = SeriesModel {
                                label_values: fam.series[si].label_values,
                                value: nv,
                            };
                            let fam2 = FamilyModel {
                                name: fam.name,
                                help: fam.help,
                                label_names: fam.label_names,
                                series: fam.series.update(si, s),
                            };
                            assert forall|i: int, j: int|
                                0 <= i < j < fam2.series.len() implies (
                            #[trigger] fam2.series[i]).label_values != (
                            #[trigger] fam2.series[j]).label_values by {
                                assert(fam2.series[i].label_values
                                    == fam.series[i].label_values);
                                assert(fam2.series[j].label_values
                                    == fam.series[j].label_values);
                            }
                            assert(fam_wf(fam2));
                            let fams2 = fams.update(fi, fam2);
                            assert forall|i: int| 0 <= i < fams2.len() implies fam_wf(
                                #[trigger] fams2[i],
                            ) by {
                                if i != fi {
                                    assert(fams2[i] == fams[i]);
                                }
                            }
                        }
                    },
                }
            }
        },
    }
}

/// Applying one measurement preserves the registry invariant.
pub proof fn lemma_reg_apply_one_wf(r: RegistryModel, m: MeasurementModel)
    requires
        reg_wf(r),
    ensures
        reg_wf(reg_apply_one(r, m).0),
{
    if m.kind == MetricKind::Counter {
        lemma_fams_apply_one_wf(r.counters, m);
        lemma_fams_apply_one_shape(r.counters, m);
    } else {
        lemma_fams_apply_one_wf(r.gauges, m);
        lemma_fams_apply_one_shape(r.gauges, m);
    }
}

/// Registering one well-formed measurement preserves the registry invariant.
pub proof fn lemma_reg_register_one_wf(r: RegistryModel, m: MeasurementModel)
    requires
        reg_wf(r),
        meas_wf(m),
    ensures
        reg_wf(reg_register_one(r, m).0),
{
    if valid_metric_name(m.name) && labels_valid(m.labels) {
        lemma_fam_index_props(r.counters, m.name);
        lemma_fam_index_props(r.gauges, m.name);
        if fam_index(r.counters, m.name) is None && fam_index(r.gauges, m.name) is None {
            crate::measurement::lemma_canonical_order_names(m.labels);
            let canon = canonical_order(m.labels);
            let names = canon.map_values(|p: (Seq<char>, Seq<char>)| p.0);
            let fam = FamilyModel {
                name: m.name,
                help: m.help,
                label_names: names,
                series: Seq::empty(),
            };
            assert forall|i: int, j: int|
                0 <= i < j < names.len() implies (#[trigger] names[i]) != (
            #[trigger] names[j]) by {
                assert(names[i] == canon[i].0);
                assert(names[j] == canon[j].0);
            }
            assert(fam_wf(fam));
            if m.kind == MetricKind::Counter {
                let fams2 = r.counters.push(fam);
                assert forall|i: int, j: int|
                    0 <= i < j < fams2.len() implies (#[trigger] fams2[i]).name != (
                #[trigger] fams2[j]).name by {
                    if j == r.counters.len() {
                        assert(fams2[i] == r.counters[i]);
                    }
                }
                assert forall|i: int| 0 <= i < fams2.len() implies fam_wf(
                    #[trigger] fams2[i],
                ) by {
                    if i < r.counters.len() {
                        assert(fams2[i] == r.counters[i]);
                    }
                }
            } else {
                let fams2 = r.gauges.push(fam);
                assert forall|i: int, j: int|
                    0 <= i < j < fams2.len() implies (#[trigger] fams2[i]).name != (
                #[trigger] fams2[j]).name by {
                    if j == r.gauges.len() {
                        assert(fams2[i] == r.gauges[i]);
                    }
                }
                assert forall|i: int| 0 <= i < fams2.len() implies fam_wf(
                    #[trigger] fams2[i],
                ) by {
                    if i < r.gauges.len() {
                        assert(fams2[i] == r.gauges[i]);
                    }
                }
            }
        }
    }
}

fn find_family(fams: &Vec<Family>, name: &String) -> (r: Option<usize>)
    ensures
        match r {
            Some(i) => i < fams.len() && fam_index(fams_model(fams@), name@) == Some(i as int),
            None => fam_index(fams_model(fams@), name@) is None,
        },
{
    let ghost m = fams_model(fams@);
    let mut i: usize = 0;
    while i < fams.len()
        invariant
            0 <= i <= fams.len(),
            m == fams_model(fams@),
            m.len() == fams.len(),
            forall|j: int| 0 <= j < i ==> (#[trigger] m[j]).name != name@,
        decreases fams.len() - i,
    {
        if fams[i].name == *name {
            proof {
                lemma_fam_index_skip(m, name@, i as int);
                assert(m.skip(i as int)[0] == m[i as int]);
            }
            return Some(i);
        }
        i = i + 1;
    }
    proof {
        lemma_fam_index_skip(m, name@, i as int);
        assert(m.skip(i as int).len() == 0);
    }
    None
}

/// Decides whether two string lists hold the same texts.
fn str_vecs_eq(a: &Vec<String>, b: &Vec<String>) -> (r: bool)
    ensures
        r == (strings_model(a@) == strings_model(b@)),
{
    if a.len() != b.len() {
        assert(strings_model(a@).len() != strings_model(b@).len());
        return false;
    }
    let mut i: usize = 0;
    while i < a.len()
        invariant
            0 <= i <= a.len(),
            a.len() == b.len(),
            forall|j: int| 0 <= j < i ==> strings_model(a@)[j] == strings_model(b@)[j],
        decreases a.len() - i,
    {
        if !(a[i] == b[i]) {
            assert(strings_model(a@)[i as int] != strings_model(b@)[i as int]);
            return false;
        }
        i = i + 1;
    }
    proof {
        assert(strings_model(a@) =~= strings_model(b@));
    }
    true
}

fn find_series(series: &Vec<Series>, key: &Vec<String>) -> (r: Option<usize>)
    ensures
        match r {
            Some(i) => i < series.len() && key_index(
                series_keys(series@.map_values(|s: Series| s@)),
                strings_model(key@),
            ) == Some(i as int),
            None => key_index(
                series_keys(series@.map_values(|s: Series| s@)),
                strings_model(key@),
            ) is None,
        },
{
    let ghost keys = series_keys(series@.map_values(|s: Series| s@));
    let ghost km = strings_model(key@);
    let mut i: usize = 0;
    while i < series.len()
        invariant
            0 <= i <= series.len(),
            keys == series_keys(series@.map_values(|s: Series| s@)),
            km == strings_model(key@),
            keys.len() == series.len(),
            forall|j: int| 0 <= j < i ==> (#[trigger] keys[j]) != km,
        decreases series.len() - i,
    {
        if str_vecs_eq(&series[i].label_values, key) {
            proof {
                lemma_key_index_skip(keys, km, i as int);
                assert(keys.skip(i as int)[0] == keys[i as int]);
            }
            return Some(i);
        }
        proof {
            assert(keys[i as int] == series@.map_values(|s: Series| s@)[i as int].label_values);
        }
        i = i + 1;
    }
    proof {
        lemma_key_index_skip(keys, km, i as int);
        assert(keys.skip(i as int).len() == 0);
    }
    None
}

fn labels_match_exec(label_names: &Vec<String>, labels: &Vec<(String, String)>) -> (r: bool)
    ensures
        r == labels_match(strings_model(label_names@), labels_model(labels@)),
{
    if label_names.len() != labels.len() {
        return false;
    }
    let mut k: usize = 0;
    while k < label_names.len()
        invariant
            0 <= k <= label_names.len(),
            label_names.len() == labels.len(),
            forall|j: int|
                0 <= j < k ==> label_lookup(
                    labels_model(labels@),
                    #[trigger] strings_model(label_names@)[j],
                ) is Some,
        decreases label_names.len() - k,
    {
        let found = lookup_label(labels, &label_names[k]);
        if found.is_none() {
            proof {
                assert(strings_model(label_names@)[k as int] == label_names@[k as int]@);
                assert(label_lookup(
                    labels_model(labels@),
                    strings_model(label_names@)[k as int],
                ) is None);
            }
            return false;
        }
        k = k + 1;
    }
    true
}

fn build_key(label_names: &Vec<String>, labels: &Vec<(String, String)>) -> (key: Vec<String>)
    requires
        labels_match(strings_model(label_names@), labels_model(labels@)),
    ensures
        strings_model(key@) == series_key(strings_model(label_names@), labels_model(labels@)),
{
    let ghost names = strings_model(label_names@);
    let ghost lm = labels_model(labels@);
    let mut key: Vec<String> = Vec::new();
    let mut k: usize = 0;
    while k < label_names.len()
        invariant
            0 <= k <= label_names.len(),
            names == strings_model(label_names@),
            lm == labels_model(labels@),
            names.len() == label_names.len(),
            labels_match(names, lm),
            strings_model(key@) == series_key(names, lm).take(k as int),
        decreases label_names.len() - k,
    {
        let v = match lookup_label(labels, &label_names[k]) {
            Some(v) => v,
            None => {
                proof {
                    assert(label_lookup(lm, names[k as int]) is Some);
                }
                vstd::pervasive::unreached()
            },
        };
        let ghost kprev = key@;
        key.push(v);
        proof {
            assert(names[k as int] == label_names@[k as int]@);
            assert(series_key(names, lm)[k as int] == label_value_or_empty(lm, names[k as int]));
            lemma_strings_model_push(kprev, v);
            assert(series_key(names, lm).take(k as int).push(series_key(names, lm)[k as int])
                =~= series_key(names, lm).take(k + 1 as int));
        }
        k = k + 1;
    }
    proof {
        assert(series_key(names, lm).take(label_names@.len() as int) =~= series_key(names, lm));
    }
    key
}

fn apply_to_fams(fams: &mut Vec<Family>, m: &Measurement) -> (o: ApplyOutcome)
    ensures
        fams_model(final(fams)@) == fams_apply_one(fams_model(old(fams)@), m@).0,
        o == fams_apply_one(fams_model(old(fams)@), m@).1,
{
    let ghost m0 = fams_model(fams@);
    let fi = match find_family(fams, &m.name) {
        None => {
            return ApplyOutcome::NotRegistered;
        },
        Some(fi) => fi,
    };
    let ghost fam0 = m0[fi as int];
    if !labels_match_exec(&fams[fi].label_names, &m.labels) {
        return ApplyOutcome::LabelMismatch;
    }
    let key = build_key(&fams[fi].label_names, &m.labels);
    let ghost keym = series_key(fam0.label_names, m@.labels);
    let si = find_series(&fams[fi].series, &key);
    match si {
        None => {
            let mut fam = fams.remove(fi);
            fam.series.push(Series { label_values: key, value: m.value });
            proof {
                let s = SeriesModel { label_values: keym, value: m@.value };
                assert(fam@.series =~= fam0.series.push(s));
                assert(fam@ =~= fams_apply_one(m0, m@).0[fi as int]);
            }
            fams.insert(fi, fam);
            proof {
                assert(fams_model(fams@) =~= fams_apply_one(m0, m@).0);
            }
            ApplyOutcome::Applied
        },
        Some(si) => {
            let new_value: i64 = match m.kind {
                MetricKind::Counter => {
                    match fams[fi].series[si].value.checked_add(m.value) {
                        None => {
                            return ApplyOutcome::Overflow;
                        },
                        Some(nv) => nv,
                    }
                },
                MetricKind::Gauge => m.value,
            };
            let mut fam = fams.remove(fi);
            fam.series.set(si, Series { label_values: key, value: new_value });
            proof {
                lemma_key_index_props(series_keys(fam0.series), keym);
                let s = SeriesModel {
                    label_values: fam0.series[si as int].label_values,
                    value: new_value as int,
                };
                assert(fam@.series =~= fam0.series.update(si as int, s));
                assert(fam@ =~= fams_apply_one(m0, m@).0[fi as int]);
            }
            fams.insert(fi, fam);
            proof {
                assert(fams_model(fams@) =~= fams_apply_one(m0, m@).0);
            }
            ApplyOutcome::Applied
        },
    }
}

impl Registry {
    /// An empty registry.
    pub fn new() -> (r: Registry)
        ensures
            r@.counters.len() == 0,
            r@.gauges.len() == 0,
            reg_wf(r@),
    {
        Registry { counters: Vec::new(), gauges: Vec::new() }
    }

    /// Registers one measurement: creates its family exactly once, or reports
    /// why not.
    fn register_one(&mut self, m: &Measurement) -> (o: RegisterOutcome)
        requires
            meas_wf(m@),
            reg_wf(old(self)@),
        ensures
            final(self)@ == reg_register_one(old(self)@, m@).0,
            o == reg_register_one(old(self)@, m@).1,
            reg_wf(final(self)@),
    {
        proof {
            lemma_reg_register_one_wf(old(self)@, m@);
        }
        if !is_valid_metric_name(m.name.as_str()) {
            return RegisterOutcome::InvalidDefinition;
        }
        let mut k: usize = 0;
        while k < m.labels.len()
            invariant
                0 <= k <= m.labels.len(),
                self@ == old(self)@,
                reg_wf(self@),
                valid_metric_name(m@.name),
                forall|j: int|
                    0 <= j < k ==> crate::text::valid_label_name(
                        (#[trigger] labels_model(m.labels@)[j]).0,
                    ),
            decreases m.labels.len() - k,
        {
            if !is_valid_label_name(m.labels[k].0.as_str()) {
                proof {
                    assert(labels_model(m.labels@)[k as int].0 == m.labels@[k as int].0@);
                    assert(!labels_valid(m@.labels));
                }
                return RegisterOutcome::InvalidDefinition;
            }
            k = k + 1;
        }
        proof {
            assert(labels_valid(m@.labels));
        }
        if find_family(&self.counters, &m.name).is_some() {
            return RegisterOutcome::AlreadyRegistered;
        }
        if find_family(&self.gauges, &m.name).is_some() {
            return RegisterOutcome::AlreadyRegistered;
        }
        let sorted = sort_labels(&m.labels);
        let mut label_names: Vec<String> = Vec::new();
        let mut j: usize = 0;
        let ghost canon = canonical_order(labels_model(m.labels@));
        proof {
            assert(labels_model(sorted@) == canon);
        }
        while j < sorted.len()
            invariant
                0 <= j <= sorted.len(),
                canon == labels_model(sorted@),
                canon.len() == sorted.len(),
                strings_model(label_names@) == pair_names(canon).take(j as int),
            decreases sorted.len() - j,
        {
            let ghost lprev = label_names@;
            let cloned = sorted[j].0.clone();
            label_names.push(cloned);
            proof {
                assert(canon[j as int] == (sorted@[j as int].0@, sorted@[j as int].1@));
                assert(pair_names(canon)[j as int] == canon[j as int].0);
                lemma_strings_model_push(lprev, cloned);
                assert(pair_names(canon).take(j as int).push(pair_names(canon)[j as int])
                    =~= pair_names(canon).take(j + 1 as int));
            }
            j = j + 1;
        }
        proof {
            assert(pair_names(canon).take(sorted@.len() as int) =~= pair_names(canon));
        }
        let fam = Family {
            name: m.name.clone(),
            help: m.help.clone(),
            label_names,
            series: Vec::new(),
        };
        match m.kind {
            MetricKind::Counter => {
                proof {
                    assert(fam@.series =~= Seq::<SeriesModel>::empty());
                    assert(fam@ == reg_register_one(old(self)@, m@).0.counters.last());
                }
                self.counters.push(fam);
                proof {
                    assert(fams_model(self.counters@) =~= reg_register_one(
                        old(self)@,
                        m@,
                    ).0.counters);
                }
            },
            MetricKind::Gauge => {
                proof {
                    assert(fam@.series =~= Seq::<SeriesModel>::empty());
                    assert(fam@ == reg_register_one(old(self)@, m@).0.gauges.last());
                }
                self.gauges.push(fam);
                proof {
                    assert(fams_model(self.gauges@) =~= reg_register_one(
                        old(self)@,
                        m@,
                    ).0.gauges);
                }
            },
        }
        RegisterOutcome::Created
    }

    /// Registers a batch of measurements, one family per distinct name,
    /// skipping invalid or already-registered ones; returns the outcome for
    /// each measurement in order.
    pub fn register(&mut self, ms: &Vec<Measurement>) -> (outs: Vec<RegisterOutcome>)
        requires
            all_meas_wf(meas_models(ms@)),
            reg_wf(old(self)@),
        ensures
            final(self)@ == reg_register(old(self)@, meas_models(ms@)).0,
            outs@ == reg_register(old(self)@, meas_models(ms@)).1,
            reg_wf(final(self)@),
    {
        let ghost models = meas_models(ms@);
        let ghost full = reg_register(old(self)@, models);
        let mut outs: Vec<RegisterOutcome> = Vec::new();
        let mut i: usize = 0;
        proof {
            assert(models.skip(0) =~= models);
        }
        while i < ms.len()
            invariant
                0 <= i <= ms.len(),
                models == meas_models(ms@),
                models.len() == ms.len(),
                full == reg_register(old(self)@, models),
                all_meas_wf(models),
                reg_wf(self@),
                full.0 == reg_register(self@, models.skip(i as int)).0,
                full.1 == outs@ + reg_register(self@, models.skip(i as int)).1,
            decreases ms.len() - i,
        {
            let ghost pre = self@;
            proof {
                assert(models.skip(i as int).len() > 0);
                assert(models.skip(i as int)[0] == models[i as int]);
                assert(models.skip(i as int).drop_first() =~= models.skip(i + 1 as int));
                assert(models[i as int] == ms@[i as int]@);
                assert(meas_wf(models[i as int]));
            }
            let o = self.register_one(&ms[i]);
            outs.push(o);
            proof {
                let step = reg_register_one(pre, models[i as int]);
                let rest = reg_register(step.0, models.skip(i + 1 as int));
                assert(reg_register(pre, models.skip(i as int)).0 == rest.0);
                assert(reg_register(pre, models.skip(i as int)).1 =~= seq![step.1] + rest.1);
                assert(outs@ + rest.1 =~= (outs@.drop_last() + seq![step.1]) + rest.1);
                assert(full.1 =~= outs@ + reg_register(self@, models.skip(i + 1 as int)).1);
            }
            i = i + 1;
        }
        proof {
            assert(models.skip(ms@.len() as int).len() == 0);
            assert(full.1 =~= outs@);
        }
        outs
    }

    /// Applies one measurement: routes its value to its series, or reports
    /// why not.
    fn apply_one(&mut self, m: &Measurement) -> (o: ApplyOutcome)
        requires
            reg_wf(old(self)@),
        ensures
            final(self)@ == reg_apply_one(old(self)@, m@).0,
            o == reg_apply_one(old(self)@, m@).1,
            reg_wf(final(self)@),
    {
        proof {
            lemma_reg_apply_one_wf(old(self)@, m@);
        }
        match m.kind {
            MetricKind::Counter => apply_to_fams(&mut self.counters, m),
            MetricKind::Gauge => apply_to_fams(&mut self.gauges, m),
        }
    }

    /// Applies a batch of measurements in order: a counter series is
    /// incremented by the reported value, a gauge series overwritten with it;
    /// a measurement whose name is unregistered or whose label-key set does
    /// not match its family is skipped with an error outcome, and processing
    /// continues.
    pub fn apply(&mut self, ms: &Vec<Measurement>) -> (outs: Vec<ApplyOutcome>)
        requires
            reg_wf(old(self)@),
        ensures
            final(self)@ == reg_apply(old(self)@, meas_models(ms@)).0,
            outs@ == reg_apply(old(self)@, meas_models(ms@)).1,
            reg_wf(final(self)@),
    {
        let ghost models = meas_models(ms@);
        let ghost full = reg_apply(old(self)@, models);
        let mut outs: Vec<ApplyOutcome> = Vec::new();
        let mut i: usize = 0;
        proof {
            assert(models.skip(0) =~= models);
        }
        while i < ms.len()
            invariant
                0 <= i <= ms.len(),
                models == meas_models(ms@),
                models.len() == ms.len(),
                full == reg_apply(old(self)@, models),
                reg_wf(self@),
                full.0 == reg_apply(self@, models.skip(i as int)).0,
                full.1 == outs@ + reg_apply(self@, models.skip(i as int)).1,
            decreases ms.len() - i,
        {
            let ghost pre = self@;
            proof {
                assert(models.skip(i as int).len() > 0);
                assert(models.skip(i as int)[0] == models[i as int]);
                assert(models.skip(i as int).drop_first() =~= models.skip(i + 1 as int));
                assert(models[i as int] == ms@[i as int]@);
            }
            let o = self.apply_one(&ms[i]);
            outs.push(o);
            proof {
                let step = reg_apply_one(pre, models[i as int]);
                let rest = reg_apply(step.0, models.skip(i + 1 as int));
                assert(reg_apply(pre, models.skip(i as int)).0 == rest.0);
                assert(reg_apply(pre, models.skip(i as int)).1 =~= seq![step.1] + rest.1);
                assert(full.1 =~= outs@ + reg_apply(self@, models.skip(i + 1 as int)).1);
            }
            i = i + 1;
        }
        proof {
            assert(models.skip(ms@.len() as int).len() == 0);
            assert(full.1 =~= outs@);
        }
        outs
    }

    /// The current value of the series for `labels` under the family `name`
    /// of the given kind, if registered, matching and present.
    pub fn series_value(&self, kind: MetricKind, name: &String, labels: &Vec<(String, String)>)
        -> (r: Option<i64>)
        ensures
            match r {
                Some(v) => spec_series_value(
                    if kind == MetricKind::Counter { self@.counters } else { self@.gauges },
                    name@,
                    labels_model(labels@),
                ) == Some(v as int),
                None => spec_series_value(
                    if kind == MetricKind::Counter { self@.counters } else { self@.gauges },
                    name@,
                    labels_model(labels@),
                ) is None,
            },
    {
        let fams: &Vec<Family> = match kind {
            MetricKind::Counter => &self.counters,
            MetricKind::Gauge => &self.gauges,
        };
        let fi = match find_family(fams, name) {
            None => {
                return None;
            },
            Some(fi) => fi,
        };
        if !labels_match_exec(&fams[fi].label_names, labels) {
            return None;
        }
        let key = build_key(&fams[fi].label_names, labels);
        match find_series(&fams[fi].series, &key) {
            None => None,
            Some(si) => Some(fams[fi].series[si].value),
        }
    }

    /// The names of all registered counter families, in registration order.
    pub fn counter_names(&self) -> (r: Vec<String>)
        ensures
            strings_model(r@) == fam_names(self@.counters),
    {
        family_names(&self.counters)
    }

    /// The names of all registered gauge families, in registration order.
    pub fn gauge_names(&self) -> (r: Vec<String>)
        ensures
            strings_model(r@) == fam_names(self@.gauges),
    {
        family_names(&self.gauges)
    }
}

/// The current value of the series for `labels` under `name`, if any.
pub open spec fn spec_series_value(
    fams: Seq<FamilyModel>,
    name: Seq<char>,
    labels: Seq<(Seq<char>, Seq<char>)>,
) -> Option<int> {
    match fam_index(fams, name) {
        None => None,
        Some(fi) => {
            let fam = fams[fi];
            if !labels_match(fam.label_names, labels) {
                None
            } else {
                match key_index(series_keys(fam.series), series_key(fam.label_names, labels)) {
                    None => None,
                    Some(si) => Some(fam.series[si].value),
                }
            }
        },
    }
}

fn family_names(fams: &Vec<Family>) -> (r: Vec<String>)
    ensures
        strings_model(r@) == fam_names(fams_model(fams@)),
{
    let mut r: Vec<String> = Vec::new();
    let mut i: usize = 0;
    while i < fams.len()
        invariant
            0 <= i <= fams.len(),
            strings_model(r@) == fam_names(fams_model(fams@)).take(i as int),
        decreases fams.len() - i,
    {
        let ghost rprev = r@;
        let cloned = fams[i].name.clone();
        r.push(cloned);
        proof {
            assert(fams_model(fams@)[i as int] == fams@[i as int]@);
            assert(fam_names(fams_model(fams@))[i as int] == fams_model(fams@)[i as int].name);
            lemma_strings_model_push(rprev, cloned);
            assert(fam_names(fams_model(fams@)).take(i as int).push(
                fam_names(fams_model(fams@))[i as int],
            ) =~= fam_names(fams_model(fams@)).take(i + 1 as int));
        }
        i = i + 1;
    }
    proof {
        assert(fam_names(fams_model(fams@)).take(fams@.len() as int) =~= fam_names(
            fams_model(fams@),
        ));
    }
    r
}

/// The scheduler's update entry point: applies a batch of measurements to
/// the registry.
pub fn updata_metrics(registry: &mut Registry, metrics: &Vec<Measurement>) -> (outs: Vec<
    ApplyOutcome,
>)
    requires
        reg_wf(old(registry)@),
    ensures
        final(registry)@ == reg_apply(old(registry)@, meas_models(metrics@)).0,
        outs@ == reg_apply(old(registry)@, meas_models(metrics@)).1,
        reg_wf(final(registry)@),
{
    registry.apply(metrics)
}


} // verus!
