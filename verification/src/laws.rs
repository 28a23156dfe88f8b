//! The registry's laws: idempotent registration, kind-preserving
//! accumulation, label isolation, and unknown-name applies as harmless
//! per-measurement errors.

use vstd::prelude::*;

use crate::measurement::MeasurementModel;
use crate::measurement::MetricKind;
use crate::registry::ApplyOutcome;
use crate::registry::FamilyModel;
use crate::registry::RegisterOutcome;
use crate::registry::RegistryModel;
use crate::registry::fam_index;
use crate::registry::fams_apply_one;
use crate::registry::fits_i64;
use crate::registry::key_index;
use crate::registry::labels_match;
use crate::registry::lemma_fam_index_props;
use crate::registry::lemma_key_index_props;
use crate::registry::reg_apply;
use crate::registry::reg_apply_one;
use crate::registry::reg_register_one;
use crate::registry::series_key;
use crate::registry::series_keys;

verus! {

/// Registering the same measurement twice creates exactly one family: the
/// second call leaves the registry as the first call left it, and where the
/// first call created the family, the second reports it as already there.
pub proof fn lemma_register_idempotent(r: RegistryModel, m: MeasurementModel)
    ensures
        reg_register_one(reg_register_one(r, m).0, m).0 == reg_register_one(r, m).0,
        reg_register_one(r, m).1 == RegisterOutcome::Created ==> reg_register_one(
            reg_register_one(r, m).0,
            m,
        ).1 == RegisterOutcome::AlreadyRegistered,
{
    let r1 = reg_register_one(r, m).0;
    if reg_register_one(r, m).1 == RegisterOutcome::Created {
        if m.kind == MetricKind::Counter {
            lemma_fam_index_props(r1.counters, m.name);
            if fam_index(r1.counters, m.name) is None {
                assert(r1.counters.last().name == m.name);
            }
        } else {
            lemma_fam_index_props(r1.gauges, m.name);
            if fam_index(r1.gauges, m.name) is None {
                assert(r1.gauges.last().name == m.name);
            }
        }
    }
}

/// The sum of a list of values.
pub open spec fn sum_of(vals: Seq<int>) -> int
    decreases vals.len(),
{
    if vals.len() == 0 {
        0
    } else {
        vals[0] + sum_of(vals.drop_first())
    }
}

/// The batch that reports the values `vals` in order for one counter series.
pub open spec fn counter_batch(
    name: Seq<char>,
    help: Seq<char>,
    labels: Seq<(Seq<char>, Seq<char>)>,
    vals: Seq<int>,
) -> Seq<MeasurementModel> {
    vals.map_values(
        |v: int| MeasurementModel {
            name: name,
            kind: MetricKind::Counter,
            help: help,
            labels: labels,
            value: v,
        },
    )
}

/// The batch that reports the values `vals` in order for one gauge series.
pub open spec fn gauge_batch(
    name: Seq<char>,
    help: Seq<char>,
    labels: Seq<(Seq<char>, Seq<char>)>,
    vals: Seq<int>,
) -> Seq<MeasurementModel> {
    vals.map_values(
        |v: int| MeasurementModel {
            name: name,
            kind: MetricKind::Gauge,
            help: help,
            labels: labels,
            value: v,
        },
    )
}

proof fn lemma_fam_index_same_names(a: Seq<FamilyModel>, b: Seq<FamilyModel>, name: Seq<char>)
    requires
        a.len() == b.len(),
        forall|k: int| 0 <= k < a.len() ==> (#[trigger] a[k]).name == b[k].name,
    ensures
        fam_index(a, name) == fam_index(b, name),
    decreases a.len(),
{
    if a.len() > 0 {
        assert(forall|k: int|
            0 <= k < a.drop_first().len() ==> (#[trigger] a.drop_first()[k]).name
                == b.drop_first()[k].name);
        lemma_fam_index_same_names(a.drop_first(), b.drop_first(), name);
    }
}

/// Kind-preserving accumulation, counter side: applying the values
/// `v1, ..., vn` in sequence to one registered counter series adds their sum
/// to it, and every application succeeds, provided no partial sum leaves the
/// representable range.
pub proof fn lemma_counter_accumulation(
    r: RegistryModel,
    name: Seq<char>,
    help: Seq<char>,
    labels: Seq<(Seq<char>, Seq<char>)>,
    vals: Seq<int>,
    fi: int,
    si: int,
)
    requires
        fam_index(r.counters, name) == Some(fi),
        labels_match(r.counters[fi].label_names, labels),
        key_index(
            series_keys(r.counters[fi].series),
            series_key(r.counters[fi].label_names, labels),
        ) == Some(si),
        forall|k: int|
            0 <= k <= vals.len() ==> fits_i64(
                r.counters[fi].series[si].value + sum_of(#[trigger] vals.take(k)),
            ),
    ensures
        reg_apply(r, counter_batch(name, help, labels, vals)).0.counters[fi].series[si].value
            == r.counters[fi].series[si].value + sum_of(vals),
        reg_apply(r, counter_batch(name, help, labels, vals)).1.len() == vals.len(),
        forall|k: int|
            0 <= k < vals.len() ==> reg_apply(r, counter_batch(name, help, labels, vals)).1[k]
                == ApplyOutcome::Applied,
    decreases vals.len(),
{
    let ms = counter_batch(name, help, labels, vals);
    lemma_fam_index_props(r.counters, name);
    lemma_key_index_props(
        series_keys(r.counters[fi].series),
        series_key(r.counters[fi].label_names, labels),
    );
    if vals.len() == 0 {
        assert(vals.take(0) =~= vals);
    } else {
        let m0 = ms[0];
        assert(m0.value == vals[0]);
        let w = r.counters[fi].series[si].value;
        assert(vals.take(1).drop_first() =~= Seq::<int>::empty());
        assert(vals.take(1)[0] == vals[0]);
        assert(vals.take(1).len() == 1);
        assert(sum_of(Seq::<int>::empty()) == 0);
        assert(sum_of(vals.take(1)) == vals[0]);
        assert(fits_i64(w + vals[0]));
        let fam = r.counters[fi];
        let s2 = crate::registry::SeriesModel {
            label_values: fam.series[si].label_values,
            value: w + vals[0],
        };
        let fam2 = FamilyModel {
            name: fam.name,
            help: fam.help,
            label_names: fam.label_names,
            series: fam.series.update(si, s2),
        };
        let step = reg_apply_one(r, m0);
        assert(step.0.counters == r.counters.update(fi, fam2));
        assert(step.1 == ApplyOutcome::Applied);
        let r2 = step.0;
        // the family keeps its place, label names and series keys
        assert(forall|k: int|
            0 <= k < r2.counters.len() ==> (#[trigger] r2.counters[k]).name
                == r.counters[k].name);
        lemma_fam_index_same_names(r2.counters, r.counters, name);
        assert(r2.counters[fi] == fam2);
        assert(series_keys(fam2.series) =~= series_keys(fam.series));
        let rest = vals.drop_first();
        assert forall|k: int| 0 <= k <= rest.len() implies fits_i64(
            r2.counters[fi].series[si].value + sum_of(#[trigger] rest.take(k)),
        ) by {
            assert(vals.take(k + 1).drop_first() =~= rest.take(k));
            assert(vals.take(k + 1)[0] == vals[0]);
            assert(sum_of(vals.take(k + 1)) == vals[0] + sum_of(rest.take(k)));
            assert(fits_i64(w + sum_of(vals.take(k + 1))));
        }
        lemma_counter_accumulation(r2, name, help, labels, rest, fi, si);
        assert(ms.drop_first() =~= counter_batch(name, help, labels, rest));
        assert(reg_apply(r, ms).0 == reg_apply(r2, ms.drop_first()).0);
        assert(reg_apply(r, ms).1 =~= seq![step.1] + reg_apply(r2, ms.drop_first()).1);
        assert(reg_apply(r, ms).0.counters[fi].series[si].value == w + vals[0] + sum_of(rest));
    }
}

proof fn lemma_key_index_push(keys: Seq<Seq<Seq<char>>>, key: Seq<Seq<char>>)
    requires
        forall|j: int| 0 <= j < keys.len() ==> (#[trigger] keys[j]) != key,
    ensures
        key_index(keys.push(key), key) == Some(keys.len() as int),
    decreases keys.len(),
{
    if keys.len() == 0 {
        assert(keys.push(key)[0] == key);
    } else {
        assert(keys.push(key)[0] == keys[0]);
        assert(keys.push(key).drop_first() =~= keys.drop_first().push(key));
        assert(forall|j: int|
            0 <= j < keys.drop_first().len() ==> (#[trigger] keys.drop_first()[j]) != key);
        lemma_key_index_push(keys.drop_first(), key);
    }
}

/// Kind-preserving accumulation from a fresh series: where no series for the
/// label combination exists yet, applying the values `v1, ..., vn` creates
/// it and leaves exactly their sum in it, provided no partial sum leaves the
/// representable range.
pub proof fn lemma_counter_accumulation_fresh(
    r: RegistryModel,
    name: Seq<char>,
    help: Seq<char>,
    labels: Seq<(Seq<char>, Seq<char>)>,
    vals: Seq<int>,
    fi: int,
)
    requires
        vals.len() > 0,
        fam_index(r.counters, name) == Some(fi),
        labels_match(r.counters[fi].label_names, labels),
        key_index(
            series_keys(r.counters[fi].series),
            series_key(r.counters[fi].label_names, labels),
        ) is None,
        forall|k: int| 0 <= k <= vals.len() ==> fits_i64(sum_of(#[trigger] vals.take(k))),
    ensures
        reg_apply(r, counter_batch(name, help, labels, vals)).0.counters[fi].series[r.counters[fi].series.len() as int].value
            == sum_of(vals),
        reg_apply(r, counter_batch(name, help, labels, vals)).1.len() == vals.len(),
        forall|k: int|
            0 <= k < vals.len() ==> reg_apply(r, counter_batch(name, help, labels, vals)).1[k]
                == ApplyOutcome::Applied,
{
    let ms = counter_batch(name, help, labels, vals);
    lemma_fam_index_props(r.counters, name);
    lemma_key_index_props(
        series_keys(r.counters[fi].series),
        series_key(r.counters[fi].label_names, labels),
    );
    let m0 = ms[0];
    assert(m0.value == vals[0]);
    let fam = r.counters[fi];
    let key = series_key(fam.label_names, labels);
    let s0 = crate::registry::SeriesModel { label_values: key, value: vals[0] };
    let fam2 = FamilyModel {
        name: fam.name,
        help: fam.help,
        label_names: fam.label_names,
        series: fam.series.push(s0),
    };
    let step = reg_apply_one(r, m0);
    assert(step.0.counters == r.counters.update(fi, fam2));
    assert(step.1 == ApplyOutcome::Applied);
    let r2 = step.0;
    let si = fam.series.len() as int;
    assert(forall|k: int|
        0 <= k < r2.counters.len() ==> (#[trigger] r2.counters[k]).name == r.counters[k].name);
    lemma_fam_index_same_names(r2.counters, r.counters, name);
    assert(r2.counters[fi] == fam2);
    assert(series_keys(fam2.series) =~= series_keys(fam.series).push(key));
    lemma_key_index_push(series_keys(fam.series), key);
    assert(key_index(series_keys(fam2.series), key) == Some(si));
    let rest = vals.drop_first();
    assert(vals.take(1).drop_first() =~= Seq::<int>::empty());
    assert(vals.take(1)[0] == vals[0]);
    assert(vals.take(1).len() == 1);
    assert(sum_of(Seq::<int>::empty()) == 0);
    assert(sum_of(vals.take(1)) == vals[0]);
    assert forall|k: int| 0 <= k <= rest.len() implies fits_i64(
        r2.counters[fi].series[si].value + sum_of(#[trigger] rest.take(k)),
    ) by {
        assert(vals.take(k + 1).drop_first() =~= rest.take(k));
        assert(vals.take(k + 1)[0] == vals[0]);
        assert(sum_of(vals.take(k + 1)) == vals[0] + sum_of(rest.take(k)));
        assert(fits_i64(sum_of(vals.take(k + 1))));
    }
    lemma_counter_accumulation(r2, name, help, labels, rest, fi, si);
    assert(ms.drop_first() =~= counter_batch(name, help, labels, rest));
    assert(reg_apply(r, ms).0 == reg_apply(r2, ms.drop_first()).0);
    assert(reg_apply(r, ms).1 =~= seq![step.1] + reg_apply(r2, ms.drop_first()).1);
    assert(reg_apply(r, ms).0.counters[fi].series[si].value == vals[0] + sum_of(rest));
}

/// Kind-preserving accumulation, gauge side: applying the values
/// `v1, ..., vn` in sequence to one registered gauge series leaves exactly
/// the last value in it, whatever stood there before, and every application
/// succeeds.
pub proof fn lemma_gauge_last_wins(
    r: RegistryModel,
    name: Seq<char>,
    help: Seq<char>,
    labels: Seq<(Seq<char>, Seq<char>)>,
    vals: Seq<int>,
    fi: int,
    si: int,
)
    requires
        vals.len() > 0,
        fam_index(r.gauges, name) == Some(fi),
        labels_match(r.gauges[fi].label_names, labels),
        key_index(
            series_keys(r.gauges[fi].series),
            series_key(r.gauges[fi].label_names, labels),
        ) == Some(si),
    ensures
        reg_apply(r, gauge_batch(name, help, labels, vals)).0.gauges[fi].series[si].value
            == vals.last(),
        reg_apply(r, gauge_batch(name, help, labels, vals)).1.len() == vals.len(),
        forall|k: int|
            0 <= k < vals.len() ==> reg_apply(r, gauge_batch(name, help, labels, vals)).1[k]
                == ApplyOutcome::Applied,
    decreases vals.len(),
{
    let ms = gauge_batch(name, help, labels, vals);
    lemma_fam_index_props(r.gauges, name);
    lemma_key_index_props(
        series_keys(r.gauges[fi].series),
        series_key(r.gauges[fi].label_names, labels),
    );
    let m0 = ms[0];
    assert(m0.value == vals[0]);
    let fam = r.gauges[fi];
    let s2 = crate::registry::SeriesModel {
        label_values: fam.series[si].label_values,
        value: vals[0],
    };
    let fam2 = FamilyModel {
        name: fam.name,
        help: fam.help,
        label_names: fam.label_names,
        series: fam.series.update(si, s2),
    };
    let step = reg_apply_one(r, m0);
    assert(step.0.gauges == r.gauges.update(fi, fam2));
    assert(step.1 == ApplyOutcome::Applied);
    let r2 = step.0;
    if vals.len() == 1 {
        assert(ms.drop_first() =~= Seq::<MeasurementModel>::empty());
        assert(reg_apply(r2, ms.drop_first()).0 == r2);
        assert(reg_apply(r2, ms.drop_first()).1 =~= Seq::<ApplyOutcome>::empty());
        assert(reg_apply(r, ms).0 == r2);
        assert(reg_apply(r, ms).1 =~= seq![step.1]);
        assert(r2.gauges[fi].series[si].value == vals[0]);
    } else {
        assert(forall|k: int|
            0 <= k < r2.gauges.len() ==> (#[trigger] r2.gauges[k]).name == r.gauges[k].name);
        lemma_fam_index_same_names(r2.gauges, r.gauges, name);
        assert(r2.gauges[fi] == fam2);
        assert(series_keys(fam2.series) =~= series_keys(fam.series));
        let rest = vals.drop_first();
        lemma_gauge_last_wins(r2, name, help, labels, rest, fi, si);
        assert(ms.drop_first() =~= gauge_batch(name, help, labels, rest));
        assert(reg_apply(r, ms).0 == reg_apply(r2, ms.drop_first()).0);
        assert(reg_apply(r, ms).1 =~= seq![step.1] + reg_apply(r2, ms.drop_first()).1);
        assert(rest.last() == vals.last());
    }
}

/// Label isolation: applying a measurement never changes a series whose
/// label values differ from the measurement's, nor any series of another
/// family.
pub proof fn lemma_label_isolation(
    fams: Seq<FamilyModel>,
    m: MeasurementModel,
    f: int,
    s: int,
)
    requires
        0 <= f < fams.len(),
        0 <= s < fams[f].series.len(),
        fams[f].series[s].label_values != series_key(fams[f].label_names, m.labels)
            || fam_index(fams, m.name) != Some(f),
    ensures
        fams_apply_one(fams, m).0[f].series[s] == fams[f].series[s],
{
    lemma_fam_index_props(fams, m.name);
    match fam_index(fams, m.name) {
        None => {},
        Some(fi) => {
            let fam = fams[fi];
            if labels_match(fam.label_names, m.labels) {
                let key = series_key(fam.label_names, m.labels);
                lemma_key_index_props(series_keys(fam.series), key);
                match key_index(series_keys(fam.series), key) {
                    None => {},
                    Some(si) => {
                        if fi == f {
                            assert(series_keys(fam.series)[si] == fam.series[si].label_values);
                            assert(si != s);
                        }
                    },
                }
            }
        },
    }
}

/// Applying a measurement whose name is not registered changes nothing and
/// does not interrupt the batch: the remaining measurements are processed
/// exactly as they would be without it.
pub proof fn lemma_unknown_name_skipped(
    r: RegistryModel,
    m: MeasurementModel,
    rest: Seq<MeasurementModel>,
)
    requires
        m.kind == MetricKind::Counter ==> fam_index(r.counters, m.name) is None,
        m.kind == MetricKind::Gauge ==> fam_index(r.gauges, m.name) is None,
    ensures
        reg_apply_one(r, m) == (r, ApplyOutcome::NotRegistered),
        reg_apply(r, seq![m] + rest).0 == reg_apply(r, rest).0,
        reg_apply(r, seq![m] + rest).1 == seq![ApplyOutcome::NotRegistered] + reg_apply(
            r,
            rest,
        ).1,
{
    if m.kind == MetricKind::Counter {
        assert(reg_apply_one(r, m).0 =~~= r);
    } else {
        assert(reg_apply_one(r, m).0 =~~= r);
    }
    let ms = seq![m] + rest;
    assert(ms.len() > 0);
    assert(ms[0] == m);
    assert(ms.drop_first() =~= rest);
}

} // verus!
