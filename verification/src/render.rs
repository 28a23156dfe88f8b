//! Serialization of the registry into the metrics backend's text exposition
//! format: per family a `# HELP` line, a `# TYPE` line, and one line per
//! series with its label values and current value.

use vstd::prelude::*;

use crate::measurement::MetricKind;
use crate::registry::Family;
use crate::registry::FamilyModel;
use crate::registry::Registry;
use crate::registry::RegistryModel;
use crate::registry::Series;
use crate::registry::SeriesModel;
use crate::registry::fam_wf;
use crate::registry::fams_model;
use crate::registry::reg_wf;
use crate::registry::strings_model;
use crate::text::esc_help;
use crate::text::esc_label;
use crate::text::int_chars;
use crate::text::push_escaped_help;
use crate::text::push_escaped_label;
use crate::text::push_int_chars;
use crate::text::push_str_chars;

verus! {

/// The label pairs of one series, from position `k` on, comma separated.
pub open spec fn render_pairs(
    names: Seq<Seq<char>>,
    values: Seq<Seq<char>>,
    k: int,
) -> Seq<char>
    decreases names.len() - k,
{
    if k < 0 || k >= names.len() {
        Seq::empty()
    } else {
        (if k > 0 {
            seq![',']
        } else {
            Seq::<char>::empty()
        }) + names[k] + seq!['=', '"'] + esc_label(values[k]) + seq!['"'] + render_pairs(
            names,
            values,
            k + 1,
        )
    }
}

/// One series line: the family name, the label pairs if any, and the value.
pub open spec fn render_series_line(
    fname: Seq<char>,
    names: Seq<Seq<char>>,
    s: SeriesModel,
) -> Seq<char> {
    if names.len() == 0 {
        fname + seq![' '] + int_chars(s.value) + seq!['\n']
    } else {
        fname + seq!['{'] + render_pairs(names, s.label_values, 0) + seq!['}', ' ']
            + int_chars(s.value) + seq!['\n']
    }
}

/// The series lines of one family, from position `k` on.
pub open spec fn render_series_list(
    fname: Seq<char>,
    names: Seq<Seq<char>>,
    series: Seq<SeriesModel>,
    k: int,
) -> Seq<char>
    decreases series.len() - k,
{
    if k < 0 || k >= series.len() {
        Seq::empty()
    } else {
        render_series_line(fname, names, series[k]) + render_series_list(
            fname,
            names,
            series,
            k + 1,
        )
    }
}

/// The exposition word for a kind.
pub open spec fn kind_word(kind: MetricKind) -> Seq<char> {
    if kind == MetricKind::Counter {
        "counter"@
    } else {
        "gauge"@
    }
}

/// One family's text: its help line, its type line, and its series lines.
pub open spec fn render_family(f: FamilyModel, kind: MetricKind) -> Seq<char> {
    "# HELP "@ + f.name + seq![' '] + esc_help(f.help) + seq!['\n'] + "# TYPE "@ + f.name
        + seq![' '] + kind_word(kind) + seq!['\n'] + render_series_list(
        f.name,
        f.label_names,
        f.series,
        0,
    )
}

/// The text of a list of families, from position `k` on.
pub open spec fn render_fams(fams: Seq<FamilyModel>, kind: MetricKind, k: int) -> Seq<char>
    decreases fams.len() - k,
{
    if k < 0 || k >= fams.len() {
        Seq::empty()
    } else {
        render_family(fams[k], kind) + render_fams(fams, kind, k + 1)
    }
}

/// The whole exposition body: all counter families, then all gauge families,
/// in registration order.
pub open spec fn render_model(r: RegistryModel) -> Seq<char> {
    render_fams(r.counters, MetricKind::Counter, 0) + render_fams(
        r.gauges,
        MetricKind::Gauge,
        0,
    )
}

fn push_pairs_from(
    out: &mut Vec<char>,
    label_names: &Vec<String>,
    label_values: &Vec<String>,
    k: usize,
)
    requires
        label_names@.len() == label_values@.len(),
        k <= label_names@.len(),
    ensures
        final(out)@ == old(out)@ + render_pairs(
            strings_model(label_names@),
            strings_model(label_values@),
            k as int,
        ),
    decreases label_names@.len() - k,
{
    let ghost nm = strings_model(label_names@);
    let ghost vm = strings_model(label_values@);
    if k >= label_names.len() {
        proof {
            assert(out@ =~= old(out)@ + render_pairs(nm, vm, k as int));
        }
    } else {
        if k > 0 {
            out.push(',');
        }
        push_str_chars(out, label_names[k].as_str());
        out.push('=');
        out.push('"');
        push_escaped_label(out, label_values[k].as_str());
        out.push('"');
        push_pairs_from(out, label_names, label_values, k + 1);
        proof {
            assert(nm[k as int] == label_names@[k as int]@);
            assert(vm[k as int] == label_values@[k as int]@);
            assert(out@ =~= old(out)@ + render_pairs(nm, vm, k as int));
        }
    }
}

fn push_series_line(out: &mut Vec<char>, fname: &String, label_names: &Vec<String>, s: &Series)
    requires
        s.label_values@.len() == label_names@.len(),
    ensures
        final(out)@ == old(out)@ + render_series_line(
            fname@,
            strings_model(label_names@),
            s@,
        ),
{
    push_str_chars(out, fname.as_str());
    if label_names.len() == 0 {
        out.push(' ');
        push_int_chars(out, s.value);
        out.push('\n');
        proof {
            assert(out@ =~= old(out)@ + render_series_line(
                fname@,
                strings_model(label_names@),
                s@,
            ));
        }
    } else {
        out.push('{');
        push_pairs_from(out, label_names, &s.label_values, 0);
        out.push('}');
        out.push(' ');
        push_int_chars(out, s.value);
        out.push('\n');
        proof {
            assert(out@ =~= old(out)@ + render_series_line(
                fname@,
                strings_model(label_names@),
                s@,
            ));
        }
    }
}

fn push_series_from(
    out: &mut Vec<char>,
    fname: &String,
    label_names: &Vec<String>,
    series: &Vec<Series>,
    k: usize,
)
    requires
        k <= series@.len(),
        forall|j: int|
            0 <= j < series@.len() ==> (#[trigger] series@[j]).label_values@.len()
                == label_names@.len(),
    ensures
        final(out)@ == old(out)@ + render_series_list(
            fname@,
            strings_model(label_names@),
            series@.map_values(|s: Series| s@),
            k as int,
        ),
    decreases series@.len() - k,
{
    let ghost sm = series@.map_values(|s: Series| s@);
    if k >= series.len() {
        proof {
            assert(out@ =~= old(out)@ + render_series_list(
                fname@,
                strings_model(label_names@),
                sm,
                k as int,
            ));
        }
    } else {
        push_series_line(out, fname, label_names, &series[k]);
        push_series_from(out, fname, label_names, series, k + 1);
        proof {
            assert(sm[k as int] == series@[k as int]@);
            assert(out@ =~= old(out)@ + render_series_list(
                fname@,
                strings_model(label_names@),
                sm,
                k as int,
            ));
        }
    }
}

fn push_family(out: &mut Vec<char>, fam: &Family, kind: MetricKind)
    requires
        fam_wf(fam@),
    ensures
        final(out)@ == old(out)@ + render_family(fam@, kind),
{
    push_str_chars(out, "# HELP ");
    push_str_chars(out, fam.name.as_str());
    out.push(' ');
    push_escaped_help(out, fam.help.as_str());
    out.push('\n');
    push_str_chars(out, "# TYPE ");
    push_str_chars(out, fam.name.as_str());
    out.push(' ');
    match kind {
        MetricKind::Counter => push_str_chars(out, "counter"),
        MetricKind::Gauge => push_str_chars(out, "gauge"),
    }
    out.push('\n');
    proof {
        assert forall|j: int| 0 <= j < fam.series@.len() implies (
        #[trigger] fam.series@[j]).label_values@.len() == fam.label_names@.len() by {
            assert(fam@.series[j] == fam.series@[j]@);
            assert(fam@.series[j].label_values.len() == fam@.label_names.len());
        }
    }
    push_series_from(out, &fam.name, &fam.label_names, &fam.series, 0);
    proof {
        assert(out@ =~= old(out)@ + render_family(fam@, kind));
    }
}

fn push_fams_from(out: &mut Vec<char>, fams: &Vec<Family>, kind: MetricKind, k: usize)
    requires
        k <= fams@.len(),
        forall|j: int| 0 <= j < fams@.len() ==> fam_wf(#[trigger] fams_model(fams@)[j]),
    ensures
        final(out)@ == old(out)@ + render_fams(fams_model(fams@), kind, k as int),
    decreases fams@.len() - k,
{
    if k >= fams.len() {
        proof {
            assert(out@ =~= old(out)@ + render_fams(fams_model(fams@), kind, k as int));
        }
    } else {
        proof {
            assert(fams_model(fams@)[k as int] == fams@[k as int]@);
        }
        push_family(out, &fams[k], kind);
        push_fams_from(out, fams, kind, k + 1);
        proof {
            assert(out@ =~= old(out)@ + render_fams(fams_model(fams@), kind, k as int));
        }
    }
}

/// The exposition body of the registry's current state, as characters.
pub fn render_chars(reg: &Registry) -> (out: Vec<char>)
    requires
        reg_wf(reg@),
    ensures
        out@ == render_model(reg@),
{
    let mut out: Vec<char> = Vec::new();
    push_fams_from(&mut out, &reg.counters, MetricKind::Counter, 0);
    push_fams_from(&mut out, &reg.gauges, MetricKind::Gauge, 0);
    proof {
        assert(out@ =~= render_model(reg@));
    }
    out
}

/// Relies on `String`'s `FromIterator` impl: collecting characters builds
/// the string holding exactly those characters in order.
#[verifier::external_body]
fn chars_to_string(v: &Vec<char>) -> (r: String)
    ensures
        r@ == v@,
{
    v.iter().collect()
}

/// The exposition body of the registry's current state.
pub fn render_text(reg: &Registry) -> (r: String)
    requires
        reg_wf(reg@),
    ensures
        r@ == render_model(reg@),
{
    let out = render_chars(reg);
    chars_to_string(&out)
}

} // verus!
