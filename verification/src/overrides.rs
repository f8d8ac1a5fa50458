use vstd::prelude::*;

verus! {

use vstd::string::StrSliceExecFns;
use crate::args::Args;
use crate::config::Config;
use crate::config::ConfigView;
use crate::config::LogLevel;
use crate::config::clone_string_vec;
use crate::kvmap::KvMap;
use crate::kvmap::has_key;
use crate::kvmap::upsert_entries;
use crate::kvmap::upsert_pairs;
use crate::kvmap::value_of;
use crate::strutil::split_once_spec;
use crate::strutil::split_once_str;
use crate::strutil::split_spec;
use crate::strutil::split_str;
use crate::strutil::trim_spec;
use crate::strutil::trim_str;

/// The scalar overrides applied: a supplied value replaces the field, an
/// absent one leaves it alone.
pub open spec fn top_level_spec(
    c: ConfigView,
    hct: Option<u64>,
    ll: Option<LogLevel>,
    sp: Option<u16>,
) -> ConfigView {
    ConfigView {
        health_check_timeout: if hct is Some {
            hct
        } else {
            c.health_check_timeout
        },
        log_level: if ll is Some {
            ll
        } else {
            c.log_level
        },
        start_port: if sp is Some {
            sp
        } else {
            c.start_port
        },
        ..c
    }
}

/// Apply the scalar overrides from the run's directives.
pub fn apply_top_level_overrides(config: &mut Config, args: &Args)
    ensures
        final(config)@ == top_level_spec(
            old(config)@,
            args.health_check_timeout,
            args.log_level,
            args.start_port,
        ),
        final(config).wf() == old(config).wf(),
{
    if let Some(v) = args.health_check_timeout {
        config.health_check_timeout = Some(v);
    }
    if let Some(v) = args.log_level {
        config.log_level = Some(v);
    }
    if let Some(v) = args.start_port {
        config.start_port = Some(v);
    }
    proof {
        assert(config@ =~= top_level_spec(
            old(config)@,
            args.health_check_timeout,
            args.log_level,
            args.start_port,
        ));
    }
}

/// The key/value pairs the macro directives carry, in order; a directive
/// without `=` carries none.
pub open spec fn macro_pairs(ds: Seq<Seq<char>>) -> Seq<(Seq<char>, Seq<char>)>
    decreases ds.len(),
{
    if ds.len() == 0 {
        Seq::empty()
    } else {
        let rest = macro_pairs(ds.drop_last());
        match split_once_spec(ds.last(), '=') {
            None => rest,
            Some(p) => rest.push((trim_spec(p.0), trim_spec(p.1))),
        }
    }
}

/// The macro map after the directives: each parsed pair upserted in order.
pub open spec fn macros_after(
    m: Seq<(Seq<char>, Seq<char>)>,
    ds: Option<Seq<Seq<char>>>,
) -> Seq<(Seq<char>, Seq<char>)> {
    match ds {
        None => m,
        Some(d) => upsert_pairs(m, macro_pairs(d)),
    }
}

/// Add or overwrite macros from `KEY=VALUE` directives; a directive without
/// `=` is skipped.
pub fn apply_macro_overrides(config: &mut Config, args: &Args)
    requires
        old(config).wf(),
    ensures
        final(config)@ == (ConfigView {
            macros: macros_after(old(config)@.macros, args@.macro_override),
            ..old(config)@
        }),
        final(config).wf(),
{
    let ghost start = config@.macros;
    if let Some(ds) = &args.macro_override {
        let n = ds.len();
        let mut i: usize = 0;
        proof {
            assert(macro_pairs(ds.deep_view().take(0)) =~= Seq::<(Seq<char>, Seq<char>)>::empty());
        }
        while i < n
            invariant
                i <= n,
                n == ds@.len(),
                config.wf(),
                config@.macros == upsert_pairs(start, macro_pairs(ds.deep_view().take(i as int))),
                config@.health_check_timeout == old(config)@.health_check_timeout,
                config@.log_level == old(config)@.log_level,
                config@.start_port == old(config)@.start_port,
                config@.models == old(config)@.models,
                config@.groups == old(config)@.groups,
            decreases n - i,
        {
            let ghost pairs = macro_pairs(ds.deep_view().take(i as int));
            proof {
                assert(ds.deep_view().take(i + 1).drop_last() =~= ds.deep_view().take(i as int));
                assert(ds.deep_view().take(i + 1).last() == ds.deep_view()[i as int]);
            }
            let d = &ds[i];
            match split_once_str(d.as_str(), '=') {
                Some((key_part, value_part)) => {
                    let k = trim_str(key_part.as_str());
                    let v = trim_str(value_part.as_str());
                    proof {
                        assert(macro_pairs(ds.deep_view().take(i + 1)) == pairs.push((k@, v@)));
                        assert(pairs.push((k@, v@)).drop_last() =~= pairs);
                        assert(upsert_pairs(start, pairs.push((k@, v@))) == upsert_entries(
                            upsert_pairs(start, pairs),
                            k@,
                            v@,
                        ));
                    }
                    config.macros.upsert(k, v);
                },
                None => {
                    proof {
                        assert(macro_pairs(ds.deep_view().take(i + 1)) == pairs);
                    }
                },
            }
            i += 1;
        }
        proof {
            assert(ds.deep_view().take(n as int) =~= ds.deep_view());
            assert(config@ =~= (ConfigView {
                macros: macros_after(old(config)@.macros, args@.macro_override),
                ..old(config)@
            }));
        }
    } else {
        proof {
            assert(config@ =~= (ConfigView {
                macros: macros_after(old(config)@.macros, args@.macro_override),
                ..old(config)@
            }));
        }
    }
}

/// The trimmed, non-empty tokens of a segment list, in order.
pub open spec fn trimmed_nonempty(segs: Seq<Seq<char>>) -> Seq<Seq<char>>
    decreases segs.len(),
{
    if segs.len() == 0 {
        Seq::empty()
    } else {
        let rest = trimmed_nonempty(segs.drop_last());
        let t = trim_spec(segs.last());
        if t.len() == 0 {
            rest
        } else {
            rest.push(t)
        }
    }
}

/// The alias names one directive value carries: its `|`-separated tokens,
/// trimmed, with empty ones dropped.
pub open spec fn alias_values(rest: Seq<char>) -> Seq<Seq<char>> {
    trimmed_nonempty(split_spec(rest, '|'))
}

/// The alias map after the directives: later values for the same model are
/// appended after earlier ones.
pub open spec fn alias_map_after(
    m: Seq<(Seq<char>, Seq<Seq<char>>)>,
    ds: Seq<Seq<char>>,
) -> Seq<(Seq<char>, Seq<Seq<char>>)>
    decreases ds.len(),
{
    if ds.len() == 0 {
        m
    } else {
        let prev = alias_map_after(m, ds.drop_last());
        match split_once_spec(ds.last(), '=') {
            None => prev,
            Some(p) => {
                let vals = alias_values(p.1);
                if vals.len() == 0 {
                    prev
                } else {
                    let k = trim_spec(p.0);
                    let prior = if has_key(prev, k) {
                        value_of(prev, k)
                    } else {
                        Seq::empty()
                    };
                    upsert_entries(prev, k, prior + vals)
                }
            },
        }
    }
}

/// The alias map of a whole run; no directives give an empty map.
pub open spec fn alias_specs_map(ds: Option<Seq<Seq<char>>>) -> Seq<(Seq<char>, Seq<Seq<char>>)> {
    match ds {
        None => Seq::empty(),
        Some(d) => alias_map_after(Seq::empty(), d),
    }
}

/// The trimmed, non-empty tokens of one directive value.
fn parse_value_list(rest: &str) -> (r: Vec<String>)
    ensures
        r.deep_view() == alias_values(rest@),
{
    let segs = split_str(rest, '|');
    let n = segs.len();
    let mut out: Vec<String> = Vec::new();
    let mut i: usize = 0;
    proof {
        assert(trimmed_nonempty(segs.deep_view().take(0)) =~= Seq::<Seq<char>>::empty());
        assert(out.deep_view() =~= Seq::<Seq<char>>::empty());
    }
    while i < n
        invariant
            i <= n,
            n == segs@.len(),
            segs.deep_view() == split_spec(rest@, '|'),
            out.deep_view() == trimmed_nonempty(segs.deep_view().take(i as int)),
        decreases n - i,
    {
        proof {
            assert(segs.deep_view().take(i + 1).drop_last() =~= segs.deep_view().take(i as int));
            assert(segs.deep_view().take(i + 1).last() == segs.deep_view()[i as int]);
        }
        let t = trim_str(segs[i].as_str());
        if t.as_str().unicode_len() > 0 {
            let ghost pre = out.deep_view();
            out.push(t);
            proof {
                assert(out.deep_view() =~= pre.push(trim_spec(segs.deep_view()[i as int])));
            }
        }
        i += 1;
    }
    proof {
        assert(segs.deep_view().take(n as int) =~= segs.deep_view());
    }
    out
}

/// Parse `MODEL=ALIAS1|ALIAS2` directives into a model-to-aliases map.
/// Directives without `=` and values with no usable token are skipped.
pub fn parse_multi_map(directives: Option<&Vec<String>>) -> (r: KvMap<Vec<String>>)
    ensures
        r@ == alias_specs_map(directives.deep_view()),
        r.wf(),
{
    let mut out: KvMap<Vec<String>> = KvMap::new();
    if let Some(ds) = directives {
        let n = ds.len();
        let mut i: usize = 0;
        proof {
            assert(alias_map_after(Seq::empty(), ds.deep_view().take(0)) =~= out@);
        }
        while i < n
            invariant
                i <= n,
                n == ds@.len(),
                out.wf(),
                out@ == alias_map_after(Seq::empty(), ds.deep_view().take(i as int)),
            decreases n - i,
        {
            proof {
                assert(ds.deep_view().take(i + 1).drop_last() =~= ds.deep_view().take(i as int));
                assert(ds.deep_view().take(i + 1).last() == ds.deep_view()[i as int]);
            }
            let d = &ds[i];
            match split_once_str(d.as_str(), '=') {
                Some((model_part, value_part)) => {
                    let vals = parse_value_list(value_part.as_str());
                    if vals.len() > 0 {
                        let k = trim_str(model_part.as_str());
                        let mut merged: Vec<String> = match out.get(k.as_str()) {
                            Some(prior) => clone_string_vec(prior),
                            None => Vec::new(),
                        };
                        let ghost prior_dv = merged.deep_view();
                        let ghost vals_dv = vals.deep_view();
                        let mut vals = vals;
                        merged.append(&mut vals);
                        proof {
                            assert(merged.deep_view() =~= prior_dv + vals_dv);
                        }
                        out.upsert(k, merged);
                    }
                },
                None => {},
            }
            i += 1;
        }
        proof {
            assert(ds.deep_view().take(n as int) =~= ds.deep_view());
        }
    }
    out
}

/// The key/value pairs one directive value carries: each `|`-separated
/// segment split at its first `:` (or, failing that, `=`); segments with
/// neither separator are skipped.
pub open spec fn parsed_pairs(segs: Seq<Seq<char>>) -> Seq<(Seq<char>, Seq<char>)>
    decreases segs.len(),
{
    if segs.len() == 0 {
        Seq::empty()
    } else {
        let rest = parsed_pairs(segs.drop_last());
        let seg = segs.last();
        match split_once_spec(seg, ':') {
            Some(p) => rest.push((trim_spec(p.0), trim_spec(p.1))),
            None => match split_once_spec(seg, '=') {
                Some(q) => rest.push((trim_spec(q.0), trim_spec(q.1))),
                None => rest,
            },
        }
    }
}

/// The filter pairs one directive value carries.
pub open spec fn filter_values(rest: Seq<char>) -> Seq<(Seq<char>, Seq<char>)> {
    parsed_pairs(split_spec(rest, '|'))
}

/// The filter map after the directives: later pairs for the same model are
/// appended after earlier ones.
pub open spec fn filter_map_after(
    m: Seq<(Seq<char>, Seq<(Seq<char>, Seq<char>)>)>,
    ds: Seq<Seq<char>>,
) -> Seq<(Seq<char>, Seq<(Seq<char>, Seq<char>)>)>
    decreases ds.len(),
{
    if ds.len() == 0 {
        m
    } else {
        let prev = filter_map_after(m, ds.drop_last());
        match split_once_spec(ds.last(), '=') {
            None => prev,
            Some(p) => {
                let vals = filter_values(p.1);
                if vals.len() == 0 {
                    prev
                } else {
                    let k = trim_spec(p.0);
                    let prior = if has_key(prev, k) {
                        value_of(prev, k)
                    } else {
                        Seq::empty()
                    };
                    upsert_entries(prev, k, prior + vals)
                }
            },
        }
    }
}

/// The filter map of a whole run; no directives give an empty map.
pub open spec fn filter_specs_map(ds: Option<Seq<Seq<char>>>) -> Seq<
    (Seq<char>, Seq<(Seq<char>, Seq<char>)>),
> {
    match ds {
        None => Seq::empty(),
        Some(d) => filter_map_after(Seq::empty(), d),
    }
}

/// A pair vector copied element by element.
pub fn clone_pair_vec(v: &Vec<(String, String)>) -> (r: Vec<(String, String)>)
    ensures
        r.deep_view() == v.deep_view(),
{
    let n = v.len();
    let mut out: Vec<(String, String)> = Vec::new();
    let mut i: usize = 0;
    while i < n
        invariant
            i <= n,
            n == v@.len(),
            out@.len() == i,
            forall|j: int| 0 <= j < i ==> out.deep_view()[j] == v.deep_view()[j],
        decreases n - i,
    {
        let e = &v[i];
        out.push((e.0.clone(), e.1.clone()));
        i += 1;
    }
    proof {
        assert(out.deep_view() =~= v.deep_view());
    }
    out
}

/// The filter pairs of one directive value.
fn parse_pair_list(rest: &str) -> (r: Vec<(String, String)>)
    ensures
        r.deep_view() == filter_values(rest@),
{
    let segs = split_str(rest, '|');
    let n = segs.len();
    let mut out: Vec<(String, String)> = Vec::new();
    let mut i: usize = 0;
    proof {
        assert(parsed_pairs(segs.deep_view().take(0)) =~= Seq::<(Seq<char>, Seq<char>)>::empty());
        assert(out.deep_view() =~= Seq::<(Seq<char>, Seq<char>)>::empty());
    }
    while i < n
        invariant
            i <= n,
            n == segs@.len(),
            segs.deep_view() == split_spec(rest@, '|'),
            out.deep_view() == parsed_pairs(segs.deep_view().take(i as int)),
        decreases n - i,
    {
        proof {
            assert(segs.deep_view().take(i + 1).drop_last() =~= segs.deep_view().take(i as int));
            assert(segs.deep_view().take(i + 1).last() == segs.deep_view()[i as int]);
        }
        let seg = &segs[i];
        let split = match split_once_str(seg.as_str(), ':') {
            Some(p) => Some(p),
            None => split_once_str(seg.as_str(), '='),
        };
        match split {
            Some((key_part, value_part)) => {
                let k = trim_str(key_part.as_str());
                let v = trim_str(value_part.as_str());
                let ghost pre = out.deep_view();
                out.push((k, v));
                proof {
                    assert(out.deep_view() =~= pre.push(
                        parsed_pairs(segs.deep_view().take(i + 1)).last(),
                    ));
                }
            },
            None => {},
        }
        i += 1;
    }
    proof {
        assert(segs.deep_view().take(n as int) =~= segs.deep_view());
    }
    out
}

/// Parse `MODEL=KEY:VALUE|KEY:VALUE` directives into a model-to-filter-pairs
/// map; `=` is accepted in place of the inner `:`.
pub fn parse_multi_kv_map(directives: Option<&Vec<String>>) -> (r: KvMap<Vec<(String, String)>>)
    ensures
        r@ == filter_specs_map(directives.deep_view()),
        r.wf(),
{
    let mut out: KvMap<Vec<(String, String)>> = KvMap::new();
    if let Some(ds) = directives {
        let n = ds.len();
        let mut i: usize = 0;
        proof {
            assert(filter_map_after(Seq::empty(), ds.deep_view().take(0)) =~= out@);
        }
        while i < n
            invariant
                i <= n,
                n == ds@.len(),
                out.wf(),
                out@ == filter_map_after(Seq::empty(), ds.deep_view().take(i as int)),
            decreases n - i,
        {
            proof {
                assert(ds.deep_view().take(i + 1).drop_last() =~= ds.deep_view().take(i as int));
                assert(ds.deep_view().take(i + 1).last() == ds.deep_view()[i as int]);
            }
            let d = &ds[i];
            match split_once_str(d.as_str(), '=') {
                Some((model_part, value_part)) => {
                    let vals = parse_pair_list(value_part.as_str());
                    if vals.len() > 0 {
                        let k = trim_str(model_part.as_str());
                        let mut merged: Vec<(String, String)> = match out.get(k.as_str()) {
                            Some(prior) => clone_pair_vec(prior),
                            None => Vec::new(),
                        };
                        let ghost prior_dv = merged.deep_view();
                        let ghost vals_dv = vals.deep_view();
                        let mut vals = vals;
                        merged.append(&mut vals);
                        proof {
                            assert(merged.deep_view() =~= prior_dv + vals_dv);
                        }
                        out.upsert(k, merged);
                    }
                },
                None => {},
            }
            i += 1;
        }
        proof {
            assert(ds.deep_view().take(n as int) =~= ds.deep_view());
        }
    }
    out
}

} // verus!
