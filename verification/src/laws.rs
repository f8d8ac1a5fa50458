use vstd::prelude::*;

verus! {

use crate::args::ArgsView;
use crate::config::ConfigView;
use crate::config::GroupView;
use crate::config::ModelView;
use crate::config::fresh_model;
use crate::config::models_wf;
use crate::kvmap::has_key;
use crate::kvmap::key_index;
use crate::kvmap::lemma_key_index;
use crate::kvmap::lemma_key_index_same_keys;
use crate::kvmap::lemma_upsert;
use crate::kvmap::lemma_upsert_pairs_idempotent;
use crate::kvmap::lemma_upsert_pairs_value;
use crate::kvmap::unique_keys;
use crate::kvmap::upsert_entries;
use crate::kvmap::upsert_pairs;
use crate::kvmap::value_of;
use crate::merge::add_aliases;
use crate::merge::group_after;
use crate::merge::import_all;
use crate::merge::import_one;
use crate::merge::member_names;
use crate::merge::merged_entry;
use crate::merge::stop_for;
use crate::pipeline::synth_spec;
use crate::selection::DiscoveredView;
use crate::selection::SelectedView;
use crate::selection::selected_spec;
use crate::template::TemplatesView;
use crate::template::resolved_cmd;
use crate::template::templates_of;

/// Alias merge membership: the merged list holds exactly the names that the
/// existing list or the additions hold.
pub proof fn lemma_alias_merge_membership(
    existing: Seq<Seq<char>>,
    additions: Seq<Seq<char>>,
    y: Seq<char>,
)
    ensures
        add_aliases(existing, additions).contains(y) == (existing.contains(y)
            || additions.contains(y)),
    decreases additions.len(),
{
    if additions.len() == 0 {
        assert(!additions.contains(y));
    } else {
        lemma_alias_merge_membership(existing, additions.drop_last(), y);
        let prev = add_aliases(existing, additions.drop_last());
        let lastv = additions.last();
        assert(additions[additions.len() - 1] == lastv);
        assert(additions.contains(lastv));
        if additions.contains(y) && y != lastv {
            let j = choose|j: int| 0 <= j < additions.len() && additions[j] == y;
            assert(additions.drop_last()[j] == y);
            assert(additions.drop_last().contains(y));
        }
        if additions.drop_last().contains(y) {
            let j = choose|j: int|
                0 <= j < additions.drop_last().len() && additions.drop_last()[j] == y;
            assert(additions[j] == y);
            assert(additions.contains(y));
        }
        if prev.contains(lastv) {
            if y == lastv {
                assert(prev.contains(y));
            }
        } else {
            let r = prev.push(lastv);
            assert(r[r.len() - 1] == lastv);
            if y == lastv {
                assert(r.contains(y));
            }
            if prev.contains(y) {
                let j = choose|j: int| 0 <= j < prev.len() && prev[j] == y;
                assert(r[j] == y);
                assert(r.contains(y));
            }
            if r.contains(y) && y != lastv {
                let j = choose|j: int| 0 <= j < r.len() && r[j] == y;
                assert(j < prev.len());
                assert(prev[j] == y);
                assert(prev.contains(y));
            }
        }
    }
}

/// Alias merge keeps the existing list as a prefix, adds nothing twice, and
/// only ever appends.
pub proof fn lemma_alias_merge_prefix(existing: Seq<Seq<char>>, additions: Seq<Seq<char>>)
    ensures
        add_aliases(existing, additions).len() >= existing.len(),
        forall|j: int|
            0 <= j < existing.len() ==> add_aliases(existing, additions)[j] == existing[j],
        (forall|i: int, j: int|
            0 <= i < j < existing.len() ==> existing[i] != existing[j]) ==> (forall|
            i: int,
            j: int,
        |
            0 <= i < j < add_aliases(existing, additions).len() ==> add_aliases(
                existing,
                additions,
            )[i] != add_aliases(existing, additions)[j]),
    decreases additions.len(),
{
    if additions.len() > 0 {
        lemma_alias_merge_prefix(existing, additions.drop_last());
        let prev = add_aliases(existing, additions.drop_last());
        let r = add_aliases(existing, additions);
        if !prev.contains(additions.last()) {
            if (forall|i: int, j: int|
                0 <= i < j < existing.len() ==> existing[i] != existing[j]) {
                assert forall|i: int, j: int| 0 <= i < j < r.len() implies r[i] != r[j] by {
                    if j == r.len() - 1 {
                        assert(r[j] == additions.last());
                        assert(r[i] == prev[i]);
                        if prev[i] == additions.last() {
                            assert(prev.contains(additions.last()));
                        }
                    } else {
                        assert(r[i] == prev[i] && r[j] == prev[j]);
                    }
                }
            }
        }
    }
}

/// Merging the same additions a second time changes nothing.
pub proof fn lemma_add_aliases_absorb(existing: Seq<Seq<char>>, additions: Seq<Seq<char>>)
    ensures
        add_aliases(add_aliases(existing, additions), additions) == add_aliases(
            existing,
            additions,
        ),
{
    lemma_add_aliases_replay(existing, additions, additions.len() as int);
    assert(additions.take(additions.len() as int) =~= additions);
}

proof fn lemma_add_aliases_replay(existing: Seq<Seq<char>>, additions: Seq<Seq<char>>, i: int)
    requires
        0 <= i <= additions.len(),
    ensures
        add_aliases(add_aliases(existing, additions), additions.take(i)) == add_aliases(
            existing,
            additions,
        ),
    decreases i,
{
    let r = add_aliases(existing, additions);
    if i > 0 {
        lemma_add_aliases_replay(existing, additions, i - 1);
        assert(additions.take(i).drop_last() =~= additions.take(i - 1));
        assert(additions.take(i).last() == additions[i - 1]);
        lemma_alias_merge_membership(existing, additions, additions[i - 1]);
        assert(additions.contains(additions[i - 1]));
        assert(r.contains(additions[i - 1]));
    } else {
        assert(additions.take(0) =~= Seq::<Seq<char>>::empty());
    }
}

/// The import keeps the model map's keys unique and every entry's filter map
/// well formed.
pub proof fn lemma_import_all_wf(
    models: Seq<(Seq<char>, ModelView)>,
    sel: Seq<SelectedView>,
    t: TemplatesView,
    unlisted: bool,
    aliases: Seq<(Seq<char>, Seq<Seq<char>>)>,
    filters: Seq<(Seq<char>, Seq<(Seq<char>, Seq<char>)>)>,
)
    requires
        unique_keys(models),
        models_wf(models),
    ensures
        unique_keys(import_all(models, sel, t, unlisted, aliases, filters)),
        models_wf(import_all(models, sel, t, unlisted, aliases, filters)),
    decreases sel.len(),
{
    if sel.len() > 0 {
        lemma_import_all_wf(models, sel.drop_last(), t, unlisted, aliases, filters);
        let mid = import_all(models, sel.drop_last(), t, unlisted, aliases, filters);
        let sm = sel.last();
        let merged = merged_entry(mid, sm, t, unlisted, aliases, filters);
        let base = if has_key(mid, sm.name) {
            value_of(mid, sm.name)
        } else {
            fresh_model(resolved_cmd(t.default_cmd_tpl, sm.model_path, sm.name), unlisted)
        };
        if has_key(mid, sm.name) {
            lemma_key_index(mid, sm.name);
        }
        assert(unique_keys(base.filters));
        if has_key(filters, sm.name) {
            lemma_upsert_pairs_value(base.filters, value_of(filters, sm.name), sm.name);
        }
        assert(unique_keys(merged.filters));
        lemma_upsert(mid, sm.name, merged);
        let r = import_all(models, sel, t, unlisted, aliases, filters);
        assert(r == upsert_entries(mid, sm.name, merged));
        assert forall|i: int| 0 <= i < r.len() implies unique_keys(#[trigger] r[i].1.filters) by {
            if i < mid.len() && mid[i].0 != sm.name {
                assert(r[i] == mid[i]);
            } else if i < mid.len() {
                lemma_key_index(mid, sm.name);
                assert(i == key_index(mid, sm.name));
                assert(r[i] == (sm.name, merged));
            } else {
                assert(r[i] == (sm.name, merged));
            }
        }
    }
}

/// A model the run's selection does not name keeps its entry, byte for byte.
pub proof fn lemma_import_untouched(
    models: Seq<(Seq<char>, ModelView)>,
    sel: Seq<SelectedView>,
    t: TemplatesView,
    unlisted: bool,
    aliases: Seq<(Seq<char>, Seq<Seq<char>>)>,
    filters: Seq<(Seq<char>, Seq<(Seq<char>, Seq<char>)>)>,
    k: Seq<char>,
)
    requires
        unique_keys(models),
        models_wf(models),
        !member_names(sel).contains(k),
    ensures
        has_key(import_all(models, sel, t, unlisted, aliases, filters), k) == has_key(models, k),
        has_key(models, k) ==> value_of(import_all(models, sel, t, unlisted, aliases, filters), k)
            == value_of(models, k),
    decreases sel.len(),
{
    if sel.len() > 0 {
        assert(member_names(sel)[sel.len() - 1] == sel.last().name);
        assert(sel.last().name != k);
        assert forall|j: int|
            0 <= j < sel.drop_last().len() implies member_names(sel.drop_last())[j] != k by {
            assert(member_names(sel)[j] == sel[j].name);
        }
        assert(!member_names(sel.drop_last()).contains(k));
        lemma_import_untouched(models, sel.drop_last(), t, unlisted, aliases, filters, k);
        lemma_import_all_wf(models, sel.drop_last(), t, unlisted, aliases, filters);
        let mid = import_all(models, sel.drop_last(), t, unlisted, aliases, filters);
        lemma_upsert(mid, sel.last().name, merged_entry(mid, sel.last(), t, unlisted, aliases, filters));
    }
}

/// Merge non-destructiveness: a pre-existing model entry that the run's
/// selection does not name is exactly the same in the run's output.
pub proof fn lemma_merge_nondestructive(
    c: ConfigView,
    a: ArgsView,
    discovered: Seq<DiscoveredView>,
    k: Seq<char>,
)
    requires
        unique_keys(c.models),
        models_wf(c.models),
        has_key(c.models, k),
        !member_names(selected_spec(discovered, a.specify_models, a.all_models)).contains(k),
    ensures
        has_key(synth_spec(c, a, discovered).models, k),
        value_of(synth_spec(c, a, discovered).models, k) == value_of(c.models, k),
{
    let sel = selected_spec(discovered, a.specify_models, a.all_models);
    lemma_import_untouched(
        c.models,
        sel,
        templates_of(a.cmd_template, a.stop_cmd_template),
        a.unlisted,
        crate::overrides::alias_specs_map(a.alias),
        crate::overrides::filter_specs_map(a.filter),
        k,
    );
}

/// Idempotence: with the same directives and the same discovered models, a
/// second run over the first run's result reproduces it exactly.
pub proof fn lemma_synth_idempotent(c: ConfigView, a: ArgsView, discovered: Seq<DiscoveredView>)
    requires
        unique_keys(c.macros),
        unique_keys(c.models),
        unique_keys(c.groups),
        models_wf(c.models),
    ensures
        synth_spec(synth_spec(c, a, discovered), a, discovered) == synth_spec(c, a, discovered),
{
    let sel = selected_spec(discovered, a.specify_models, a.all_models);
    let t = templates_of(a.cmd_template, a.stop_cmd_template);
    let am = crate::overrides::alias_specs_map(a.alias);
    let fm = crate::overrides::filter_specs_map(a.filter);
    let once = synth_spec(c, a, discovered);
    match a.macro_override {
        Some(ds) => {
            lemma_upsert_pairs_idempotent(c.macros, crate::overrides::macro_pairs(ds));
        },
        None => {},
    }
    lemma_import_idempotent(c.models, sel, t, a.unlisted, am, fm);
    if a.single_group {
        let name = match a.single_group_name {
            Some(n) => n,
            None => "imported"@,
        };
        if !has_key(c.groups, name) {
            assert(once.groups[once.groups.len() - 1].0 == name);
            assert(has_key(once.groups, name));
        }
    }
    assert(synth_spec(once, a, discovered) =~= once);
}

/// The artifact path of the last selected model carrying `n`, if any does.
pub open spec fn last_path(sel: Seq<SelectedView>, n: Seq<char>) -> Option<Seq<char>>
    decreases sel.len(),
{
    if sel.len() == 0 {
        None
    } else if sel.last().name == n {
        Some(sel.last().model_path)
    } else {
        last_path(sel.drop_last(), n)
    }
}

proof fn lemma_last_path_at(sel: Seq<SelectedView>, n: Seq<char>, i: int)
    requires
        0 <= i < sel.len(),
        sel[i].name == n,
        forall|k: int| i < k < sel.len() ==> sel[k].name != n,
    ensures
        last_path(sel, n) == Some(sel[i].model_path),
    decreases sel.len(),
{
    if i < sel.len() - 1 {
        assert(sel.last().name != n);
        assert(sel.drop_last()[i] == sel[i]);
        assert(forall|k: int| i < k < sel.drop_last().len() ==> sel.drop_last()[k] == sel[k]);
        lemma_last_path_at(sel.drop_last(), n, i);
    }
}

proof fn lemma_last_path_some(sel: Seq<SelectedView>, n: Seq<char>, i: int)
    requires
        0 <= i < sel.len(),
        sel[i].name == n,
    ensures
        last_path(sel, n) is Some,
    decreases sel.len(),
{
    if i < sel.len() - 1 && sel.last().name != n {
        assert(sel.drop_last()[i] == sel[i]);
        lemma_last_path_some(sel.drop_last(), n, i);
    }
}

/// What the import leaves under a name some selected model carries: the
/// commands of the last such model where their templates were requested, and
/// alias and filter merges that a replay can no longer change.
proof fn lemma_import_final_entry(
    models: Seq<(Seq<char>, ModelView)>,
    sel: Seq<SelectedView>,
    t: TemplatesView,
    unlisted: bool,
    aliases: Seq<(Seq<char>, Seq<Seq<char>>)>,
    filters: Seq<(Seq<char>, Seq<(Seq<char>, Seq<char>)>)>,
    n: Seq<char>,
)
    requires
        unique_keys(models),
        models_wf(models),
        last_path(sel, n) is Some,
    ensures
        has_key(import_all(models, sel, t, unlisted, aliases, filters), n),
        t.override_cmd ==> value_of(import_all(models, sel, t, unlisted, aliases, filters), n).cmd
            == resolved_cmd(t.default_cmd_tpl, last_path(sel, n)->Some_0, n),
        t.override_stop ==> value_of(
            import_all(models, sel, t, unlisted, aliases, filters),
            n,
        ).cmd_stop == stop_for(t.default_stop_tpl, n),
        has_key(aliases, n) ==> add_aliases(
            value_of(import_all(models, sel, t, unlisted, aliases, filters), n).aliases,
            value_of(aliases, n),
        ) == value_of(import_all(models, sel, t, unlisted, aliases, filters), n).aliases,
        has_key(filters, n) ==> upsert_pairs(
            value_of(import_all(models, sel, t, unlisted, aliases, filters), n).filters,
            value_of(filters, n),
        ) == value_of(import_all(models, sel, t, unlisted, aliases, filters), n).filters,
    decreases sel.len(),
{
    let sm = sel.last();
    let mid = import_all(models, sel.drop_last(), t, unlisted, aliases, filters);
    lemma_import_all_wf(models, sel.drop_last(), t, unlisted, aliases, filters);
    let merged = merged_entry(mid, sm, t, unlisted, aliases, filters);
    lemma_upsert(mid, sm.name, merged);
    if sm.name == n {
        let cmd = resolved_cmd(t.default_cmd_tpl, sm.model_path, sm.name);
        let base = if has_key(mid, sm.name) {
            value_of(mid, sm.name)
        } else {
            fresh_model(cmd, unlisted)
        };
        if has_key(mid, sm.name) {
            lemma_key_index(mid, sm.name);
        }
        assert(unique_keys(base.filters));
        let e1 = ModelView {
            cmd: if t.override_cmd {
                cmd
            } else {
                base.cmd
            },
            cmd_stop: if t.override_stop {
                stop_for(t.default_stop_tpl, sm.name)
            } else {
                base.cmd_stop
            },
            ..base
        };
        let e2 = ModelView {
            aliases: if has_key(aliases, sm.name) {
                add_aliases(e1.aliases, value_of(aliases, sm.name))
            } else {
                e1.aliases
            },
            ..e1
        };
        if has_key(aliases, n) {
            lemma_add_aliases_absorb(e1.aliases, value_of(aliases, n));
        }
        if has_key(filters, n) {
            lemma_upsert_pairs_idempotent(e2.filters, value_of(filters, n));
        }
    } else {
        lemma_import_final_entry(models, sel.drop_last(), t, unlisted, aliases, filters, n);
    }
}

/// Peeling the first selected model off the import.
proof fn lemma_import_all_cons(
    models: Seq<(Seq<char>, ModelView)>,
    sel: Seq<SelectedView>,
    t: TemplatesView,
    unlisted: bool,
    aliases: Seq<(Seq<char>, Seq<Seq<char>>)>,
    filters: Seq<(Seq<char>, Seq<(Seq<char>, Seq<char>)>)>,
)
    requires
        sel.len() > 0,
    ensures
        import_all(models, sel, t, unlisted, aliases, filters) == import_all(
            import_one(models, sel[0], t, unlisted, aliases, filters),
            sel.skip(1),
            t,
            unlisted,
            aliases,
            filters,
        ),
    decreases sel.len(),
{
    let m2 = import_one(models, sel[0], t, unlisted, aliases, filters);
    let sel1 = sel.skip(1);
    if sel.len() == 1 {
        assert(sel.last() == sel[0]);
        assert(sel.drop_last().len() == 0);
        assert(import_all(models, sel.drop_last(), t, unlisted, aliases, filters) == models);
        assert(sel1.len() == 0);
        assert(import_all(m2, sel1, t, unlisted, aliases, filters) == m2);
    } else {
        lemma_import_all_cons(models, sel.drop_last(), t, unlisted, aliases, filters);
        assert(sel.drop_last()[0] == sel[0]);
        assert(sel1.drop_last() =~= sel.drop_last().skip(1));
        assert(sel1.last() == sel.last());
        assert(import_all(models, sel.drop_last(), t, unlisted, aliases, filters) == import_all(
            m2,
            sel1.drop_last(),
            t,
            unlisted,
            aliases,
            filters,
        ));
        assert(import_all(models, sel, t, unlisted, aliases, filters) == import_one(
            import_all(models, sel.drop_last(), t, unlisted, aliases, filters),
            sel.last(),
            t,
            unlisted,
            aliases,
            filters,
        ));
        assert(import_all(m2, sel1, t, unlisted, aliases, filters) == import_one(
            import_all(m2, sel1.drop_last(), t, unlisted, aliases, filters),
            sel1.last(),
            t,
            unlisted,
            aliases,
            filters,
        ));
    }
}

/// How a replay's intermediate state may differ from the final map: the same
/// keys in the same order, every field equal except that an entry's command
/// may lag as long as a later selected model overwrites it anyway.
spec fn replay_state(
    m1: Seq<(Seq<char>, ModelView)>,
    m2: Seq<(Seq<char>, ModelView)>,
    sel_rest: Seq<SelectedView>,
    override_cmd: bool,
) -> bool {
    &&& m2.len() == m1.len()
    &&& forall|j: int| 0 <= j < m1.len() ==> (#[trigger] m2[j]).0 == m1[j].0
    &&& forall|j: int|
        0 <= j < m1.len() ==> (ModelView { cmd: m1[j].1.cmd, ..(#[trigger] m2[j]).1 })
            == m1[j].1
    &&& forall|j: int|
        0 <= j < m1.len() ==> ((#[trigger] m2[j]).1.cmd == m1[j].1.cmd || (override_cmd
            && exists|k: int| 0 <= k < sel_rest.len() && sel_rest[k].name == m1[j].0))
}

/// Replaying the selection's tail over such a state reproduces the final map.
proof fn lemma_import_replay_gen(
    models: Seq<(Seq<char>, ModelView)>,
    sel: Seq<SelectedView>,
    t: TemplatesView,
    unlisted: bool,
    aliases: Seq<(Seq<char>, Seq<Seq<char>>)>,
    filters: Seq<(Seq<char>, Seq<(Seq<char>, Seq<char>)>)>,
    i: int,
    m2: Seq<(Seq<char>, ModelView)>,
)
    requires
        unique_keys(models),
        models_wf(models),
        0 <= i <= sel.len(),
        replay_state(
            import_all(models, sel, t, unlisted, aliases, filters),
            m2,
            sel.skip(i),
            t.override_cmd,
        ),
    ensures
        import_all(m2, sel.skip(i), t, unlisted, aliases, filters) == import_all(
            models,
            sel,
            t,
            unlisted,
            aliases,
            filters,
        ),
    decreases sel.len() - i,
{
    let m1 = import_all(models, sel, t, unlisted, aliases, filters);
    lemma_import_all_wf(models, sel, t, unlisted, aliases, filters);
    let s = sel.skip(i);
    if i == sel.len() {
        assert(s.len() == 0);
        assert forall|j: int| 0 <= j < m1.len() implies m2[j] == m1[j] by {
            assert(m2[j].1.cmd == m1[j].1.cmd);
            assert((ModelView { cmd: m1[j].1.cmd, ..m2[j].1 }) == m1[j].1);
            assert(m2[j].1 =~= m1[j].1);
        }
        assert(m2 =~= m1);
    } else {
        let sm = sel[i];
        let n = sm.name;
        assert(s[0] == sm);
        lemma_last_path_some(sel, n, i);
        lemma_import_final_entry(models, sel, t, unlisted, aliases, filters, n);
        lemma_key_index(m1, n);
        let jn = key_index(m1, n);
        lemma_key_index_same_keys(m2, m1, n);
        assert(has_key(m2, n));
        let e_final = value_of(m1, n);
        assert(e_final == m1[jn].1);
        let base2 = value_of(m2, n);
        assert(base2 == m2[jn].1);
        assert((ModelView { cmd: m1[jn].1.cmd, ..m2[jn].1 }) == m1[jn].1);
        assert(unique_keys(m2)) by {
            assert forall|a: int, b: int| 0 <= a < b < m2.len() implies (#[trigger] m2[a]).0
                != (#[trigger] m2[b]).0 by {
                assert(m2[a].0 == m1[a].0 && m2[b].0 == m1[b].0);
            }
        }
        let cmd_i = resolved_cmd(t.default_cmd_tpl, sm.model_path, n);
        let merged = merged_entry(m2, sm, t, unlisted, aliases, filters);
        // every field of the merged entry but the command equals the final entry
        assert((ModelView { cmd: e_final.cmd, ..merged }) =~= e_final);
        // the command either is already final or a later occurrence will fix it
        let m3 = upsert_entries(m2, n, merged);
        lemma_upsert(m2, n, merged);
        lemma_import_all_cons(m2, s, t, unlisted, aliases, filters);
        assert(import_one(m2, sm, t, unlisted, aliases, filters) == m3);
        assert(s.skip(1) =~= sel.skip(i + 1));
        assert(replay_state(m1, m3, sel.skip(i + 1), t.override_cmd)) by {
            lemma_key_index(m2, n);
            let jn2 = key_index(m2, n);
            assert(jn2 == jn);
            assert(m3 == m2.update(jn, (n, merged)));
            assert forall|j: int| 0 <= j < m1.len() implies (#[trigger] m3[j]).0 == m1[j].0 by {}
            assert forall|j: int|
                0 <= j < m1.len() implies (ModelView { cmd: m1[j].1.cmd, ..(#[trigger] m3[j]).1 })
                == m1[j].1 by {
                if j == jn {
                    assert(m3[j].1 == merged);
                    assert((ModelView { cmd: e_final.cmd, ..merged }) == e_final);
                } else {
                    assert(m3[j] == m2[j]);
                }
            }
            assert forall|j: int|
                0 <= j < m1.len() implies ((#[trigger] m3[j]).1.cmd == m1[j].1.cmd
                || (t.override_cmd && exists|k: int|
                    0 <= k < sel.skip(i + 1).len() && (#[trigger] sel.skip(i + 1)[k]).name
                        == m1[j].0)) by {
                if j == jn {
                    if t.override_cmd {
                        if exists|k: int|
                            0 <= k < sel.skip(i + 1).len() && (#[trigger] sel.skip(i + 1)[k]).name
                                == n {
                        } else {
                            // this is the last occurrence of the name, so the
                            // freshly resolved command is the final one
                            assert forall|k: int| i < k < sel.len() implies sel[k].name != n by {
                                if sel[k].name == n {
                                    assert(sel.skip(i + 1)[k - i - 1].name == n);
                                }
                            }
                            lemma_last_path_at(sel, n, i);
                            assert(e_final.cmd == cmd_i);
                            assert(merged.cmd == cmd_i);
                        }
                    } else {
                        assert(merged.cmd == base2.cmd);
                        assert(m2[jn].1.cmd == m1[jn].1.cmd);
                    }
                } else {
                    assert(m3[j] == m2[j]);
                    assert(m1[j].0 != n);
                    if m2[j].1.cmd != m1[j].1.cmd {
                        let k = choose|k: int|
                            0 <= k < s.len() && s[k].name == m1[j].0;
                        assert(s[k] == sel[i + k]);
                        assert(k != 0);
                        assert(sel.skip(i + 1)[k - 1].name == m1[j].0);
                    }
                }
            }
        }
        lemma_import_replay_gen(models, sel, t, unlisted, aliases, filters, i + 1, m3);
        assert(import_all(m3, s.skip(1), t, unlisted, aliases, filters) == import_all(
            m3,
            sel.skip(i + 1),
            t,
            unlisted,
            aliases,
            filters,
        ));
    }
}

/// Importing the same selection a second time is a no-op.
pub proof fn lemma_import_idempotent(
    models: Seq<(Seq<char>, ModelView)>,
    sel: Seq<SelectedView>,
    t: TemplatesView,
    unlisted: bool,
    aliases: Seq<(Seq<char>, Seq<Seq<char>>)>,
    filters: Seq<(Seq<char>, Seq<(Seq<char>, Seq<char>)>)>,
)
    requires
        unique_keys(models),
        models_wf(models),
    ensures
        import_all(
            import_all(models, sel, t, unlisted, aliases, filters),
            sel,
            t,
            unlisted,
            aliases,
            filters,
        ) == import_all(models, sel, t, unlisted, aliases, filters),
{
    let m1 = import_all(models, sel, t, unlisted, aliases, filters);
    assert(replay_state(m1, m1, sel.skip(0), t.override_cmd)) by {
        assert forall|j: int|
            0 <= j < m1.len() implies (ModelView { cmd: m1[j].1.cmd, ..(#[trigger] m1[j]).1 })
            == m1[j].1 by {
            assert((ModelView { cmd: m1[j].1.cmd, ..m1[j].1 }) =~= m1[j].1);
        }
    }
    lemma_import_replay_gen(models, sel, t, unlisted, aliases, filters, 0, m1);
    assert(sel.skip(0) =~= sel);
}

/// Grouping no-op: when a group of the requested name already exists, the
/// grouping step leaves every group, that one included, exactly as it is.
pub proof fn lemma_group_noop(
    groups: Seq<(Seq<char>, GroupView)>,
    name_opt: Option<Seq<char>>,
    sel: Seq<SelectedView>,
)
    requires
        has_key(
            groups,
            match name_opt {
                Some(n) => n,
                None => "imported"@,
            },
        ),
    ensures
        group_after(groups, true, name_opt, sel) == groups,
{
}

} // verus!
