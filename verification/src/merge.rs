use vstd::prelude::*;

verus! {

use crate::args::Args;
use crate::config::Config;
use crate::config::ConfigView;
use crate::config::GroupConfig;
use crate::config::GroupView;
use crate::config::ModelConfig;
use crate::config::ModelView;
use crate::config::fresh_model;
use crate::config::models_wf;
use crate::kvmap::KvMap;
use crate::kvmap::has_key;
use crate::kvmap::key_index;
use crate::kvmap::lemma_key_index;
use crate::kvmap::lemma_upsert;
use crate::kvmap::lemma_upsert_pairs_value;
use crate::kvmap::upsert_entries;
use crate::kvmap::upsert_pairs;
use crate::kvmap::value_of;
use crate::selection::SelectedModel;
use crate::selection::SelectedView;
use crate::selection::contains_string;
use crate::template::CommandTemplates;
use crate::template::TemplatesView;
use crate::template::resolve_cmd;
use crate::template::resolve_stop;
use crate::template::resolved_cmd;
use crate::template::resolved_stop;

/// Each addition appended only if absent; existing entries and their order
/// are never touched.
pub open spec fn add_aliases(existing: Seq<Seq<char>>, additions: Seq<Seq<char>>) -> Seq<
    Seq<char>,
>
    decreases additions.len(),
{
    if additions.len() == 0 {
        existing
    } else {
        let prev = add_aliases(existing, additions.drop_last());
        if prev.contains(additions.last()) {
            prev
        } else {
            prev.push(additions.last())
        }
    }
}

/// Add each addition to the target unless it is already there.
pub fn merge_vec(target: &mut Vec<String>, additions: &Vec<String>)
    ensures
        final(target).deep_view() == add_aliases(old(target).deep_view(), additions.deep_view()),
{
    let n = additions.len();
    let mut i: usize = 0;
    proof {
        assert(additions.deep_view().take(0) =~= Seq::<Seq<char>>::empty());
    }
    while i < n
        invariant
            i <= n,
            n == additions@.len(),
            target.deep_view() == add_aliases(
                old(target).deep_view(),
                additions.deep_view().take(i as int),
            ),
        decreases n - i,
    {
        proof {
            assert(additions.deep_view().take(i + 1).drop_last() =~= additions.deep_view().take(
                i as int,
            ));
            assert(additions.deep_view().take(i + 1).last() == additions.deep_view()[i as int]);
        }
        let a = &additions[i];
        if !contains_string(target, a) {
            let ghost pre = target.deep_view();
            target.push(a.clone());
            proof {
                assert(target.deep_view() =~= pre.push(a@));
            }
        }
        i += 1;
    }
    proof {
        assert(additions.deep_view().take(n as int) =~= additions.deep_view());
    }
}

/// Upsert each key/value pair of `additions` into the filter map, in order.
fn apply_filter_pairs(filters: &mut KvMap<String>, additions: &Vec<(String, String)>)
    requires
        old(filters).wf(),
    ensures
        final(filters)@ == upsert_pairs(old(filters)@, additions.deep_view()),
        final(filters).wf(),
{
    let n = additions.len();
    let mut i: usize = 0;
    proof {
        assert(additions.deep_view().take(0) =~= Seq::<(Seq<char>, Seq<char>)>::empty());
    }
    while i < n
        invariant
            i <= n,
            n == additions@.len(),
            filters.wf(),
            filters@ == upsert_pairs(old(filters)@, additions.deep_view().take(i as int)),
        decreases n - i,
    {
        proof {
            assert(additions.deep_view().take(i + 1).drop_last() =~= additions.deep_view().take(
                i as int,
            ));
            assert(additions.deep_view().take(i + 1).last() == additions.deep_view()[i as int]);
        }
        let e = &additions[i];
        filters.upsert(e.0.clone(), e.1.clone());
        i += 1;
    }
    proof {
        assert(additions.deep_view().take(n as int) =~= additions.deep_view());
    }
}

/// The stop command of one model, when a stop template was given.
pub open spec fn stop_for(tpl: Option<Seq<char>>, name: Seq<char>) -> Option<Seq<char>> {
    match tpl {
        Some(t) => Some(resolved_stop(t, name)),
        None => None,
    }
}

/// The entry one selected model ends up with: a fresh entry or the existing
/// one, the commands overwritten only when their template was requested this
/// run, the parsed aliases added if absent, and the parsed filter pairs
/// upserted.
pub open spec fn merged_entry(
    models: Seq<(Seq<char>, ModelView)>,
    sm: SelectedView,
    t: TemplatesView,
    unlisted: bool,
    aliases: Seq<(Seq<char>, Seq<Seq<char>>)>,
    filters: Seq<(Seq<char>, Seq<(Seq<char>, Seq<char>)>)>,
) -> ModelView {
    let cmd = resolved_cmd(t.default_cmd_tpl, sm.model_path, sm.name);
    let cmd_stop = stop_for(t.default_stop_tpl, sm.name);
    let base = if has_key(models, sm.name) {
        value_of(models, sm.name)
    } else {
        fresh_model(cmd, unlisted)
    };
    let e1 = ModelView {
        cmd: if t.override_cmd {
            cmd
        } else {
            base.cmd
        },
        cmd_stop: if t.override_stop {
            cmd_stop
        } else {
            base.cmd_stop
        },
        ..base
    };
    let e2 = ModelView {
        aliases: if has_key(aliases, sm.name) {
            add_aliases(e1.aliases, value_of(aliases, sm.name))
        } else {
            e1.aliases
        },
        ..e1
    };
    ModelView {
        filters: if has_key(filters, sm.name) {
            upsert_pairs(e2.filters, value_of(filters, sm.name))
        } else {
            e2.filters
        },
        ..e2
    }
}

/// The model map after one selected model is imported.
pub open spec fn import_one(
    models: Seq<(Seq<char>, ModelView)>,
    sm: SelectedView,
    t: TemplatesView,
    unlisted: bool,
    aliases: Seq<(Seq<char>, Seq<Seq<char>>)>,
    filters: Seq<(Seq<char>, Seq<(Seq<char>, Seq<char>)>)>,
) -> Seq<(Seq<char>, ModelView)> {
    upsert_entries(models, sm.name, merged_entry(models, sm, t, unlisted, aliases, filters))
}

/// The model map after every selected model is imported, in selection order.
pub open spec fn import_all(
    models: Seq<(Seq<char>, ModelView)>,
    selected: Seq<SelectedView>,
    t: TemplatesView,
    unlisted: bool,
    aliases: Seq<(Seq<char>, Seq<Seq<char>>)>,
    filters: Seq<(Seq<char>, Seq<(Seq<char>, Seq<char>)>)>,
) -> Seq<(Seq<char>, ModelView)>
    decreases selected.len(),
{
    if selected.len() == 0 {
        models
    } else {
        import_one(
            import_all(models, selected.drop_last(), t, unlisted, aliases, filters),
            selected.last(),
            t,
            unlisted,
            aliases,
            filters,
        )
    }
}

/// Create or update the entry of every selected model, in selection order.
pub fn import_models(
    config: &mut Config,
    args: &Args,
    selected: &Vec<SelectedModel>,
    alias_specs: &KvMap<Vec<String>>,
    filter_specs: &KvMap<Vec<(String, String)>>,
    templates: &CommandTemplates,
)
    requires
        old(config).wf(),
    ensures
        final(config)@ == (ConfigView {
            models: import_all(
                old(config)@.models,
                selected.deep_view(),
                templates@,
                args.unlisted,
                alias_specs@,
                filter_specs@,
            ),
            ..old(config)@
        }),
        final(config).wf(),
{
    let n = selected.len();
    let mut idx: usize = 0;
    proof {
        assert(selected.deep_view().take(0) =~= Seq::<SelectedView>::empty());
    }
    while idx < n
        invariant
            idx <= n,
            n == selected@.len(),
            config.wf(),
            config@.models == import_all(
                old(config)@.models,
                selected.deep_view().take(idx as int),
                templates@,
                args.unlisted,
                alias_specs@,
                filter_specs@,
            ),
            config@.health_check_timeout == old(config)@.health_check_timeout,
            config@.log_level == old(config)@.log_level,
            config@.start_port == old(config)@.start_port,
            config@.macros == old(config)@.macros,
            config@.groups == old(config)@.groups,
        decreases n - idx,
    {
        proof {
            assert(selected.deep_view().take(idx + 1).drop_last() =~= selected.deep_view().take(
                idx as int,
            ));
            assert(selected.deep_view().take(idx + 1).last() == selected.deep_view()[idx as int]);
        }
        let ghost msnap = config@.models;
        let ghost smv = selected.deep_view()[idx as int];
        let sm = &selected[idx];
        let cmd = resolve_cmd(
            templates.default_cmd_tpl.as_str(),
            sm.model_path.as_str(),
            sm.name.as_str(),
        );
        let cmd_stop: Option<String> = match &templates.default_stop_tpl {
            Some(t) => Some(resolve_stop(t.as_str(), sm.name.as_str())),
            None => None,
        };
        proof {
            assert(cmd@ == resolved_cmd(templates@.default_cmd_tpl, smv.model_path, smv.name));
            assert(cmd_stop.deep_view() == stop_for(templates@.default_stop_tpl, smv.name));
        }
        let ghost base = if has_key(msnap, smv.name) {
            value_of(msnap, smv.name)
        } else {
            fresh_model(cmd@, args.unlisted)
        };
        let mut entry: ModelConfig = match config.models.get(sm.name.as_str()) {
            Some(e) => e.duplicate(),
            None => {
                let mut e = ModelConfig::new(cmd.clone());
                e.unlisted = args.unlisted;
                e
            },
        };
        proof {
            assert(entry@ =~= base);
            if has_key(msnap, smv.name) {
                lemma_key_index(msnap, smv.name);
            }
            assert(entry.wf());
        }
        if templates.override_cmd {
            entry.cmd = cmd;
        }
        if templates.override_stop {
            entry.cmd_stop = cmd_stop;
        }
        let ghost e1 = ModelView {
            cmd: if templates@.override_cmd {
                resolved_cmd(templates@.default_cmd_tpl, smv.model_path, smv.name)
            } else {
                base.cmd
            },
            cmd_stop: if templates@.override_stop {
                stop_for(templates@.default_stop_tpl, smv.name)
            } else {
                base.cmd_stop
            },
            ..base
        };
        proof {
            assert(entry@ =~= e1);
        }
        match alias_specs.get(sm.name.as_str()) {
            Some(add) => {
                merge_vec(&mut entry.aliases, add);
            },
            None => {},
        }
        let ghost e2 = ModelView {
            aliases: if has_key(alias_specs@, smv.name) {
                add_aliases(e1.aliases, value_of(alias_specs@, smv.name))
            } else {
                e1.aliases
            },
            ..e1
        };
        proof {
            assert(entry@ =~= e2);
        }
        match filter_specs.get(sm.name.as_str()) {
            Some(add) => {
                apply_filter_pairs(&mut entry.filters, add);
            },
            None => {},
        }
        proof {
            assert(entry@ =~= merged_entry(
                msnap,
                smv,
                templates@,
                args.unlisted,
                alias_specs@,
                filter_specs@,
            ));
            lemma_upsert(msnap, smv.name, entry@);
            if has_key(filter_specs@, smv.name) {
                lemma_upsert_pairs_value(e2.filters, value_of(filter_specs@, smv.name), smv.name);
            }
        }
        config.models.upsert(sm.name.clone(), entry);
        proof {
            assert(config@.models == import_all(
                old(config)@.models,
                selected.deep_view().take(idx + 1),
                templates@,
                args.unlisted,
                alias_specs@,
                filter_specs@,
            ));
            assert forall|i: int|
                0 <= i < config@.models.len() implies crate::kvmap::unique_keys(
                #[trigger] config@.models[i].1.filters,
            ) by {
                if i < msnap.len() && msnap[i].0 != smv.name {
                    assert(config@.models[i] == msnap[i]);
                }
            }
        }
        idx += 1;
    }
    proof {
        assert(selected.deep_view().take(n as int) =~= selected.deep_view());
        assert(config@ =~= (ConfigView {
            models: import_all(
                old(config)@.models,
                selected.deep_view(),
                templates@,
                args.unlisted,
                alias_specs@,
                filter_specs@,
            ),
            ..old(config)@
        }));
    }
}

/// The names of the selected models, in selection order.
pub open spec fn member_names(sel: Seq<SelectedView>) -> Seq<Seq<char>> {
    sel.map_values(|m: SelectedView| m.name)
}

/// The group map after the grouping step: untouched unless single-group mode
/// is requested and no group of the chosen name exists; then one new group
/// with swap set and the imported models as members.
pub open spec fn group_after(
    groups: Seq<(Seq<char>, GroupView)>,
    single_group: bool,
    name_opt: Option<Seq<char>>,
    sel: Seq<SelectedView>,
) -> Seq<(Seq<char>, GroupView)> {
    if !single_group {
        groups
    } else {
        let name = match name_opt {
            Some(n) => n,
            None => "imported"@,
        };
        if has_key(groups, name) {
            groups
        } else {
            groups.push(
                (
                    name,
                    GroupView {
                        swap: Some(true),
                        exclusive: None,
                        persistent: None,
                        members: member_names(sel),
                    },
                ),
            )
        }
    }
}

/// Put all imported models into one group, if requested; an existing group
/// of the same name is left untouched.
pub fn apply_single_group(config: &mut Config, args: &Args, selected: &Vec<SelectedModel>)
    requires
        old(config).wf(),
    ensures
        final(config)@ == (ConfigView {
            groups: group_after(
                old(config)@.groups,
                args.single_group,
                args@.single_group_name,
                selected.deep_view(),
            ),
            ..old(config)@
        }),
        final(config).wf(),
{
    if !args.single_group {
        proof {
            assert(config@ =~= (ConfigView {
                groups: group_after(
                    old(config)@.groups,
                    args.single_group,
                    args@.single_group_name,
                    selected.deep_view(),
                ),
                ..old(config)@
            }));
        }
        return ;
    }
    let group_name: String = match &args.single_group_name {
        Some(n) => n.clone(),
        None => "imported".to_owned(),
    };
    if config.groups.contains_key(group_name.as_str()) {
        proof {
            assert(config@ =~= (ConfigView {
                groups: group_after(
                    old(config)@.groups,
                    args.single_group,
                    args@.single_group_name,
                    selected.deep_view(),
                ),
                ..old(config)@
            }));
        }
        return ;
    }
    let n = selected.len();
    let mut members: Vec<String> = Vec::new();
    let mut i: usize = 0;
    proof {
        assert(members.deep_view() =~= member_names(selected.deep_view().take(0)));
    }
    while i < n
        invariant
            i <= n,
            n == selected@.len(),
            members.deep_view() == member_names(selected.deep_view().take(i as int)),
        decreases n - i,
    {
        let ghost pre = members.deep_view();
        let sm = &selected[i];
        members.push(sm.name.clone());
        proof {
            assert(members.deep_view() =~= pre.push(sm.name@));
            assert(member_names(selected.deep_view().take(i + 1)) =~= pre.push(
                selected.deep_view()[i as int].name,
            ));
        }
        i += 1;
    }
    proof {
        assert(selected.deep_view().take(n as int) =~= selected.deep_view());
    }
    let g = GroupConfig { swap: Some(true), exclusive: None, persistent: None, members };
    config.groups.upsert(group_name, g);
    proof {
        assert(config@ =~= (ConfigView {
            groups: group_after(
                old(config)@.groups,
                args.single_group,
                args@.single_group_name,
                selected.deep_view(),
            ),
            ..old(config)@
        }));
    }
}

} // verus!
