use vstd::prelude::*;

verus! {

use crate::args::Args;
use crate::args::ArgsView;
use crate::config::Config;
use crate::config::ConfigView;
use crate::merge::apply_single_group;
use crate::merge::group_after;
use crate::merge::import_all;
use crate::merge::import_models;
use crate::overrides::alias_specs_map;
use crate::overrides::apply_macro_overrides;
use crate::overrides::apply_top_level_overrides;
use crate::overrides::filter_specs_map;
use crate::overrides::macros_after;
use crate::overrides::parse_multi_kv_map;
use crate::overrides::parse_multi_map;
use crate::overrides::top_level_spec;
use crate::selection::DiscoveredModel;
use crate::selection::DiscoveredView;
use crate::selection::SelectedModel;
use crate::selection::select_models;
use crate::selection::selected_spec;
use crate::template::command_templates;
use crate::template::templates_of;

/// The configuration one run produces: scalar overrides, then macros, then
/// the import of the selected models, then the optional group.
pub open spec fn synth_spec(c: ConfigView, a: ArgsView, discovered: Seq<DiscoveredView>) -> ConfigView {
    let sel = selected_spec(discovered, a.specify_models, a.all_models);
    let c1 = top_level_spec(c, a.health_check_timeout, a.log_level, a.start_port);
    let c2 = ConfigView { macros: macros_after(c1.macros, a.macro_override), ..c1 };
    let c3 = ConfigView {
        models: import_all(
            c2.models,
            sel,
            templates_of(a.cmd_template, a.stop_cmd_template),
            a.unlisted,
            alias_specs_map(a.alias),
            filter_specs_map(a.filter),
        ),
        ..c2
    };
    ConfigView {
        groups: group_after(c3.groups, a.single_group, a.single_group_name, sel),
        ..c3
    }
}

/// Run every synthesis step on the configuration and hand back the selected
/// models, so the caller can report them.
pub fn synthesize(config: &mut Config, args: &Args, discovered: &Vec<DiscoveredModel>) -> (selected:
    Vec<SelectedModel>)
    requires
        old(config).wf(),
    ensures
        final(config)@ == synth_spec(old(config)@, args@, discovered.deep_view()),
        final(config).wf(),
        selected.deep_view() == selected_spec(
            discovered.deep_view(),
            args@.specify_models,
            args@.all_models,
        ),
{
    let selected = select_models(discovered, args.specify_models.as_ref(), args.all_models);
    apply_top_level_overrides(config, args);
    apply_macro_overrides(config, args);
    let alias_specs = parse_multi_map(args.alias.as_ref());
    let filter_specs = parse_multi_kv_map(args.filter.as_ref());
    let templates = command_templates(args);
    import_models(config, args, &selected, &alias_specs, &filter_specs, &templates);
    apply_single_group(config, args, &selected);
    proof {
        assert(config@ =~= synth_spec(old(config)@, args@, discovered.deep_view()));
    }
    selected
}

} // verus!
