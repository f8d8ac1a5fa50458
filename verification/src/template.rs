use vstd::prelude::*;

verus! {

use crate::args::Args;
use crate::config::clone_opt_string;
use crate::strutil::replace_all;
use crate::strutil::replaced_spec;

/// Mathematical image of `CommandTemplates`.
#[verifier::ext_equal]
pub ghost struct TemplatesView {
    pub default_cmd_tpl: Seq<char>,
    pub default_stop_tpl: Option<Seq<char>>,
    pub override_cmd: bool,
    pub override_stop: bool,
}

/// The run's command templates, and whether each was requested explicitly:
/// only an explicit template overwrites an existing entry's commands.
pub struct CommandTemplates {
    pub default_cmd_tpl: String,
    pub default_stop_tpl: Option<String>,
    pub override_cmd: bool,
    pub override_stop: bool,
}

impl View for CommandTemplates {
    type V = TemplatesView;

    open spec fn view(&self) -> TemplatesView {
        TemplatesView {
            default_cmd_tpl: self.default_cmd_tpl@,
            default_stop_tpl: self.default_stop_tpl.deep_view(),
            override_cmd: self.override_cmd,
            override_stop: self.override_stop,
        }
    }
}

/// The templates a run uses: the requested ones, or, for the start command,
/// the bare artifact path.
pub open spec fn templates_of(
    cmd_template: Option<Seq<char>>,
    stop_cmd_template: Option<Seq<char>>,
) -> TemplatesView {
    TemplatesView {
        default_cmd_tpl: match cmd_template {
            Some(t) => t,
            None => "{model_path}"@,
        },
        default_stop_tpl: stop_cmd_template,
        override_cmd: cmd_template is Some,
        override_stop: stop_cmd_template is Some,
    }
}

pub fn command_templates(args: &Args) -> (r: CommandTemplates)
    ensures
        r@ == templates_of(args@.cmd_template, args@.stop_cmd_template),
{
    let default_cmd_tpl = match &args.cmd_template {
        Some(t) => t.clone(),
        None => "{model_path}".to_owned(),
    };
    let default_stop_tpl = clone_opt_string(&args.stop_cmd_template);
    let r = CommandTemplates {
        default_cmd_tpl,
        default_stop_tpl,
        override_cmd: args.cmd_template.is_some(),
        override_stop: args.stop_cmd_template.is_some(),
    };
    proof {
        assert(r@ =~= templates_of(args@.cmd_template, args@.stop_cmd_template));
    }
    r
}

/// The start command for one model: the template with every `{model_path}`
/// replaced by the artifact path, then every `{model_name}` by the name.
pub open spec fn resolved_cmd(tpl: Seq<char>, path: Seq<char>, name: Seq<char>) -> Seq<char> {
    replaced_spec(replaced_spec(tpl, "{model_path}"@, path), "{model_name}"@, name)
}

/// The stop command for one model: the template with every `{model_name}`
/// replaced by the name.
pub open spec fn resolved_stop(tpl: Seq<char>, name: Seq<char>) -> Seq<char> {
    replaced_spec(tpl, "{model_name}"@, name)
}

pub fn resolve_cmd(tpl: &str, path: &str, name: &str) -> (r: String)
    ensures
        r@ == resolved_cmd(tpl@, path@, name@),
{
    proof {
        reveal_strlit("{model_path}");
        reveal_strlit("{model_name}");
    }
    let s1 = replace_all(tpl, "{model_path}", path);
    replace_all(s1.as_str(), "{model_name}", name)
}

pub fn resolve_stop(tpl: &str, name: &str) -> (r: String)
    ensures
        r@ == resolved_stop(tpl@, name@),
{
    proof {
        reveal_strlit("{model_name}");
    }
    replace_all(tpl, "{model_name}", name)
}

} // verus!
