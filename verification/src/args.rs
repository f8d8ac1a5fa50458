use vstd::prelude::*;

verus! {

use crate::config::LogLevel;

/// Mathematical image of `Args`.
#[verifier::ext_equal]
pub ghost struct ArgsView {
    pub input_config: Option<Seq<char>>,
    pub output_config: Option<Seq<char>>,
    pub model_dir: Option<Seq<char>>,
    pub specify_models: Option<Seq<Seq<char>>>,
    pub all_models: bool,
    pub verbose: bool,
    pub cmd_template: Option<Seq<char>>,
    pub stop_cmd_template: Option<Seq<char>>,
    pub start_port: Option<u16>,
    pub health_check_timeout: Option<u64>,
    pub log_level: Option<LogLevel>,
    pub macro_override: Option<Seq<Seq<char>>>,
    pub alias: Option<Seq<Seq<char>>>,
    pub filter: Option<Seq<Seq<char>>>,
    pub unlisted: bool,
    pub single_group: bool,
    pub single_group_name: Option<Seq<char>>,
    pub dry_run: bool,
    pub no_clobber: bool,
}

/// The run's directives, as plain values: which models to import, what to
/// override, and where the result goes.
pub struct Args {
    /// Configuration file to read and, absent an output path, to update.
    pub input_config: Option<String>,
    /// Configuration file to write.
    pub output_config: Option<String>,
    /// Directory searched for models.
    pub model_dir: Option<String>,
    /// Names of the models to import; overrides `all_models` when set.
    pub specify_models: Option<Vec<String>>,
    /// Import every discovered model.
    pub all_models: bool,
    /// Emit diagnostic output.
    pub verbose: bool,
    /// Start-command template with `{model_path}` and `{model_name}`
    /// placeholders.
    pub cmd_template: Option<String>,
    /// Stop-command template with a `{model_name}` placeholder.
    pub stop_cmd_template: Option<String>,
    /// Starting port override.
    pub start_port: Option<u16>,
    /// Health-check timeout override in seconds.
    pub health_check_timeout: Option<u64>,
    /// Log-level override.
    pub log_level: Option<LogLevel>,
    /// Macro directives of the form `KEY=VALUE`.
    pub macro_override: Option<Vec<String>>,
    /// Alias directives of the form `MODEL=ALIAS1|ALIAS2`.
    pub alias: Option<Vec<String>>,
    /// Filter directives of the form `MODEL=KEY:VALUE|KEY:VALUE`.
    pub filter: Option<Vec<String>>,
    /// Mark newly imported models as unlisted.
    pub unlisted: bool,
    /// Put all imported models into one group.
    pub single_group: bool,
    /// Name of that group.
    pub single_group_name: Option<String>,
    /// Print the result instead of writing any file.
    pub dry_run: bool,
    /// Refuse to overwrite an existing output file.
    pub no_clobber: bool,
}

impl View for Args {
    type V = ArgsView;

    open spec fn view(&self) -> ArgsView {
        ArgsView {
            input_config: self.input_config.deep_view(),
            output_config: self.output_config.deep_view(),
            model_dir: self.model_dir.deep_view(),
            specify_models: self.specify_models.deep_view(),
            all_models: self.all_models,
            verbose: self.verbose,
            cmd_template: self.cmd_template.deep_view(),
            stop_cmd_template: self.stop_cmd_template.deep_view(),
            start_port: self.start_port,
            health_check_timeout: self.health_check_timeout,
            log_level: self.log_level,
            macro_override: self.macro_override.deep_view(),
            alias: self.alias.deep_view(),
            filter: self.filter.deep_view(),
            unlisted: self.unlisted,
            single_group: self.single_group,
            single_group_name: self.single_group_name.deep_view(),
            dry_run: self.dry_run,
            no_clobber: self.no_clobber,
        }
    }
}

} // verus!
