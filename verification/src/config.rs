use vstd::prelude::*;

verus! {

use crate::kvmap::KvMap;
use crate::kvmap::unique_keys;

/// Logging levels accepted in the configuration.
#[derive(Clone, Copy, Debug, PartialEq, Eq, Structural)]
pub enum LogLevel {
    Debug,
    Info,
    Warn,
    Error,
}

/// Mathematical image of a `ModelConfig`.
#[verifier::ext_equal]
pub ghost struct ModelView {
    pub cmd: Seq<char>,
    pub env: Seq<Seq<char>>,
    pub cmd_stop: Option<Seq<char>>,
    pub proxy: Option<Seq<char>>,
    pub aliases: Seq<Seq<char>>,
    pub check_endpoint: Option<Seq<char>>,
    pub ttl: Option<u64>,
    pub use_model_name: Option<Seq<char>>,
    pub filters: Seq<(Seq<char>, Seq<char>)>,
    pub unlisted: bool,
}

/// One runnable model: how to start it, stop it and address it.
pub struct ModelConfig {
    /// Command that starts the inference server.
    pub cmd: String,
    /// Environment variable assignments for the command.
    pub env: Vec<String>,
    /// Command that stops the model gracefully.
    pub cmd_stop: Option<String>,
    /// Proxy URL.
    pub proxy: Option<String>,
    /// Alternative model names; kept free of duplicates by the merge step.
    pub aliases: Vec<String>,
    /// Endpoint polled to see whether the server is ready.
    pub check_endpoint: Option<String>,
    /// Idle-unload timeout in seconds.
    pub ttl: Option<u64>,
    /// Upstream model name override.
    pub use_model_name: Option<String>,
    /// Filter keys and values.
    pub filters: KvMap<String>,
    /// Hide the model from listings.
    pub unlisted: bool,
}

impl View for ModelConfig {
    type V = ModelView;

    open spec fn view(&self) -> ModelView {
        ModelView {
            cmd: self.cmd@,
            env: self.env.deep_view(),
            cmd_stop: self.cmd_stop.deep_view(),
            proxy: self.proxy.deep_view(),
            aliases: self.aliases.deep_view(),
            check_endpoint: self.check_endpoint.deep_view(),
            ttl: self.ttl,
            use_model_name: self.use_model_name.deep_view(),
            filters: self.filters@,
            unlisted: self.unlisted,
        }
    }
}

impl DeepView for ModelConfig {
    type V = ModelView;

    open spec fn deep_view(&self) -> ModelView {
        self.view()
    }
}

/// The entry a freshly imported model starts from: only the start command and
/// the unlisted flag are set, everything else is empty.
pub open spec fn fresh_model(cmd: Seq<char>, unlisted: bool) -> ModelView {
    ModelView {
        cmd: cmd,
        env: Seq::empty(),
        cmd_stop: None,
        proxy: None,
        aliases: Seq::empty(),
        check_endpoint: None,
        ttl: None,
        use_model_name: None,
        filters: Seq::empty(),
        unlisted: unlisted,
    }
}

impl ModelConfig {
    pub fn new(cmd: String) -> (r: ModelConfig)
        ensures
            r@ == fresh_model(cmd@, false),
    {
        let r = ModelConfig {
            cmd,
            env: Vec::new(),
            cmd_stop: None,
            proxy: None,
            aliases: Vec::new(),
            check_endpoint: None,
            ttl: None,
            use_model_name: None,
            filters: KvMap::new(),
            unlisted: false,
        };
        proof {
            assert(r.env.deep_view() =~= Seq::<Seq<char>>::empty());
            assert(r.aliases.deep_view() =~= Seq::<Seq<char>>::empty());
            assert(r@ =~= fresh_model(r.cmd@, false));
        }
        r
    }

    /// A copy whose view is the same.
    pub fn duplicate(&self) -> (r: ModelConfig)
        ensures
            r@ == self@,
    {
        let r = ModelConfig {
            cmd: self.cmd.clone(),
            env: clone_string_vec(&self.env),
            cmd_stop: clone_opt_string(&self.cmd_stop),
            proxy: clone_opt_string(&self.proxy),
            aliases: clone_string_vec(&self.aliases),
            check_endpoint: clone_opt_string(&self.check_endpoint),
            ttl: self.ttl,
            use_model_name: clone_opt_string(&self.use_model_name),
            filters: self.filters.duplicate(),
            unlisted: self.unlisted,
        };
        proof {
            assert(r@ =~= self@);
        }
        r
    }

    /// Whether the filter map has unique keys.
    pub open spec fn wf(&self) -> bool {
        self.filters.wf()
    }
}

/// Mathematical image of a `GroupConfig`.
#[verifier::ext_equal]
pub ghost struct GroupView {
    pub swap: Option<bool>,
    pub exclusive: Option<bool>,
    pub persistent: Option<bool>,
    pub members: Seq<Seq<char>>,
}

/// A named cluster of models sharing swap behaviour.
pub struct GroupConfig {
    /// Allow only one model of the group to run at a time.
    pub swap: Option<bool>,
    /// Running a model of this group unloads other groups.
    pub exclusive: Option<bool>,
    /// Keep the group's models loaded when other groups start.
    pub persistent: Option<bool>,
    /// The model IDs in the group.
    pub members: Vec<String>,
}

impl View for GroupConfig {
    type V = GroupView;

    open spec fn view(&self) -> GroupView {
        GroupView {
            swap: self.swap,
            exclusive: self.exclusive,
            persistent: self.persistent,
            members: self.members.deep_view(),
        }
    }
}

impl DeepView for GroupConfig {
    type V = GroupView;

    open spec fn deep_view(&self) -> GroupView {
        self.view()
    }
}

/// Mathematical image of a `Config`.
#[verifier::ext_equal]
pub ghost struct ConfigView {
    pub health_check_timeout: Option<u64>,
    pub log_level: Option<LogLevel>,
    pub start_port: Option<u16>,
    pub macros: Seq<(Seq<char>, Seq<char>)>,
    pub models: Seq<(Seq<char>, ModelView)>,
    pub groups: Seq<(Seq<char>, GroupView)>,
}

/// The whole configuration document.
pub struct Config {
    /// Seconds to wait for a model to become ready.
    pub health_check_timeout: Option<u64>,
    /// Logging level.
    pub log_level: Option<LogLevel>,
    /// Starting port number for the port macro.
    pub start_port: Option<u16>,
    /// Reusable string macros.
    pub macros: KvMap<String>,
    /// Models keyed by model ID.
    pub models: KvMap<ModelConfig>,
    /// Group definitions keyed by group name.
    pub groups: KvMap<GroupConfig>,
}

impl View for Config {
    type V = ConfigView;

    open spec fn view(&self) -> ConfigView {
        ConfigView {
            health_check_timeout: self.health_check_timeout,
            log_level: self.log_level,
            start_port: self.start_port,
            macros: self.macros@,
            models: self.models@,
            groups: self.groups@,
        }
    }
}

/// Every model entry's filter map has unique keys.
pub open spec fn models_wf(models: Seq<(Seq<char>, ModelView)>) -> bool {
    forall|i: int| 0 <= i < models.len() ==> unique_keys(#[trigger] models[i].1.filters)
}

impl Config {
    /// Key uniqueness of every map in the document, the model entries'
    /// filter maps included.
    pub open spec fn wf(&self) -> bool {
        self.macros.wf() && self.models.wf() && self.groups.wf() && models_wf(self.models@)
    }
}

/// The view a configuration built from defaults has.
pub open spec fn default_config() -> ConfigView {
    ConfigView {
        health_check_timeout: Some(120u64),
        log_level: Some(LogLevel::Info),
        start_port: None,
        macros: Seq::empty(),
        models: Seq::empty(),
        groups: Seq::empty(),
    }
}

impl Default for Config {
    fn default() -> (r: Config)
        ensures
            r@ == default_config(),
            r.wf(),
    {
        Config {
            health_check_timeout: Some(120),
            log_level: Some(LogLevel::Info),
            start_port: None,
            macros: KvMap::new(),
            models: KvMap::new(),
            groups: KvMap::new(),
        }
    }
}

/// True exactly when the flag is false; serializers use it to omit
/// default-false fields from rendered output.
pub fn is_false(value: &bool) -> (r: bool)
    ensures
        r == !*value,
{
    !*value
}

/// A `String` vector copied element by element.
pub fn clone_string_vec(v: &Vec<String>) -> (r: Vec<String>)
    ensures
        r@ == v@,
{
    let n = v.len();
    let mut out: Vec<String> = Vec::new();
    let mut i: usize = 0;
    while i < n
        invariant
            i <= n,
            n == v@.len(),
            out@ =~= v@.take(i as int),
        decreases n - i,
    {
        out.push(v[i].clone());
        proof {
            assert(out@ =~= v@.take(i + 1));
        }
        i += 1;
    }
    proof {
        assert(v@.take(n as int) =~= v@);
    }
    out
}

/// An optional `String` copied by value.
pub fn clone_opt_string(v: &Option<String>) -> (r: Option<String>)
    ensures
        r == *v,
{
    match v {
        None => None,
        Some(s) => Some(s.clone()),
    }
}

} // verus!
