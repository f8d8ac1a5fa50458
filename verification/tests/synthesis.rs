use swap_import::args::Args;
use swap_import::config::{Config, LogLevel, ModelConfig};
use swap_import::kvmap::KvMap;
use swap_import::merge::{apply_single_group, import_models, merge_vec};
use swap_import::overrides::{
    apply_macro_overrides, apply_top_level_overrides, parse_multi_kv_map, parse_multi_map,
};
use swap_import::pipeline::synthesize;
use swap_import::selection::{select_models, DiscoveredModel, SelectedModel};
use swap_import::template::{command_templates, resolve_cmd};

fn base_args() -> Args {
    Args {
        input_config: None,
        output_config: None,
        model_dir: None,
        specify_models: None,
        all_models: true,
        verbose: false,
        cmd_template: None,
        stop_cmd_template: None,
        start_port: None,
        health_check_timeout: None,
        log_level: None,
        macro_override: None,
        alias: None,
        filter: None,
        unlisted: false,
        single_group: false,
        single_group_name: None,
        dry_run: false,
        no_clobber: false,
    }
}

fn discovered(name: &str, path: Option<&str>) -> DiscoveredModel {
    DiscoveredModel {
        name: name.to_string(),
        primary_blob_path: path.map(|p| p.to_string()),
    }
}

fn model_eq(a: &ModelConfig, b: &ModelConfig) -> bool {
    a.cmd == b.cmd
        && a.env == b.env
        && a.cmd_stop == b.cmd_stop
        && a.proxy == b.proxy
        && a.aliases == b.aliases
        && a.check_endpoint == b.check_endpoint
        && a.ttl == b.ttl
        && a.use_model_name == b.use_model_name
        && string_map_eq(&a.filters, &b.filters)
        && a.unlisted == b.unlisted
}

fn string_map_eq(a: &KvMap<String>, b: &KvMap<String>) -> bool {
    if a.len() != b.len() {
        return false;
    }
    let mut i = 0;
    while i < a.len() {
        if a.key_at(i) != b.key_at(i) || a.value_at(i) != b.value_at(i) {
            return false;
        }
        i += 1;
    }
    true
}

fn config_eq(a: &Config, b: &Config) -> bool {
    if a.health_check_timeout != b.health_check_timeout
        || a.start_port != b.start_port
        || !string_map_eq(&a.macros, &b.macros)
        || a.models.len() != b.models.len()
        || a.groups.len() != b.groups.len()
    {
        return false;
    }
    match (a.log_level, b.log_level) {
        (None, None) => {}
        (Some(x), Some(y)) if x == y => {}
        _ => return false,
    }
    let mut i = 0;
    while i < a.models.len() {
        if a.models.key_at(i) != b.models.key_at(i)
            || !model_eq(a.models.value_at(i), b.models.value_at(i))
        {
            return false;
        }
        i += 1;
    }
    let mut j = 0;
    while j < a.groups.len() {
        let (ga, gb) = (a.groups.value_at(j), b.groups.value_at(j));
        if a.groups.key_at(j) != b.groups.key_at(j)
            || ga.swap != gb.swap
            || ga.exclusive != gb.exclusive
            || ga.persistent != gb.persistent
            || ga.members != gb.members
        {
            return false;
        }
        j += 1;
    }
    true
}

#[test]
fn template_substitution_round_trip() {
    let r = resolve_cmd("run {model_path} --name {model_name}", "/m/llama.bin", "llama");
    assert_eq!(r.as_str(), "run /m/llama.bin --name llama");
}

#[test]
fn selection_with_explicit_list_ignores_unknown_names() {
    let models = vec![
        discovered("a", Some("/p/a")),
        discovered("b", Some("/p/b")),
        discovered("c", Some("/p/c")),
    ];
    let wanted = vec!["b".to_string(), "d".to_string()];
    let sel = select_models(&models, Some(&wanted), true);
    assert_eq!(sel.len(), 1);
    assert_eq!(sel[0].name.as_str(), "b");
    assert_eq!(sel[0].model_path.as_str(), "/p/b");
}

#[test]
fn selection_drops_models_without_artifact_path() {
    let models = vec![discovered("a", None), discovered("b", Some("/p/b"))];
    let sel = select_models(&models, None, true);
    assert_eq!(sel.len(), 1);
    assert_eq!(sel[0].name.as_str(), "b");
}

#[test]
fn selection_none_when_import_all_disabled() {
    let models = vec![discovered("a", Some("/p/a"))];
    let sel = select_models(&models, None, false);
    assert_eq!(sel.len(), 0);
}

#[test]
fn merge_vec_is_set_union_with_order() {
    let mut target = vec!["a".to_string()];
    merge_vec(&mut target, &vec!["a".to_string(), "b".to_string()]);
    merge_vec(&mut target, &vec!["b".to_string(), "c".to_string()]);
    let got: Vec<&str> = target.iter().map(|s| s.as_str()).collect();
    assert_eq!(got, vec!["a", "b", "c"]);
}

#[test]
fn filter_merge_is_key_wise_upsert() {
    let mut config = Config::default();
    let mut entry = ModelConfig::new("/p/m".to_string());
    entry.filters.upsert("temp".to_string(), "0.2".to_string());
    entry.filters.upsert("gpu".to_string(), "1".to_string());
    config.models.upsert("m".to_string(), entry);

    let args = base_args();
    let selected = vec![SelectedModel {
        name: "m".to_string(),
        model_path: "/p/m".to_string(),
    }];
    let filter_dirs = vec!["m=temp:0.5".to_string()];
    let filter_specs = parse_multi_kv_map(Some(&filter_dirs));
    let alias_specs = parse_multi_map(None);
    let templates = command_templates(&args);
    import_models(&mut config, &args, &selected, &alias_specs, &filter_specs, &templates);

    let m = config.models.get("m").unwrap();
    assert_eq!(m.filters.len(), 2);
    assert_eq!(m.filters.get("temp").unwrap().as_str(), "0.5");
    assert_eq!(m.filters.get("gpu").unwrap().as_str(), "1");
}

#[test]
fn alias_merge_through_import_keeps_existing_and_appends_new() {
    let mut config = Config::default();
    let mut entry = ModelConfig::new("/p/m".to_string());
    entry.aliases.push("a".to_string());
    config.models.upsert("m".to_string(), entry);

    let args = base_args();
    let selected = vec![SelectedModel {
        name: "m".to_string(),
        model_path: "/p/m".to_string(),
    }];
    let alias_dirs = vec!["m=a|b".to_string(), "m=b|c".to_string()];
    let alias_specs = parse_multi_map(Some(&alias_dirs));
    let filter_specs = parse_multi_kv_map(None);
    let templates = command_templates(&args);
    import_models(&mut config, &args, &selected, &alias_specs, &filter_specs, &templates);

    let m = config.models.get("m").unwrap();
    let got: Vec<&str> = m.aliases.iter().map(|s| s.as_str()).collect();
    assert_eq!(got, vec!["a", "b", "c"]);
}

#[test]
fn existing_entry_keeps_command_unless_template_requested() {
    let mut config = Config::default();
    config
        .models
        .upsert("m".to_string(), ModelConfig::new("old-cmd".to_string()));
    let args = base_args();
    let selected = vec![SelectedModel {
        name: "m".to_string(),
        model_path: "/p/m".to_string(),
    }];
    let alias_specs = parse_multi_map(None);
    let filter_specs = parse_multi_kv_map(None);
    let templates = command_templates(&args);
    import_models(&mut config, &args, &selected, &alias_specs, &filter_specs, &templates);
    assert_eq!(config.models.get("m").unwrap().cmd.as_str(), "old-cmd");

    let mut args2 = base_args();
    args2.cmd_template = Some("run {model_path}".to_string());
    let templates2 = command_templates(&args2);
    import_models(&mut config, &args2, &selected, &alias_specs, &filter_specs, &templates2);
    assert_eq!(config.models.get("m").unwrap().cmd.as_str(), "run /p/m");
}

#[test]
fn new_entry_uses_default_template_and_unlisted_flag() {
    let mut config = Config::default();
    let mut args = base_args();
    args.unlisted = true;
    args.stop_cmd_template = Some("stop {model_name}".to_string());
    let selected = vec![SelectedModel {
        name: "m".to_string(),
        model_path: "/p/m".to_string(),
    }];
    let alias_specs = parse_multi_map(None);
    let filter_specs = parse_multi_kv_map(None);
    let templates = command_templates(&args);
    import_models(&mut config, &args, &selected, &alias_specs, &filter_specs, &templates);
    let m = config.models.get("m").unwrap();
    assert_eq!(m.cmd.as_str(), "/p/m");
    assert_eq!(m.cmd_stop.as_ref().unwrap().as_str(), "stop m");
    assert!(m.unlisted);
}

#[test]
fn merge_preserves_unrelated_entries() {
    let mut config = Config::default();
    let mut other = ModelConfig::new("keep-cmd".to_string());
    other.ttl = Some(60);
    other.aliases.push("kept".to_string());
    config.models.upsert("other".to_string(), other);

    let mut args = base_args();
    args.cmd_template = Some("run {model_path}".to_string());
    let selected = vec![SelectedModel {
        name: "m".to_string(),
        model_path: "/p/m".to_string(),
    }];
    let alias_specs = parse_multi_map(None);
    let filter_specs = parse_multi_kv_map(None);
    let templates = command_templates(&args);
    import_models(&mut config, &args, &selected, &alias_specs, &filter_specs, &templates);

    let kept = config.models.get("other").unwrap();
    assert_eq!(kept.cmd.as_str(), "keep-cmd");
    assert_eq!(kept.ttl, Some(60));
    assert_eq!(kept.aliases, vec!["kept".to_string()]);
    assert!(config.models.get("m").is_some());
}

#[test]
fn grouping_no_op_when_group_exists() {
    let mut config = Config::default();
    let existing = swap_import::config::GroupConfig {
        swap: None,
        exclusive: Some(true),
        persistent: None,
        members: vec!["x".to_string()],
    };
    config.groups.upsert("imported".to_string(), existing);

    let mut args = base_args();
    args.single_group = true;
    let selected = vec![SelectedModel {
        name: "m".to_string(),
        model_path: "/p/m".to_string(),
    }];
    apply_single_group(&mut config, &args, &selected);

    assert_eq!(config.groups.len(), 1);
    let g = config.groups.get("imported").unwrap();
    assert_eq!(g.swap, None);
    assert_eq!(g.exclusive, Some(true));
    assert_eq!(g.members, vec!["x".to_string()]);
}

#[test]
fn grouping_creates_swap_group_with_members_in_order() {
    let mut config = Config::default();
    let mut args = base_args();
    args.single_group = true;
    args.single_group_name = Some("mine".to_string());
    let selected = vec![
        SelectedModel {
            name: "a".to_string(),
            model_path: "/p/a".to_string(),
        },
        SelectedModel {
            name: "b".to_string(),
            model_path: "/p/b".to_string(),
        },
    ];
    apply_single_group(&mut config, &args, &selected);
    let g = config.groups.get("mine").unwrap();
    assert_eq!(g.swap, Some(true));
    assert_eq!(g.exclusive, None);
    assert_eq!(g.persistent, None);
    assert_eq!(g.members, vec!["a".to_string(), "b".to_string()]);
}

#[test]
fn top_level_and_macro_overrides() {
    let mut config = Config::default();
    assert_eq!(config.health_check_timeout, Some(120));
    assert!(matches!(config.log_level, Some(LogLevel::Info)));

    let mut args = base_args();
    args.health_check_timeout = Some(30);
    args.start_port = Some(6000);
    args.macro_override = Some(vec![" port = 9000 ".to_string(), "malformed".to_string()]);
    apply_top_level_overrides(&mut config, &args);
    apply_macro_overrides(&mut config, &args);

    assert_eq!(config.health_check_timeout, Some(30));
    assert_eq!(config.start_port, Some(6000));
    assert!(matches!(config.log_level, Some(LogLevel::Info)));
    assert_eq!(config.macros.len(), 1);
    assert_eq!(config.macros.get("port").unwrap().as_str(), "9000");
}

#[test]
fn second_run_with_same_inputs_changes_nothing() {
    let discovered_models = vec![
        discovered("llama", Some("/p/llama.bin")),
        discovered("phi", Some("/p/phi.bin")),
        discovered("broken", None),
    ];
    let mut args = base_args();
    args.cmd_template = Some("serve {model_path} --id {model_name}".to_string());
    args.stop_cmd_template = Some("halt {model_name}".to_string());
    args.alias = Some(vec!["llama=ll|meta".to_string()]);
    args.filter = Some(vec!["phi=temp:0.7".to_string()]);
    args.macro_override = Some(vec!["port=9000".to_string()]);
    args.single_group = true;
    args.health_check_timeout = Some(45);

    let mut config = Config::default();
    synthesize(&mut config, &args, &discovered_models);

    let mut second = Config::default();
    synthesize(&mut second, &args, &discovered_models);
    assert!(config_eq(&config, &second));

    let mut rerun = duplicate_config(&config);
    synthesize(&mut rerun, &args, &discovered_models);
    assert!(config_eq(&config, &rerun));
}

fn duplicate_config(c: &Config) -> Config {
    let mut out = Config::default();
    out.health_check_timeout = c.health_check_timeout;
    out.log_level = c.log_level;
    out.start_port = c.start_port;
    out.macros = c.macros.duplicate();
    out.models = KvMap::new();
    let mut i = 0;
    while i < c.models.len() {
        out.models
            .upsert(c.models.key_at(i).clone(), c.models.value_at(i).duplicate());
        i += 1;
    }
    let mut j = 0;
    while j < c.groups.len() {
        let g = c.groups.value_at(j);
        out.groups.upsert(
            c.groups.key_at(j).clone(),
            swap_import::config::GroupConfig {
                swap: g.swap,
                exclusive: g.exclusive,
                persistent: g.persistent,
                members: g.members.clone(),
            },
        );
        j += 1;
    }
    out
}
