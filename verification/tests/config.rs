use polyresearch::cli::NodeOverrides;
use polyresearch::config::{
    node_config_path, node_id_override, parse_bool, parse_duration, parse_markdown_item,
    parse_markdown_list, warn_if_legacy_fields, AgentConfig, MetricDirection, NodeConfig,
    ProgramSpec, ProtocolConfig, DEFAULT_AGENT_FLAGS, DEFAULT_AGENT_TIMEOUT_SECS,
    DEFAULT_API_BUDGET, DEFAULT_CAPACITY, DEFAULT_REQUEST_DELAY_MS,
};

#[test]
fn parses_markdown_lists() {
    let contents = r#"
## What you CAN modify
- `lib/` — the entire lib directory
- tools/**/*.py - helper scripts
- scripts/**/*.sh – shell helpers

## What you CANNOT modify
- `PREPARE.md` — trust boundary
- docs/** - generated docs
"#;

    assert_eq!(
        parse_markdown_list(contents, "## What you CAN modify"),
        vec![
            "lib/".to_string(),
            "tools/**/*.py".to_string(),
            "scripts/**/*.sh".to_string()
        ]
    );
    assert_eq!(
        parse_markdown_list(contents, "## What you CANNOT modify"),
        vec!["PREPARE.md".to_string(), "docs/**".to_string()]
    );
}

#[test]
fn extracts_backtick_content_before_description() {
    assert_eq!(
        parse_markdown_item("`lib/` — the entire lib directory"),
        Some("lib/".to_string())
    );
}

#[test]
fn ignores_backticks_in_description_when_pattern_is_not_wrapped() {
    assert_eq!(
        parse_markdown_item("docs/** - generated from `source`"),
        Some("docs/**".to_string())
    );
}

#[test]
fn splits_on_the_earliest_separator_position() {
    assert_eq!(
        parse_markdown_item("tools/**/*.py - utilities — note"),
        Some("tools/**/*.py".to_string())
    );
}

#[test]
fn editable_directory_patterns_match_descendants() {
    let program = ProgramSpec {
        can_modify: vec!["lib/".to_string()],
        cannot_modify: Vec::new(),
    };

    assert!(program.is_editable("lib/rules/indent.js").unwrap());
    assert!(
        program
            .is_editable("lib/linter/source-code-traverser.js")
            .unwrap()
    );
    assert!(!program.is_editable("tests/lib/rules/indent.js").unwrap());
}

#[test]
fn protected_directory_patterns_match_descendants() {
    let program = ProgramSpec {
        can_modify: vec!["lib/".to_string()],
        cannot_modify: vec!["lib/generated/".to_string()],
    };

    assert!(program.is_protected("lib/generated/config.js"));
    assert!(!program.is_protected("lib/rules/indent.js"));
}

#[test]
fn parses_bool_values() {
    assert!(parse_bool("true").unwrap());
    assert!(!parse_bool("false").unwrap());
}

#[test]
fn defaults_capacity_when_zero() {
    let config = NodeConfig::new(
        "node-7f83",
        0,
        DEFAULT_API_BUDGET,
        DEFAULT_REQUEST_DELAY_MS,
        None,
        "agent",
    );
    assert_eq!(config.capacity, DEFAULT_CAPACITY);
}

#[test]
fn clamps_capacity_above_one_hundred() {
    let config = NodeConfig::new(
        "node-7f83",
        200,
        DEFAULT_API_BUDGET,
        DEFAULT_REQUEST_DELAY_MS,
        None,
        "agent",
    );
    assert_eq!(config.capacity, 100);
}

#[test]
fn defaults_api_budget_when_missing() {
    let config = NodeConfig::new(
        "node-7f83",
        DEFAULT_CAPACITY,
        0,
        DEFAULT_REQUEST_DELAY_MS,
        None,
        "agent",
    );
    assert_eq!(config.effective_api_budget(), DEFAULT_API_BUDGET);
}

#[test]
fn defaults_request_delay_when_zero() {
    let config = NodeConfig::new("node-7f83", DEFAULT_CAPACITY, DEFAULT_API_BUDGET, 0, None, "agent");
    assert_eq!(
        config.effective_request_delay_ms(),
        DEFAULT_REQUEST_DELAY_MS
    );
}

#[test]
fn check_cli_version_passes_when_matching() {
    let config = ProtocolConfig {
        cli_version: Some("1.2.3".to_string()),
        ..Default::default()
    };
    assert!(config.check_cli_version("1.2.3").is_ok());
}

#[test]
fn check_cli_version_fails_on_mismatch() {
    let config = ProtocolConfig {
        cli_version: Some("2.0.0".to_string()),
        ..Default::default()
    };
    let err = config.check_cli_version("1.2.3").unwrap_err();
    assert!(err.contains("v2.0.0"));
    assert!(err.contains("v1.2.3"));
}

#[test]
fn check_cli_version_skipped_when_unset() {
    let config = ProtocolConfig::default();
    assert!(config.check_cli_version("0.0.0").is_ok());
}

#[test]
fn with_overrides_applies_capacity() {
    let config = NodeConfig::new(
        "n",
        DEFAULT_CAPACITY,
        DEFAULT_API_BUDGET,
        DEFAULT_REQUEST_DELAY_MS,
        None,
        "agent",
    );
    let overrides = NodeOverrides {
        capacity: Some(42),
        ..Default::default()
    };
    let updated = config.with_overrides(&overrides);
    assert_eq!(updated.capacity, 42);
    assert_eq!(updated.api_budget, DEFAULT_API_BUDGET);
    assert_eq!(updated.request_delay_ms, DEFAULT_REQUEST_DELAY_MS);
    assert_eq!(updated.agent, AgentConfig::default("agent"));
}

#[test]
fn with_overrides_applies_api_budget() {
    let config = NodeConfig::new(
        "n",
        DEFAULT_CAPACITY,
        DEFAULT_API_BUDGET,
        DEFAULT_REQUEST_DELAY_MS,
        None,
        "agent",
    );
    let overrides = NodeOverrides {
        api_budget: Some(10_000),
        ..Default::default()
    };
    let updated = config.with_overrides(&overrides);
    assert_eq!(updated.api_budget, 10_000);
    assert_eq!(updated.capacity, DEFAULT_CAPACITY);
}

#[test]
fn with_overrides_applies_request_delay() {
    let config = NodeConfig::new(
        "n",
        DEFAULT_CAPACITY,
        DEFAULT_API_BUDGET,
        DEFAULT_REQUEST_DELAY_MS,
        None,
        "agent",
    );
    let overrides = NodeOverrides {
        request_delay: Some(500),
        ..Default::default()
    };
    let updated = config.with_overrides(&overrides);
    assert_eq!(updated.request_delay_ms, 500);
}

#[test]
fn with_overrides_applies_agent_command() {
    let config = NodeConfig::new(
        "n",
        DEFAULT_CAPACITY,
        DEFAULT_API_BUDGET,
        DEFAULT_REQUEST_DELAY_MS,
        None,
        "agent",
    );
    let overrides = NodeOverrides {
        agent_command: Some("codex --full-auto".to_string()),
        ..Default::default()
    };
    let updated = config.with_overrides(&overrides);
    assert_eq!(updated.agent.command, "codex --full-auto");
}

#[test]
fn with_overrides_applies_all_fields() {
    let config = NodeConfig::new("n", 50, 3000, 200, None, "agent");
    let overrides = NodeOverrides {
        capacity: Some(80),
        api_budget: Some(9000),
        request_delay: Some(300),
        agent_command: Some("my-agent run".to_string()),
        agent_timeout: Some(120),
    };
    let updated = config.with_overrides(&overrides);
    assert_eq!(updated.capacity, 80);
    assert_eq!(updated.api_budget, 9000);
    assert_eq!(updated.request_delay_ms, 300);
    assert_eq!(updated.agent.command, "my-agent run");
    assert_eq!(updated.agent.timeout_secs, 120);
    assert_eq!(updated.node_id, "n");
}

#[test]
fn with_overrides_empty_leaves_unchanged() {
    let config = NodeConfig::new(
        "n",
        50,
        3000,
        200,
        Some(AgentConfig {
            command: "original".to_string(),
            ..AgentConfig::default("agent")
        }),
        "agent",
    );
    let overrides = NodeOverrides::default();
    let updated = config.clone().with_overrides(&overrides);
    assert_eq!(updated, config);
}

#[test]
fn with_overrides_normalizes_zero_capacity() {
    let config = NodeConfig::new("n", 50, DEFAULT_API_BUDGET, DEFAULT_REQUEST_DELAY_MS, None, "agent");
    let overrides = NodeOverrides {
        capacity: Some(0),
        ..Default::default()
    };
    let updated = config.with_overrides(&overrides);
    assert_eq!(updated.capacity, DEFAULT_CAPACITY);
}

#[test]
fn agent_config_default_timeout() {
    let agent = AgentConfig::default("agent");
    assert_eq!(agent.timeout_secs, DEFAULT_AGENT_TIMEOUT_SECS);
}

#[test]
fn with_overrides_applies_agent_timeout() {
    let config = NodeConfig::new(
        "n",
        DEFAULT_CAPACITY,
        DEFAULT_API_BUDGET,
        DEFAULT_REQUEST_DELAY_MS,
        None,
        "agent",
    );
    let overrides = NodeOverrides {
        agent_timeout: Some(120),
        ..Default::default()
    };
    let updated = config.with_overrides(&overrides);
    assert_eq!(updated.agent.timeout_secs, 120);
    assert_eq!(updated.agent.command, AgentConfig::default("agent").command);
}

#[test]
fn parses_duration_suffixes() {
    assert_eq!(parse_duration("24h").unwrap(), 24 * 60 * 60);
    assert_eq!(parse_duration("12m").unwrap(), 12 * 60);
    assert_eq!(parse_duration("9s").unwrap(), 9);
}

#[test]
fn durations_need_a_number_and_a_suffix() {
    assert!(parse_duration("").is_err());
    assert!(parse_duration("12").is_err());
    assert!(parse_duration("xh").is_err());
    assert!(parse_duration("12w").is_err());
    assert_eq!(parse_duration(" 2d ").unwrap(), 172_800);
    assert!(parse_duration("18446744073709551615h").is_err());
}

#[test]
fn booleans_are_written_in_two_ways() {
    assert!(parse_bool("yes").is_err());
    assert!(parse_bool("").is_err());
}

fn node_file(node_id: &str, capacity: u8, api_budget: u64, request_delay_ms: u64) -> NodeConfig {
    NodeConfig {
        node_id: node_id.to_string(),
        capacity,
        api_budget,
        request_delay_ms,
        agent: AgentConfig::default("agent"),
    }
}

#[test]
fn loads_node_config_from_toml() {
    let path = node_config_path("/repo");
    let file = node_file("node-7f83", 50, 15_000, 250);
    let config = NodeConfig::load(&path, &None, Some(Ok(file)), "agent").unwrap();
    assert_eq!(config.node_id, "node-7f83");
    assert_eq!(config.capacity, 50);
    assert_eq!(config.api_budget, 15_000);
    assert_eq!(config.request_delay_ms, 250);
}

#[test]
fn loads_legacy_toml_with_sub_agents_and_resource_policy() {
    let contents = r#"node_id = "node-legacy"
sub_agents = 4
resource_policy = "Keep CPUs busy."
api_budget = 5000
"#;
    let file = node_file("node-legacy", DEFAULT_CAPACITY, 5_000, 0);
    let config = NodeConfig::load("n", &None, Some(Ok(file)), "agent").unwrap();
    assert_eq!(config.node_id, "node-legacy");
    assert_eq!(config.capacity, DEFAULT_CAPACITY);
    assert_eq!(config.api_budget, 5_000);
    let warnings = warn_if_legacy_fields(contents);
    assert_eq!(warnings.len(), 4);
    assert!(warnings[1].contains("`sub_agents` is no longer read"));
    assert!(warn_if_legacy_fields("node_id = \"n\"\n").is_empty());
}

#[test]
fn env_override_wins_over_file_node_id() {
    let file = node_file("file-node", 50, 0, 0);
    let config = NodeConfig::load("n", &Some("env-node".to_string()), Some(Ok(file)), "agent").unwrap();
    assert_eq!(config.node_id, "env-node");
    assert_eq!(config.capacity, 50);
    assert_eq!(config.request_delay_ms, DEFAULT_REQUEST_DELAY_MS);
}

#[test]
fn env_override_allows_loading_without_file() {
    let config = NodeConfig::load("n", &Some("env-node".to_string()), None, "agent").unwrap();
    assert_eq!(config.node_id, "env-node");
    assert_eq!(config.capacity, DEFAULT_CAPACITY);
    assert_eq!(config.request_delay_ms, DEFAULT_REQUEST_DELAY_MS);
}

#[test]
fn env_override_ignores_invalid_file_contents() {
    let file = Some(Err("expected an equals sign".to_string()));
    let config = NodeConfig::load("n", &Some("env-node".to_string()), file, "agent").unwrap();
    assert_eq!(config.node_id, "env-node");
    assert_eq!(config.capacity, DEFAULT_CAPACITY);
    assert_eq!(config.request_delay_ms, DEFAULT_REQUEST_DELAY_MS);
}

#[test]
fn a_node_without_identity_is_refused() {
    let missing = NodeConfig::load("n", &None, None, "agent").unwrap_err();
    assert!(missing.contains("polyresearch init"));
    let broken = NodeConfig::load("n", &None, Some(Err("bad".to_string())), "agent").unwrap_err();
    assert_eq!(broken, "bad");
    let empty = NodeConfig::load("n.toml", &None, Some(Ok(node_file("  ", 1, 1, 1))), "agent").unwrap_err();
    assert_eq!(empty, "node_id in n.toml cannot be empty");
    assert_eq!(node_id_override(&Some("   ".to_string())), None);
}

#[test]
fn load_api_budget_reads_custom_value() {
    assert_eq!(NodeConfig::load_api_budget(Some(&node_file("n", 75, 1000, 0))), 1_000);
}

#[test]
fn load_api_budget_defaults_when_file_missing() {
    assert_eq!(NodeConfig::load_api_budget(None), DEFAULT_API_BUDGET);
}

#[test]
fn load_request_delay_ms_reads_custom_value() {
    assert_eq!(NodeConfig::load_request_delay_ms(Some(&node_file("n", 75, 0, 250))), 250);
}

#[test]
fn load_request_delay_ms_defaults_when_file_missing() {
    assert_eq!(NodeConfig::load_request_delay_ms(None), DEFAULT_REQUEST_DELAY_MS);
}

#[test]
fn load_request_delay_ms_defaults_when_field_absent() {
    assert_eq!(
        NodeConfig::load_request_delay_ms(Some(&node_file("n", 75, 0, 0))),
        DEFAULT_REQUEST_DELAY_MS
    );
}

#[test]
fn load_api_budget_defaults_when_field_absent() {
    assert_eq!(NodeConfig::load_api_budget(Some(&node_file("n", 75, 0, 0))), DEFAULT_API_BUDGET);
}

#[test]
fn loads_protocol_config_from_key_value() {
    let config = ProtocolConfig::load(Some(
        r#"# Research Program

lead_github_login: alice
maintainer_github_login: bob
min_queue_depth: 3
auto_approve: false
metric_tolerance: 10

## Goal

Do something.
"#,
    ))
    .unwrap();
    assert_eq!(config.lead_github_login.as_deref(), Some("alice"));
    assert_eq!(config.maintainer_github_login.as_deref(), Some("bob"));
    assert_eq!(config.min_queue_depth, 3);
    assert!(!config.auto_approve);
    let tolerance: f64 = config.metric_tolerance.unwrap().parse().unwrap();
    assert_eq!(tolerance, 10.0);
}

#[test]
fn ignores_prose_lines_with_colons() {
    let config = ProtocolConfig::load(Some(
        r#"# Research Program

lead_github_login: alice
**Baseline**: ~399 ms (mean of 5 runs)

## Goal

Do something.
"#,
    ))
    .unwrap();
    assert_eq!(config.lead_github_login.as_deref(), Some("alice"));
}

#[test]
fn loads_cli_version_from_program() {
    let config = ProtocolConfig::load(Some(
        "# Research Program\n\ncli_version: 1.2.3\n\n## Goal\n\nDo something.\n",
    ))
    .unwrap();
    assert_eq!(config.cli_version.as_deref(), Some("1.2.3"));
}

#[test]
fn cli_version_defaults_to_none() {
    let config = ProtocolConfig::load(Some(
        "# Research Program\n\nlead_github_login: alice\n\n## Goal\n\nDo something.\n",
    ))
    .unwrap();
    assert!(config.cli_version.is_none());
}

#[test]
fn a_lead_has_to_be_named() {
    let config = ProtocolConfig::load(Some("# P\n\n# lead_github_login: eve\n")).unwrap();
    assert!(config.lead_github_login.is_none());
    assert!(config.lead_login().is_err());
    assert!(config.maintainer_login().is_err());
    assert!(config.tolerance().is_err());
}

#[test]
fn every_setting_is_read() {
    let config = ProtocolConfig::load(Some(
        "required_confirmations: 2\nmetric_direction: lower_is_better\nassignment_timeout: 2h\nreview_timeout: 30m\nmax_queue_depth: 9\ndefault_branch: trunk\n",
    ))
    .unwrap();
    assert_eq!(config.required_confirmations, 2);
    assert_eq!(config.metric_direction, MetricDirection::LowerIsBetter);
    assert_eq!(config.assignment_timeout, 7200);
    assert_eq!(config.review_timeout, 1800);
    assert_eq!(config.max_queue_depth, Some(9));
    assert_eq!(config.resolve_default_branch(None), "trunk");
    assert!(ProtocolConfig::load(Some("required_confirmations: two\n")).is_err());
    assert!(ProtocolConfig::load(Some("assignment_timeout: soon\n")).is_err());
    assert!(ProtocolConfig::load(None).is_ok());
}

#[test]
fn the_default_branch_comes_from_git_where_the_program_names_none() {
    let config = ProtocolConfig::default();
    assert_eq!(config.resolve_default_branch(Some("origin/develop\n")), "develop");
    assert_eq!(config.resolve_default_branch(None), "main");
}

#[test]
fn normalizing_an_agent_keeps_a_given_command() {
    let config = NodeConfig::new("n", 50, 1, 1, None, "agent");
    assert_eq!(DEFAULT_AGENT_FLAGS, " -p --dangerously-skip-permissions");
    assert_eq!(config.agent.command, "agent -p --dangerously-skip-permissions");
    let again = NodeConfig::new(
        &config.node_id,
        config.capacity,
        config.api_budget,
        config.request_delay_ms,
        Some(config.agent.clone()),
        "agent",
    );
    assert_eq!(again, config);
}

#[test]
fn single_globs_do_not_cross_directories() {
    let program = ProgramSpec::from_globs(vec!["src/*.rs".to_string()], vec![]);
    assert!(program.is_editable("src/a.rs").unwrap());
    let set = program.editable_globset().unwrap();
    assert!(set.is_match("src/a.rs"));
    assert!(!set.is_match("docs/a.md"));
    let bad = ProgramSpec::from_globs(vec!["src/[".to_string()], vec![]);
    assert!(bad.is_editable("src/a.rs").is_err());
}

#[test]
fn a_program_lists_its_surface() {
    let program = ProgramSpec::load("## What you CAN modify\n- `lib/`\n\n## What you CANNOT modify\n- `lib/gen/`\n");
    assert_eq!(program.can_modify, vec!["lib/".to_string()]);
    assert!(program.is_protected("lib/gen/x.rs"));
}
