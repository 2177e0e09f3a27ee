use periodic_commands::cli::CliArgs;
use periodic_commands::config::schema::{Schema, Target, TargetCommand};
use periodic_commands::config::{
    apply_cli_overrides, check_config_labels, check_config_regex, check_regex, config_dir_name,
    config_file_in, config_file_name, config_text, expand_dirs, find_config, finish_config,
    first_config, has_bom, has_group, is_valid_name, linux_config_dirs, strip_bom,
    validate_config_labels, validate_config_regex, windows_config_dirs, ConfigError,
};

fn one_target(name: &str, regex: &str, regex_named_group: &str) -> Schema {
    Schema {
        targets: vec![Target {
            name: name.to_string(),
            commands: vec![TargetCommand { command: "".to_string(), labels: vec![] }],
            regex: regex.to_string(),
            regex_named_group: regex_named_group.to_string(),
            success_exit_codes: vec![],
            run_every: Default::default(),
        }],
        host: "".to_string(),
        port: 0,
    }
}

fn no_args() -> CliArgs {
    CliArgs { config_file: None, host: None, port: None }
}

#[test]
fn validate_config_labels_valid() {
    let config = one_target("valid_name", "", "");

    validate_config_labels(&config);
}

#[test]
#[should_panic]
fn validate_config_labels_invalid() {
    let config = one_target("\"\"\"dasdassd-_3213$$212", "", "");

    validate_config_labels(&config);
}

#[test]
fn validate_config_regex_valid() {
    let config = one_target("", "(?<result>.*)", "result");

    validate_config_regex(&config);
}

#[test]
#[should_panic]
fn validate_config_regex_invalid_regex() {
    let config = one_target("", "(?<result.*)", "result");

    validate_config_regex(&config);
}

#[test]
#[should_panic]
fn validate_config_regex_missing_group() {
    let config = one_target("", "(.*)", "result");

    validate_config_regex(&config);
}

#[test]
fn names_follow_the_metric_name_grammar() {
    for name in ["a", "_", "A9", "valid_name", "__x__", "Zz09_", "disk_free"] {
        assert!(is_valid_name(name), "{}", name);
    }
    for name in ["", "9a", "a-b", "a b", " a", "a ", "a\n", "é", "aé", "a.b", "\"\"\"dasdassd-_3213$$212"] {
        assert!(!is_valid_name(name), "{}", name);
    }
}

#[test]
fn names_are_judged_as_the_pattern_for_metric_names_judges_them() {
    let pattern = regex::bytes::Regex::new(r"^[a-zA-Z_][a-zA-Z0-9_]*$").unwrap();
    let alphabet = ['a', 'Z', '_', '0', '9', '-', ' ', '\n', '$', 'é', '{', '@', '[', '`', '/', ':'];
    let mut names: Vec<String> = vec![String::new()];
    let mut from = 0;
    for _ in 0..3 {
        let until = names.len();
        for i in from..until {
            for c in alphabet {
                let mut longer = names[i].clone();
                longer.push(c);
                names.push(longer);
            }
        }
        from = until;
    }
    assert_eq!(names.len(), 1 + 16 + 256 + 4096);
    for name in names {
        assert_eq!(is_valid_name(&name), pattern.is_match(name.as_bytes()), "{:?}", name);
    }
}

#[test]
fn the_first_invalid_name_is_reported() {
    let mut config = one_target("ok", "", "");
    config.targets.push(config.targets[0].clone());
    config.targets.push(config.targets[0].clone());
    config.targets[1].name = "not ok".to_string();
    config.targets[2].name = "".to_string();
    assert_eq!(check_config_labels(&config), Err(ConfigError::InvalidName { target: 1 }));
    config.targets[1].name = "fine".to_string();
    assert_eq!(check_config_labels(&config), Err(ConfigError::InvalidName { target: 2 }));
    config.targets.clear();
    assert_eq!(check_config_labels(&config), Ok(()));
}

#[test]
fn the_first_invalid_pattern_is_reported() {
    let mut config = one_target("a", "(?<v>.*)", "v");
    config.targets.push(config.targets[0].clone());
    config.targets.push(config.targets[0].clone());
    config.targets[1].regex = "(.*)".to_string();
    config.targets[2].regex = "(?<v".to_string();
    assert_eq!(check_config_regex(&config), Err(ConfigError::MissingGroup { target: 1 }));
    config.targets[1].regex = "x(?<v>[0-9]+)".to_string();
    match check_config_regex(&config) {
        Err(ConfigError::InvalidRegex { target, reason }) => {
            assert_eq!(target, 2);
            assert!(!reason.is_empty());
        }
        other => panic!("unexpected: {:?}", other),
    }
    config.targets.clear();
    assert_eq!(check_config_regex(&config), Ok(()));
}

#[test]
fn a_group_is_a_group_in_whichever_syntax() {
    assert_eq!(check_config_regex(&one_target("a", "(?P<v>.*)", "v")), Ok(()));
    assert_eq!(check_config_regex(&one_target("a", "(?<v>.*)", "v")), Ok(()));
    assert_eq!(check_config_regex(&one_target("a", "x(?:y(?<v>z))", "v")), Ok(()));
}

#[test]
fn text_that_looks_like_a_group_is_none() {
    assert_eq!(
        check_config_regex(&one_target("a", "[(?<v>]x", "v")),
        Err(ConfigError::MissingGroup { target: 0 })
    );
    assert_eq!(
        check_config_regex(&one_target("a", r"\(\?<v>(?<w>.)", "v")),
        Err(ConfigError::MissingGroup { target: 0 })
    );
    assert_eq!(
        check_config_regex(&one_target("a", "(?<value>.)", "v")),
        Err(ConfigError::MissingGroup { target: 0 })
    );
    assert_eq!(
        check_config_regex(&one_target("a", "(.)", "")),
        Err(ConfigError::MissingGroup { target: 0 })
    );
}

#[test]
fn a_pattern_is_checked_as_it_is_handed_to_the_engine_for_a_run() {
    // Accepted for bytes, not for text: it may match what is not UTF-8.
    assert!(regex::bytes::Regex::new(r"(?-u:\xff)(?<v>.)").is_ok());
    assert!(matches!(
        check_config_regex(&one_target("a", r"(?-u:\xff)(?<v>.)", "v")),
        Err(ConfigError::InvalidRegex { target: 0, .. })
    ));
}

#[test]
fn has_group_looks_for_a_name() {
    let names = vec![None, Some("v".to_string()), None, Some("w".to_string())];
    assert!(has_group(&names, &"v".to_string()));
    assert!(has_group(&names, &"w".to_string()));
    assert!(!has_group(&names, &"x".to_string()));
    assert!(!has_group(&names, &"".to_string()));
    assert!(!has_group(&vec![], &"v".to_string()));
}

#[test]
fn a_valid_configuration_passes() {
    let config = one_target("disk_free", "free=(?<free>[0-9.]+)", "free");
    validate_config_labels(&config);
    validate_config_regex(&config);
    assert_eq!(check_config_labels(&config), Ok(()));
    assert_eq!(check_config_regex(&config), Ok(()));
}

#[test]
fn check_regex_judges_what_the_engine_said() {
    let config = one_target("a", "(?<v>.*)", "v");
    let target = &config.targets[0];
    let names = vec![None, Some("v".to_string())];
    assert_eq!(check_regex(target, 4, Ok(names)), Ok(()));
    assert_eq!(
        check_regex(target, 4, Err("bad".to_string())),
        Err(ConfigError::InvalidRegex { target: 4, reason: "bad".to_string() })
    );
    let names = vec![None, Some("w".to_string())];
    assert_eq!(check_regex(target, 7, Ok(names)), Err(ConfigError::MissingGroup { target: 7 }));
    assert_eq!(check_regex(target, 7, Ok(vec![])), Err(ConfigError::MissingGroup { target: 7 }));
}

#[test]
fn a_byte_order_mark_is_stripped() {
    assert_eq!(strip_bom(vec![0xEF, 0xBB, 0xBF, b'a', b'b']), vec![b'a', b'b']);
    assert_eq!(strip_bom(vec![0xEF, 0xBB, 0xBF]), Vec::<u8>::new());
    assert_eq!(strip_bom(vec![0xEF, 0xBB, b'a']), vec![0xEF, 0xBB, b'a']);
    assert_eq!(strip_bom(vec![b'a', 0xEF, 0xBB, 0xBF]), vec![b'a', 0xEF, 0xBB, 0xBF]);
    assert_eq!(strip_bom(vec![0xEF, 0xBB]), vec![0xEF, 0xBB]);
    assert_eq!(strip_bom(vec![]), Vec::<u8>::new());
    assert!(has_bom(&vec![0xEF, 0xBB, 0xBF, b'a']));
    assert!(has_bom(&vec![0xEF, 0xBB, 0xBF]));
    assert!(!has_bom(&vec![0xEF, 0xBB]));
    assert!(!has_bom(&vec![0xEF, 0xBB, 0xBE]));
    assert!(!has_bom(&vec![]));
}

#[test]
fn config_text_reads_utf8() {
    assert_eq!(config_text(b"host: localhost".to_vec()), Ok("host: localhost".to_string()));
    assert_eq!(config_text(b"\xEF\xBB\xBFport: 1".to_vec()), Ok("port: 1".to_string()));
    assert_eq!(config_text("käse".as_bytes().to_vec()), Ok("käse".to_string()));
    assert_eq!(config_text(vec![]), Ok("".to_string()));
    assert_eq!(config_text(vec![b'a', 0xFF]), Err(ConfigError::NotText));
    assert_eq!(config_text(vec![0xEF, 0xBB, 0xBF, 0xC0]), Err(ConfigError::NotText));
}

#[test]
fn the_command_line_overrides_host_and_port() {
    let mut config = one_target("a", "(?<v>.*)", "v");
    config.host = "0.0.0.0".to_string();
    config.port = 9100;
    let same = apply_cli_overrides(config.clone(), &no_args());
    assert_eq!(same, config);
    let cli = CliArgs { config_file: None, host: Some("::1".to_string()), port: None };
    let changed = apply_cli_overrides(config.clone(), &cli);
    assert_eq!(changed.host, "::1");
    assert_eq!(changed.port, 9100);
    assert_eq!(changed.targets, config.targets);
    let cli = CliArgs { config_file: Some("x".to_string()), host: None, port: Some(80) };
    let changed = apply_cli_overrides(config.clone(), &cli);
    assert_eq!(changed.host, "0.0.0.0");
    assert_eq!(changed.port, 80);
}

#[test]
fn finish_config_overrides_then_validates() {
    let config = one_target("a", "(?<v>.*)", "v");
    let cli = CliArgs { config_file: None, host: Some("h".to_string()), port: Some(1) };
    let done = finish_config(config.clone(), &cli).unwrap();
    assert_eq!(done.host, "h");
    assert_eq!(done.port, 1);
    assert_eq!(done.targets, config.targets);
    assert_eq!(
        finish_config(one_target("a b", "(", "v"), &cli),
        Err(ConfigError::InvalidName { target: 0 })
    );
    assert_eq!(
        finish_config(one_target("a", "(.*)", "v"), &cli),
        Err(ConfigError::MissingGroup { target: 0 })
    );
    assert!(matches!(
        finish_config(one_target("a", "(", "v"), &cli),
        Err(ConfigError::InvalidRegex { target: 0, .. })
    ));
}

#[test]
fn configuration_is_looked_for_in_the_usual_places() {
    assert_eq!(config_dir_name(), "prometheus_periodic_commands");
    assert_eq!(config_file_name(), "config.yaml");
    assert_eq!(
        linux_config_dirs(),
        vec!["", "/etc/prometheus_periodic_commands", "~/.config/prometheus_periodic_commands"]
    );
    assert_eq!(
        windows_config_dirs(),
        vec!["~\\AppData\\Local\\prometheus_periodic_commands", ""]
    );
}

#[test]
fn directories_are_expanded_one_for_one() {
    let templates: Vec<String> =
        ["", "/etc/x", "~/y", "a~b", "~", "x y"].iter().map(|s| s.to_string()).collect();
    let expanded = expand_dirs(&templates);
    assert_eq!(expanded.len(), 6);
    assert_eq!(expanded[0], Some("".to_string()));
    assert_eq!(expanded[1], Some("/etc/x".to_string()));
    assert!(expanded[2].is_some());
    assert_eq!(expanded[3], Some("a~b".to_string()));
    assert!(expanded[4].is_some());
    assert_eq!(expanded[5], Some("x y".to_string()));
    assert_eq!(expand_dirs(&vec![]), vec![]);
}

#[test]
fn the_file_is_joined_to_its_directory() {
    assert_eq!(config_file_in("", '/'), "config.yaml");
    assert_eq!(config_file_in("/etc/x", '/'), "/etc/x/config.yaml");
    assert_eq!(config_file_in("/etc/x/", '/'), "/etc/x/config.yaml");
    assert_eq!(config_file_in("C:\\x", '\\'), "C:\\x\\config.yaml");
}

#[test]
fn the_first_candidate_with_directory_and_file_is_taken() {
    assert_eq!(find_config(&vec![]), None);
    assert_eq!(find_config(&vec![(false, false), (true, false), (false, true)]), None);
    assert_eq!(find_config(&vec![(true, false), (true, true), (true, true)]), Some(1));
    assert_eq!(find_config(&vec![(true, true)]), Some(0));
    assert_eq!(first_config(&vec![(true, false), (true, true), (true, true)]), 1);
    assert_eq!(first_config(&vec![(true, true)]), 0);
    assert_eq!(first_config(&vec![(false, true), (false, false), (true, true)]), 2);
}
