use git_insights::cli::{render_help, version_string, Cli, Commands, HelpTopic};

#[test]
fn test_cli_stats_default_by_name() {
    let cli = Cli::parse_from_args(vec![
        "git-insights".to_string(),
        "stats".to_string(),
    ])
    .expect("Failed to parse args");
    match cli.command {
        Commands::Stats { by_name } => assert!(by_name),
        _ => panic!("Expected Stats command"),
    }
}

#[test]
fn test_cli_stats_by_email_flag() {
    let cli = Cli::parse_from_args(vec![
        "git-insights".to_string(),
        "stats".to_string(),
        "--by-email".to_string(),
    ])
    .expect("Failed to parse args");
    match cli.command {
        Commands::Stats { by_name } => assert!(!by_name),
        _ => panic!("Expected Stats command"),
    }
}

#[test]
fn test_cli_stats_short_e_flag() {
    let cli = Cli::parse_from_args(vec![
        "git-insights".to_string(),
        "stats".to_string(),
        "-e".to_string(),
    ])
    .expect("Failed to parse args");
    match cli.command {
        Commands::Stats { by_name } => assert!(!by_name),
        _ => panic!("Expected Stats command"),
    }
}

#[test]
fn test_cli_json() {
    let cli = Cli::parse_from_args(vec!["git-insights".to_string(), "json".to_string()])
        .expect("Failed to parse args");
    assert!(matches!(cli.command, Commands::Json));
}

#[test]
fn test_cli_user() {
    let cli = Cli::parse_from_args(vec![
        "git-insights".to_string(),
        "user".to_string(),
        "testuser".to_string(),
    ])
    .expect("Failed to parse args");
    match cli.command {
        Commands::User { username, ownership, by_email, top, sort } => {
            assert_eq!(username, "testuser");
            assert!(!ownership);
            assert!(!by_email);
            assert!(top.is_none());
            assert!(sort.is_none());
        }
        _ => panic!("Expected User command"),
    }
}

#[test]
fn test_cli_user_ownership_flags() {
    let cli = Cli::parse_from_args(vec![
        "git-insights".to_string(),
        "user".to_string(),
        "palash".to_string(),
        "--ownership".to_string(),
        "--by-email".to_string(),
        "--top".to_string(),
        "5".to_string(),
        "--sort".to_string(),
        "pct".to_string(),
    ])
    .expect("Failed to parse args");
    match cli.command {
        Commands::User { username, ownership, by_email, top, sort } => {
            assert_eq!(username, "palash");
            assert!(ownership);
            assert!(by_email);
            assert_eq!(top, Some(5));
            assert_eq!(sort.as_deref(), Some("pct"));
        }
        _ => panic!("Expected User command with ownership flags"),
    }

    // equals-style flags should also parse
    let cli2 = Cli::parse_from_args(vec![
        "git-insights".to_string(),
        "user".to_string(),
        "palash".to_string(),
        "--ownership".to_string(),
        "-e".to_string(),
        "--top=3".to_string(),
        "--sort=loc".to_string(),
    ])
    .expect("Failed to parse args");
    match cli2.command {
        Commands::User { username, ownership, by_email, top, sort } => {
            assert_eq!(username, "palash");
            assert!(ownership);
            assert!(by_email);
            assert_eq!(top, Some(3));
            assert_eq!(sort.as_deref(), Some("loc"));
        }
        _ => panic!("Expected User command with equals-style flags"),
    }
}

#[test]
fn test_cli_no_args_yields_help() {
    let cli = Cli::parse_from_args(vec!["git-insights".to_string()]).expect("parse");
    match cli.command {
        Commands::Help { topic } => match topic {
            HelpTopic::Top => {}
            _ => panic!("Expected top-level help"),
        },
        _ => panic!("Expected Help command"),
    }
}

#[test]
fn test_cli_top_help_flag() {
    let cli = Cli::parse_from_args(vec![
        "git-insights".to_string(),
        "--help".to_string(),
    ])
    .expect("parse");
    match cli.command {
        Commands::Help { topic } => match topic {
            HelpTopic::Top => {}
            _ => panic!("Expected top-level help"),
        },
        _ => panic!("Expected Help command"),
    }
}

#[test]
fn test_cli_stats_help_flag() {
    let cli = Cli::parse_from_args(vec![
        "git-insights".to_string(),
        "stats".to_string(),
        "--help".to_string(),
    ])
    .expect("parse");
    match cli.command {
        Commands::Help { topic } => match topic {
            HelpTopic::Stats => {}
            _ => panic!("Expected stats help"),
        },
        _ => panic!("Expected Help command"),
    }
}

#[test]
fn test_cli_version_flag() {
    let cli = Cli::parse_from_args(vec![
        "git-insights".to_string(),
        "--version".to_string(),
    ])
    .expect("parse");
    assert!(matches!(cli.command, Commands::Version));
}

#[test]
fn test_cli_unknown_command() {
    let err = Cli::parse_from_args(vec!["git-insights".to_string(), "invalid".to_string()])
        .expect_err("Expected an error for unknown command");
    assert!(err.contains("Unknown command: invalid"));
}

#[test]
fn test_cli_user_no_username() {
    let err = Cli::parse_from_args(vec!["git-insights".to_string(), "user".to_string()])
        .expect_err("Expected an error for user command without username");
    assert_eq!(err, "Usage: git-insights user <username> [--ownership] [--by-email|-e] [--top N] [--sort loc|pct]");
}

fn args(list: &[&str]) -> Vec<String> {
    list.iter().map(|s| s.to_string()).collect()
}

#[test]
fn unknown_command_carries_the_general_help() {
    let err = Cli::parse_from_args(args(&["git-insights", "invalid"])).expect_err("error");
    assert_eq!(err, format!("Unknown command: invalid\n{}", render_help(HelpTopic::Top)));
}

#[test]
fn help_texts_begin_as_expected() {
    let top = render_help(HelpTopic::Top);
    assert!(top.starts_with(&format!("git-insights v{}\n\nA CLI tool", version_string())));
    assert!(top.ends_with("See 'git-insights <COMMAND> --help' for command-specific options."));
    assert!(render_help(HelpTopic::Stats).starts_with("git-insights stats\n\nCompute"));
    assert!(render_help(HelpTopic::Json).starts_with("git-insights json\n\nExport"));
    assert!(render_help(HelpTopic::User).contains("--top N           Limit to top N rows"));
    assert_eq!(version_string(), "0.1.0");
}

#[test]
fn sort_value_is_put_in_lower_case() {
    let cli = Cli::parse_from_args(args(&["git-insights", "user", "u", "--sort", "PCT"]))
        .expect("parse");
    match cli.command {
        Commands::User { sort, .. } => assert_eq!(sort.as_deref(), Some("pct")),
        _ => panic!("Expected User command"),
    }
    let cli = Cli::parse_from_args(args(&["git-insights", "user", "u", "--sort=LoC"]))
        .expect("parse");
    match cli.command {
        Commands::User { sort, .. } => assert_eq!(sort.as_deref(), Some("loc")),
        _ => panic!("Expected User command"),
    }
}

#[test]
fn later_options_replace_earlier_ones() {
    let cli = Cli::parse_from_args(args(&[
        "git-insights", "user", "u", "--top", "5", "--top=7", "--sort", "loc", "--sort=pct",
    ]))
    .expect("parse");
    match cli.command {
        Commands::User { top, sort, ownership, by_email, .. } => {
            assert_eq!(top, Some(7));
            assert_eq!(sort.as_deref(), Some("pct"));
            assert!(!ownership);
            assert!(!by_email);
        }
        _ => panic!("Expected User command"),
    }
}

#[test]
fn a_limit_that_is_no_number_is_passed_over() {
    let cli = Cli::parse_from_args(args(&[
        "git-insights", "user", "u", "--top", "3", "--top", "many", "--top=-1", "--top=",
    ]))
    .expect("parse");
    match cli.command {
        Commands::User { top, .. } => assert_eq!(top, Some(3)),
        _ => panic!("Expected User command"),
    }
    // the value of `--top` is taken even where it looks like a flag
    let cli = Cli::parse_from_args(args(&["git-insights", "user", "u", "--top", "--ownership"]))
        .expect("parse");
    match cli.command {
        Commands::User { top, ownership, .. } => {
            assert_eq!(top, None);
            assert!(!ownership);
        }
        _ => panic!("Expected User command"),
    }
    let cli = Cli::parse_from_args(args(&["git-insights", "user", "u", "--top", "+12"]))
        .expect("parse");
    match cli.command {
        Commands::User { top, .. } => assert_eq!(top, Some(12)),
        _ => panic!("Expected User command"),
    }
}

#[test]
fn flags_at_the_end_without_a_value_change_nothing() {
    let cli = Cli::parse_from_args(args(&["git-insights", "user", "u", "--sort"])).expect("parse");
    match cli.command {
        Commands::User { sort, top, .. } => {
            assert_eq!(sort, None);
            assert_eq!(top, None);
        }
        _ => panic!("Expected User command"),
    }
}

#[test]
fn help_of_the_commands() {
    for (cmd, flag) in [("json", "-h"), ("json", "--help")] {
        let cli = Cli::parse_from_args(args(&["git-insights", cmd, flag])).expect("parse");
        assert!(matches!(cli.command, Commands::Help { topic: HelpTopic::Json }));
    }
    let cli = Cli::parse_from_args(args(&["git-insights", "user", "--help"])).expect("parse");
    assert!(matches!(cli.command, Commands::Help { topic: HelpTopic::User }));
    let cli = Cli::parse_from_args(args(&["git-insights", "-h"])).expect("parse");
    assert!(matches!(cli.command, Commands::Help { topic: HelpTopic::Top }));
    let cli = Cli::parse_from_args(args(&["git-insights", "-v"])).expect("parse");
    assert!(matches!(cli.command, Commands::Version));
    let cli = Cli::parse_from_args(Vec::new()).expect("parse");
    assert!(matches!(cli.command, Commands::Help { topic: HelpTopic::Top }));
}
