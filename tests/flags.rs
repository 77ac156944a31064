use dirtree::flags::{CliError, Cmd, Flags, Setting, Switch};

fn stringify(str_refs: Vec<&str>) -> Vec<String> {
    str_refs
        .iter()
        .map(|&a| String::from(a))
        .collect::<Vec<String>>()
}

#[test]
fn parses_hyphen_delimited_args() {
    let args = stringify(vec![
        "-a",
        "-h",
        "-s",
        "-d",
        "--dirsfirst",
        "--prune",
        "src",
    ]);

    let result = Cmd::process_args(args.clone());

    assert_eq!(result, args)
}

#[test]
fn parses_non_hyphen_delimited_args() {
    let args = stringify(vec!["-ahsd", "--dirsfirst", "--prune", "src"]);

    let result = Cmd::process_args(args);

    assert_eq!(
        result,
        stringify(vec![
            "-a",
            "-h",
            "-s",
            "-d",
            "--dirsfirst",
            "--prune",
            "src",
        ])
    )
}

#[test]
fn split_bundles_come_before_other_arguments() {
    let args = stringify(vec!["src", "-ab", "--prune", "-cd"]);
    assert_eq!(
        Cmd::process_args(args),
        stringify(vec!["-a", "-b", "-c", "-d", "src", "--prune"])
    );
}

#[test]
fn metadata_flags_order_and_need() {
    let mut flags = Flags::new();
    assert!(!Cmd::requires_metadata(&flags));
    assert_eq!(flags.get_metatdata_flags(), [false; 10]);
    flags.inode = true;
    let fs = flags.get_metatdata_flags();
    assert!(fs[5]);
    assert_eq!(fs.iter().filter(|f| **f).count(), 1);
    assert!(Cmd::requires_metadata(&flags));
    let cmd = Cmd { flags };
    assert!(cmd.global().inode);
}

#[test]
fn settings_of_a_command_line() {
    let args = stringify(vec!["-al", "-L", " 2 ", "-P", " *.rs", "docs", "--bogus", "-o"]);
    let s = Cmd::parse_settings(args).unwrap();
    assert_eq!(s.len(), 7);
    assert!(matches!(s[0], Setting::On(Switch::All)));
    assert!(matches!(s[1], Setting::On(Switch::FollowSymlinks)));
    assert!(matches!(s[2], Setting::MaxDepth(Some(2))));
    assert!(matches!(&s[3], Setting::PatternMatch(Some(p)) if p == "*.rs"));
    assert!(matches!(&s[4], Setting::DirPath(p) if p == "docs"));
    assert!(matches!(&s[5], Setting::Unknown(f) if f == "--bogus"));
    assert!(matches!(s[6], Setting::OutputFile(None)));
    assert_eq!(Cmd::parse_settings(stringify(vec!["-L", "x"])).err(), Some(CliError::InvalidNumber));
    assert_eq!(Cmd::parse_settings(stringify(vec!["-L", "+7"])).ok().map(|v| v.len()), Some(1));
    assert_eq!(Cmd::parse_settings(stringify(vec!["-A"])).err(), Some(CliError::Unsupported));
}

#[test]
fn command_from_a_command_line() {
    let (cmd, unknown) =
        Cmd::from_cli(stringify(vec!["-dr", "--bogus", "-P", "*.rs", "-P", "x*", "src", "-L", "3"])).unwrap();
    assert!(cmd.flags.dirs);
    assert!(cmd.flags.reverse_alpha_sort);
    assert!(!cmd.flags.all);
    assert_eq!(cmd.flags.pattern_match.as_deref(), Some("x*"));
    assert_eq!(cmd.flags.dir_path.as_deref(), Some("src"));
    assert_eq!(cmd.flags.max_depth, Some(3));
    assert_eq!(unknown, stringify(vec!["--bogus"]));
    assert!(Cmd::from_cli(stringify(vec!["--filelimit", "many"])).is_err());
    let (cmd, _) = Cmd::from_settings(vec![Setting::On(Switch::Colors), Setting::Limit(Some(9)), Setting::Limit(None)]);
    assert!(cmd.flags.colors);
    assert_eq!(cmd.flags.limit, None);
}
