use gluon::options::{
    gluon_files, has_changed, Action, Color, DebugLevel, DocOpt, FmtOpt, Found, Opt, SubOpt,
};

fn opt() -> Opt {
    Opt {
        interactive: false,
        color: Color::default(),
        prompt: "> ".to_string(),
        debug_level: DebugLevel::default(),
        no_std: false,
        input: vec![],
        subcommand_opt: None,
    }
}

#[test]
fn execute_repl_help() {
    assert_eq!(opt().action(), Action::Usage);
}

#[test]
fn subcommands_come_first() {
    let mut o = opt();
    o.interactive = true;
    assert_eq!(o.action(), Action::Repl);
    o.subcommand_opt = Some(SubOpt::Fmt(FmtOpt { input: vec![] }));
    assert_eq!(o.action(), Action::FormatStdin);
    o.subcommand_opt = Some(SubOpt::Fmt(FmtOpt { input: vec!["a".to_string()] }));
    assert_eq!(o.action(), Action::FormatFiles);
    o.subcommand_opt =
        Some(SubOpt::Doc(DocOpt { input: "a".to_string(), output: "b".to_string() }));
    assert_eq!(o.action(), Action::Document);
    let mut o = opt();
    o.input.push("a.glu".to_string());
    assert_eq!(o.action(), Action::RunFiles);
}

#[test]
fn colors_are_read() {
    assert_eq!(Color::from_str("auto"), Ok(Color::Auto));
    assert_eq!(Color::from_str("always"), Ok(Color::Always));
    assert_eq!(Color::from_str("always-ansi"), Ok(Color::AlwaysAnsi));
    assert_eq!(Color::from_str("never"), Ok(Color::Never));
    assert_eq!(
        Color::from_str("green"),
        Err("Expected one of 'auto', 'always', 'always-ansi', 'never'")
    );
}

fn found(path: &[&str], is_file: bool, extension: Option<&str>) -> Found {
    Found {
        path: path.iter().map(|s| s.to_string()).collect(),
        is_file,
        extension: extension.map(|s| s.to_string()),
    }
}

#[test]
fn source_files_are_sorted_and_distinct() {
    let files = gluon_files(vec![
        found(&["std", "b.glu"], true, Some("glu")),
        found(&["std", "a.glu"], true, Some("glu")),
        found(&["std"], false, None),
        found(&["std", "a.txt"], true, Some("txt")),
        found(&["std", "b.glu"], true, Some("glu")),
        found(&["a"], true, Some("glu")),
    ]);
    assert_eq!(
        files,
        vec![
            vec!["a".to_string()],
            vec!["std".to_string(), "a.glu".to_string()],
            vec!["std".to_string(), "b.glu".to_string()],
        ]
    );
}

#[test]
fn unchanged_files_are_not_touched() {
    assert!(!has_changed("1 + 2", "1 + 2"));
    assert!(has_changed("1+2", "1 + 2"));
}

#[test]
fn debug_levels_are_read() {
    assert_eq!(DebugLevel::from_str("none"), Ok(DebugLevel::default()));
    assert_eq!(DebugLevel::from_str("low"), Ok(DebugLevel::Low));
    assert_eq!(DebugLevel::from_str("high"), Ok(DebugLevel::High));
    assert_eq!(DebugLevel::from_str("all"), Err("Expected one of 'none', 'low', 'high'"));
}
