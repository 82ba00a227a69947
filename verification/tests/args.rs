use freminal::args::{Args, ArgsError, ArgsNotice};

fn strings(v: &[&str]) -> Vec<String> {
    v.iter().map(|s| s.to_string()).collect()
}

#[test]
fn test_args_parse() {
    let args = Args::parse(vec!["freminal".to_string()]).0.unwrap();
    assert_eq!(args.recording, None);
    assert_eq!(args.shell, None);

    let args = Args::parse(vec![
        "freminal".to_string(),
        "--recording-path".to_string(),
        "test".to_string(),
    ])
    .0
    .unwrap();
    assert_eq!(args.recording, Some("test".to_string()));
    assert_eq!(args.shell, None);

    let args = Args::parse(vec![
        "freminal".to_string(),
        "--shell".to_string(),
        "test".to_string(),
    ])
    .0
    .unwrap();
    assert_eq!(args.recording, None);
    assert_eq!(args.shell, Some("test".to_string()));

    let args = Args::parse(vec![
        "freminal".to_string(),
        "--recording-path".to_string(),
        "test".to_string(),
        "--shell".to_string(),
        "test".to_string(),
    ])
    .0
    .unwrap();
    assert_eq!(args.recording, Some("test".to_string()));
    assert_eq!(args.shell, Some("test".to_string()));
}

#[test]
fn test_invalid_arg() {
    let args = Args::parse(vec![
        "freminal".to_string(),
        "--recording-path".to_string(),
        "test".to_string(),
        "--invalid".to_string(),
    ]);
    assert!(args.0.is_err());
}

#[test]
fn args_report_what_they_print() {
    let (result, notices) = Args::parse(strings(&["freminal", "--bogus", "--shell"]));
    assert_eq!(result, Err(ArgsError::InvalidArguments));
    assert_eq!(
        notices,
        vec![
            ArgsNotice::InvalidArgument("--bogus".to_string()),
            ArgsNotice::Help,
            ArgsNotice::MissingArgument("--shell".to_string()),
            ArgsNotice::Help,
        ]
    );

    let (result, notices) = Args::parse(strings(&["freminal", "--help", "--shell", "zsh"]));
    assert_eq!(
        result,
        Ok(Args {
            recording: None,
            shell: Some("zsh".to_string())
        })
    );
    assert_eq!(notices, vec![ArgsNotice::Help]);

    let (result, notices) = Args::parse(Vec::new());
    assert_eq!(
        result,
        Ok(Args {
            recording: None,
            shell: None
        })
    );
    assert!(notices.is_empty());
}

#[test]
fn args_missing_value_drops_earlier_one() {
    let (result, _) = Args::parse(strings(&["f", "--shell", "bash", "--shell"]));
    assert_eq!(result, Err(ArgsError::InvalidArguments));
    let (result, _) = Args::parse(strings(&["f", "--shell", "bash", "--shell", "fish"]));
    assert_eq!(result.unwrap().shell, Some("fish".to_string()));
}

#[test]
fn help_text_names_the_program() {
    let text = Args::help_text(Some("term"));
    assert_eq!(
        text,
        "Usage:\nterm [ARGS]\n\nArgs:\n--recording-path: Optional, where to output recordings to\n--shell: Optional, shell to run\n--help: Show this help message\n"
    );
    assert!(Args::help_text(None).starts_with("Usage:\nfreminal [ARGS]\n"));
}
