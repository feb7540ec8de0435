use cmdx::argparse::ArgumentParser;

#[test]
fn parse_without_flag_stays_quiet() {
    let parser = ArgumentParser::default();
    let args = vec!["prog".to_string(), "somefile".to_string()];
    assert!(parser.parse(&args).is_none());
}

#[test]
fn parse_hands_back_help_on_short_flag() {
    let parser = ArgumentParser::default();
    let args = vec!["prog".to_string(), "-h".to_string()];
    let text = parser.parse(&args).expect("help was requested");
    assert_eq!("usage: prog [-h|--help] \n\n\n\n", text);
}

#[test]
fn help_upper_cases_parameter_names() {
    let mut parser = ArgumentParser::default();
    parser.add(
        "-f".to_string(),
        "--file".to_string(),
        "name".to_string(),
        "the file to list".to_string(),
    );
    let args = vec!["prog".to_string(), "--help".to_string()];
    let text = parser.parse(&args).expect("help was requested");
    assert_eq!("usage: prog [-h|--help] [-f|--file] NAME \n\n\n\n", text);
}

#[test]
fn help_brackets_single_flags_alone() {
    let mut parser = ArgumentParser::default();
    parser.add(
        "".to_string(),
        "--verbose".to_string(),
        "level".to_string(),
        "how loud".to_string(),
    );
    parser.add(
        "-q".to_string(),
        "".to_string(),
        "quiet".to_string(),
        "how quiet".to_string(),
    );
    let args = vec!["prog".to_string()];
    let text = parser.help(&args);
    assert_eq!("usage: prog [-h|--help] [--verbose] LEVEL [-q] QUIET \n\n\n\n", text);
}
