use my_torch_analyzer::parse_config::{Config, Mode};

fn args(words: &[&str]) -> Vec<String> {
    words.iter().map(|w| String::from(*w)).collect()
}

#[test]
fn a_prediction_is_asked_for() {
    let config = Config::parse(&args(&["prog", "--predict", "net.nn", "boards.txt"])).unwrap().unwrap();
    assert_eq!(config.mode, Mode::Predict);
    assert_eq!(config.loadfile, "net.nn");
    assert_eq!(config.chessfile, "boards.txt");
    assert_eq!(config.savefile, None);
    assert_eq!(config.configfile, None);
}

#[test]
fn a_training_is_asked_for() {
    let config = Config::parse(&args(&[
        "prog", "net.nn", "--save", "out.nn", "--train", "--config", "fast.conf", "boards.txt",
    ]))
    .unwrap().unwrap();
    assert_eq!(config.mode, Mode::Train);
    assert_eq!(config.loadfile, "net.nn");
    assert_eq!(config.chessfile, "boards.txt");
    assert_eq!(config.savefile, Some(String::from("out.nn")));
    assert_eq!(config.configfile, Some(String::from("fast.conf")));
}

#[test]
fn an_option_takes_the_next_argument_whatever_it_is() {
    let config =
        Config::parse(&args(&["prog", "--train", "--save", "--predict", "a", "b"])).unwrap().unwrap();
    assert_eq!(config.mode, Mode::Train);
    assert_eq!(config.savefile, Some(String::from("--predict")));
}

#[test]
fn command_line_errors() {
    let expect = |words: &[&str], message: &str| {
        assert_eq!(Config::parse(&args(words)).err().unwrap(), message);
    };
    expect(&["prog", "--predict", "a"], "Not enough arguments");
    expect(&[], "Not enough arguments");
    expect(
        &["prog", "--predict", "--train", "a", "b"],
        "Cannot specify both --predict and --train",
    );
    expect(
        &["prog", "--train", "--train", "a", "b"],
        "Cannot specify both --predict and --train",
    );
    expect(&["prog", "--train", "a", "b", "--save"], "--save requires a filename");
    expect(&["prog", "--train", "a", "b", "--config"], "--config requires a filename");
    expect(&["prog", "--train", "a", "b", "c"], "Unexpected argument: c");
    expect(&["prog", "a", "b", "--config", "c"], "Mode not specified (use --predict or --train)");
    expect(&["prog", "--train", "--config", "c"], "LOADFILE not specified");
    expect(&["prog", "--train", "--config", "c", "a"], "CHESSFILE not specified");
    expect(
        &["prog", "--predict", "--save", "c", "a", "b"],
        "--save can only be used with --train",
    );
}

#[test]
fn help_is_asked_for() {
    assert!(Config::wants_help(&args(&["prog", "--help"])));
    assert!(Config::wants_help(&args(&["prog", "-h", "more"])));
    assert!(!Config::wants_help(&args(&["prog", "--train", "--help"])));
    assert!(!Config::wants_help(&args(&["prog"])));
    assert!(!Config::wants_help(&args(&[])));
    assert!(matches!(Config::parse(&args(&["prog", "--help"])), Ok(None)));
    assert!(matches!(Config::parse(&args(&["prog", "-h", "--train", "a", "b"])), Ok(None)));
    assert!(matches!(
        Config::parse(&args(&["prog", "--help", "--train", "--train", "a", "b", "c"])),
        Ok(None)
    ));
    assert!(matches!(Config::parse(&args(&["prog", "--train", "a", "--help"])), Ok(Some(_))));
}
