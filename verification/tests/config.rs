use my_torch_analyzer::chess::config::{
    format_vec_u32, parse_bool, parse_vec_u32, truth_of, violation_message, RangeChecks, Ranges,
    TrainingConfig, Violation,
};
use my_torch_analyzer::number::Number;

fn value(number: &Number) -> f64 {
    number.text().parse().unwrap()
}

fn judge(config: &TrainingConfig<Number>) -> Ranges {
    let learning_rate = value(&config.learning_rate);
    let train_ratio = value(&config.train_ratio);
    let lr_decay_rate = value(&config.lr_decay_rate);
    Ranges {
        checks: RangeChecks {
            learning_rate: !(learning_rate <= 0.0 || learning_rate > 1.0),
            train_ratio: !(train_ratio <= 0.0 || train_ratio >= 1.0),
            weights: !(value(&config.weight_min) >= value(&config.weight_max)),
            biases: !(value(&config.bias_min) >= value(&config.bias_max)),
            lr_decay_rate: !(lr_decay_rate <= 0.0 || lr_decay_rate >= 1.0),
        },
        learning_rate: learning_rate.to_string(),
        train_ratio: train_ratio.to_string(),
        lr_decay_rate: lr_decay_rate.to_string(),
    }
}

fn ranges(config: &TrainingConfig<Number>) -> RangeChecks {
    judge(config).checks
}

fn validate(config: &TrainingConfig<Number>) -> Result<(), String> {
    config.validate(&judge(config))
}

fn get_learning_rate(config: &TrainingConfig<Number>, epoch: usize) -> f64 {
    value(&config.learning_rate) * value(&config.lr_decay_rate).powi(config.decay_count(epoch) as i32)
}

#[test]
fn test_default_config() {
    let config = TrainingConfig::default();
    assert_eq!(value(&config.learning_rate), 0.01);
    assert_eq!(config.epochs, 1000);
    assert_eq!(config.batch_size, 1);
}

#[test]
fn test_parse_simple_config() {
    let content = "learning_rate = 0.05\nepochs = 500\nbatch_size = 32";
    let config = TrainingConfig::parse(content, judge).unwrap();
    assert_eq!(value(&config.learning_rate), 0.05);
    assert_eq!(config.epochs, 500);
    assert_eq!(config.batch_size, 32);
}

#[test]
fn test_parse_with_comments() {
    let content = "# Comment\nlearning_rate = 0.01\n// Another comment\nepochs = 100";
    let config = TrainingConfig::parse(content, judge).unwrap();
    assert_eq!(value(&config.learning_rate), 0.01);
    assert_eq!(config.epochs, 100);
}

#[test]
fn test_parse_hidden_layers() {
    assert_eq!(parse_vec_u32("[256, 128, 64]").unwrap(), vec![256, 128, 64]);
    assert_eq!(parse_vec_u32("256, 128, 64").unwrap(), vec![256, 128, 64]);
    assert_eq!(parse_vec_u32("256 128 64").unwrap(), vec![256, 128, 64]);
}

#[test]
fn test_parse_bool() {
    assert_eq!(parse_bool("true").unwrap(), true);
    assert_eq!(parse_bool("false").unwrap(), false);
    assert_eq!(parse_bool("1").unwrap(), true);
    assert_eq!(parse_bool("0").unwrap(), false);
    assert_eq!(parse_bool("yes").unwrap(), true);
    assert_eq!(parse_bool("no").unwrap(), false);
}

#[test]
fn test_lr_decay() {
    let mut config = TrainingConfig::default();
    config.lr_decay_enabled = true;
    config.learning_rate = Number::parse("0.1").unwrap();
    config.lr_decay_rate = Number::parse("0.9").unwrap();
    config.lr_decay_step = 100;

    assert!((get_learning_rate(&config, 0) - 0.1).abs() < 1e-10);
    assert!((get_learning_rate(&config, 50) - 0.1).abs() < 1e-10);
    assert!((get_learning_rate(&config, 100) - 0.09).abs() < 1e-10);
    assert!((get_learning_rate(&config, 200) - 0.081).abs() < 1e-10);
}

#[test]
fn test_validation() {
    let mut config = TrainingConfig::default();

    config.learning_rate = Number::parse("-0.1").unwrap();
    assert!(validate(&config).is_err());

    config.learning_rate = Number::parse("0.01").unwrap();
    config.epochs = 0;
    assert!(validate(&config).is_err());

    config.epochs = 100;
    config.train_ratio = Number::parse("1.5").unwrap();
    assert!(validate(&config).is_err());
}

#[test]
fn the_default_configuration_is_valid() {
    let config = TrainingConfig::default();
    assert_eq!(validate(&config), Ok(()));
    assert_eq!(config.patience, 50);
    assert_eq!(value(&config.train_ratio), 0.8);
    assert_eq!(config.hidden_layers, vec![256, 128, 64]);
    assert_eq!(value(&config.weight_min), -0.3);
    assert_eq!(value(&config.weight_max), 0.3);
    assert_eq!(value(&config.bias_min), -0.1);
    assert_eq!(value(&config.bias_max), 0.1);
    assert!(!config.lr_decay_enabled);
    assert_eq!(value(&config.lr_decay_rate), 0.95);
    assert_eq!(config.lr_decay_step, 100);
    assert_eq!(config.decay_count(500), 0);
}

#[test]
fn violations_come_in_order() {
    let config = TrainingConfig::default();
    let fine = ranges(&config);
    let mut all_wrong: TrainingConfig<Number> = TrainingConfig::default();
    all_wrong.epochs = 0;
    all_wrong.batch_size = 0;
    all_wrong.patience = 0;
    all_wrong.hidden_layers = Vec::new();
    all_wrong.lr_decay_step = 0;
    let mut checks = RangeChecks {
        learning_rate: false,
        train_ratio: false,
        weights: false,
        biases: false,
        lr_decay_rate: false,
    };
    assert_eq!(all_wrong.first_violation(&checks), Some(Violation::LearningRate));
    checks.learning_rate = true;
    assert_eq!(all_wrong.first_violation(&checks), Some(Violation::Epochs));
    all_wrong.epochs = 1;
    assert_eq!(all_wrong.first_violation(&checks), Some(Violation::BatchSize));
    all_wrong.batch_size = 1;
    assert_eq!(all_wrong.first_violation(&checks), Some(Violation::Patience));
    all_wrong.patience = 1;
    assert_eq!(all_wrong.first_violation(&checks), Some(Violation::TrainRatio));
    checks.train_ratio = true;
    assert_eq!(all_wrong.first_violation(&checks), Some(Violation::HiddenLayers));
    all_wrong.hidden_layers = vec![1];
    assert_eq!(all_wrong.first_violation(&checks), Some(Violation::Weights));
    checks.weights = true;
    assert_eq!(all_wrong.first_violation(&checks), Some(Violation::Biases));
    checks.biases = true;
    assert_eq!(all_wrong.first_violation(&checks), Some(Violation::DecayRate));
    checks.lr_decay_rate = true;
    assert_eq!(all_wrong.first_violation(&checks), Some(Violation::DecayStep));
    all_wrong.lr_decay_step = 1;
    assert_eq!(all_wrong.first_violation(&checks), None);
    assert_eq!(checks, fine);
    assert_eq!(config.first_violation(&fine), None);
}

#[test]
fn violation_messages() {
    assert_eq!(
        violation_message(Violation::LearningRate, "-0.1"),
        "Invalid learning_rate: -0.1 (must be 0 < lr <= 1)"
    );
    assert_eq!(violation_message(Violation::Epochs, ""), "epochs must be > 0");
    assert_eq!(violation_message(Violation::BatchSize, ""), "batch_size must be > 0");
    assert_eq!(violation_message(Violation::Patience, ""), "patience must be > 0");
    assert_eq!(
        violation_message(Violation::TrainRatio, "1.5"),
        "Invalid train_ratio: 1.5 (must be 0 < ratio < 1)"
    );
    assert_eq!(violation_message(Violation::HiddenLayers, ""), "hidden_layers cannot be empty");
    assert_eq!(violation_message(Violation::Weights, ""), "weight_min must be < weight_max");
    assert_eq!(violation_message(Violation::Biases, ""), "bias_min must be < bias_max");
    assert_eq!(
        violation_message(Violation::DecayRate, "1"),
        "Invalid lr_decay_rate: 1 (must be 0 < rate < 1)"
    );
    assert_eq!(violation_message(Violation::DecayStep, ""), "lr_decay_step must be > 0");
}

#[test]
fn every_key_is_read() {
    let content = "learning_rate=0.5\n  epochs = +7 \nbatch_size = 3\npatience = 2\n\
        train_ratio = .75\nhidden_layers = [8, 4]\nweight_min = -1\nweight_max = 1e0\n\
        bias_min = -2.\nbias_max = 2\nlr_decay_enabled = YES\nlr_decay_rate = 0.5\n\
        lr_decay_step = 10\n\n# done\r\n";
    let config = TrainingConfig::parse(content, judge).unwrap();
    assert_eq!(value(&config.learning_rate), 0.5);
    assert_eq!(config.epochs, 7);
    assert_eq!(config.batch_size, 3);
    assert_eq!(config.patience, 2);
    assert_eq!(value(&config.train_ratio), 0.75);
    assert_eq!(config.hidden_layers, vec![8, 4]);
    assert_eq!(value(&config.weight_min), -1.0);
    assert_eq!(value(&config.weight_max), 1.0);
    assert_eq!(value(&config.bias_min), -2.0);
    assert_eq!(value(&config.bias_max), 2.0);
    assert!(config.lr_decay_enabled);
    assert_eq!(value(&config.lr_decay_rate), 0.5);
    assert_eq!(config.lr_decay_step, 10);
    assert_eq!(config.decay_count(35), 3);
}

#[test]
fn a_value_may_hold_an_equals_sign() {
    assert_eq!(
        TrainingConfig::parse("epochs = 1 = 2", judge).err().unwrap(),
        "Invalid epochs: 1 = 2"
    );
}

#[test]
fn config_errors() {
    assert_eq!(
        TrainingConfig::parse("epochs = 5\nnonsense", judge).err().unwrap(),
        "Invalid format at line 2: expected KEY = VALUE"
    );
    assert_eq!(
        TrainingConfig::parse("learning_rate = fast", judge).err().unwrap(),
        "Invalid learning_rate: fast"
    );
    assert_eq!(TrainingConfig::parse("epochs = -1", judge).err().unwrap(), "Invalid epochs: -1");
    assert_eq!(TrainingConfig::parse("batch_size = ", judge).err().unwrap(), "Invalid batch_size: ");
    assert_eq!(TrainingConfig::parse("patience = 1.5", judge).err().unwrap(), "Invalid patience: 1.5");
    assert_eq!(
        TrainingConfig::parse("train_ratio = half", judge).err().unwrap(),
        "Invalid train_ratio: half"
    );
    assert_eq!(
        TrainingConfig::parse("hidden_layers = [8, x]", judge).err().unwrap(),
        "Invalid hidden_layers format: 8, x"
    );
    assert_eq!(TrainingConfig::parse("weight_min = a", judge).err().unwrap(), "Invalid weight_min: a");
    assert_eq!(TrainingConfig::parse("weight_max = a", judge).err().unwrap(), "Invalid weight_max: a");
    assert_eq!(TrainingConfig::parse("bias_min = a", judge).err().unwrap(), "Invalid bias_min: a");
    assert_eq!(TrainingConfig::parse("bias_max = a", judge).err().unwrap(), "Invalid bias_max: a");
    assert_eq!(
        TrainingConfig::parse("lr_decay_enabled = maybe", judge).err().unwrap(),
        "Invalid boolean value: maybe"
    );
    assert_eq!(
        TrainingConfig::parse("lr_decay_rate = a", judge).err().unwrap(),
        "Invalid lr_decay_rate: a"
    );
    assert_eq!(
        TrainingConfig::parse("lr_decay_step = a", judge).err().unwrap(),
        "Invalid lr_decay_step: a"
    );
    assert_eq!(
        TrainingConfig::parse("momentum = 0.9", judge).err().unwrap(),
        "Unknown configuration key: momentum"
    );
}

#[test]
fn a_configuration_is_written_and_read_back() {
    let mut config = TrainingConfig::default();
    config.lr_decay_enabled = true;
    config.hidden_layers = vec![12, 6];
    let text = config.to_string();
    assert_eq!(
        text,
        "# Training Configuration\n# Learning parameters\nlearning_rate = 0.01\nepochs = 1000\n\
         batch_size = 1\npatience = 50\n\n# Data split\ntrain_ratio = 0.8\n\n\
         # Network architecture\nhidden_layers = [12, 6]\n\n# Weight initialization\n\
         weight_min = -0.3\nweight_max = 0.3\nbias_min = -0.1\nbias_max = 0.1\n\n\
         # Learning rate decay\nlr_decay_enabled = true\nlr_decay_rate = 0.95\n\
         lr_decay_step = 100\n"
    );
    let again = TrainingConfig::parse(&text, judge).unwrap();
    assert_eq!(again.to_string(), text);
}

#[test]
fn truth_values_in_any_case() {
    assert_eq!(parse_bool("TRUE"), Ok(true));
    assert_eq!(parse_bool("On"), Ok(true));
    assert_eq!(parse_bool("OFF"), Ok(false));
    assert_eq!(parse_bool("No"), Ok(false));
    assert_eq!(parse_bool("2"), Err(String::from("Invalid boolean value: 2")));
    assert_eq!(parse_bool("Maybe"), Err(String::from("Invalid boolean value: Maybe")));
    assert_eq!(truth_of("on", "ON"), Ok(true));
    assert_eq!(truth_of("off", "oFF"), Ok(false));
    assert_eq!(truth_of("ON", "ON"), Err(String::from("Invalid boolean value: ON")));
}

#[test]
fn lists_of_numbers() {
    assert_eq!(parse_vec_u32("").unwrap(), Vec::<u32>::new());
    assert_eq!(parse_vec_u32("[]").unwrap(), Vec::<u32>::new());
    assert_eq!(parse_vec_u32(" [[1,,2 ,\t3]] ").unwrap(), vec![1, 2, 3]);
    assert_eq!(parse_vec_u32("4294967295").unwrap(), vec![u32::MAX]);
    assert_eq!(
        parse_vec_u32("[1, 4294967296]").err().unwrap(),
        "Invalid hidden_layers format: 1, 4294967296"
    );
    assert_eq!(parse_vec_u32("1;2").err().unwrap(), "Invalid hidden_layers format: 1;2");
    assert_eq!(parse_vec_u32("[1]2]").unwrap_err(), "Invalid hidden_layers format: 1]2");
    assert_eq!(format_vec_u32(&vec![256, 128, 64]), "[256, 128, 64]");
    assert_eq!(format_vec_u32(&Vec::new()), "[]");
    assert_eq!(format_vec_u32(&vec![7]), "[7]");
}

#[test]
fn learning_rate_decays_once_a_step() {
    let mut config = TrainingConfig::default();
    config.lr_decay_enabled = true;
    config.lr_decay_step = 100;
    assert_eq!(config.decay_count(0), 0);
    assert_eq!(config.decay_count(99), 0);
    assert_eq!(config.decay_count(100), 1);
    assert_eq!(config.decay_count(299), 2);
    config.lr_decay_step = 1;
    assert_eq!(config.decay_count(7), 7);
    config.lr_decay_enabled = false;
    assert_eq!(config.decay_count(7), 0);
}

fn refusal(content: &str) -> String {
    TrainingConfig::parse(content, judge).err().unwrap()
}

#[test]
fn an_invalid_configuration_is_refused() {
    assert_eq!(refusal("epochs=0"), "epochs must be > 0");
    assert_eq!(
        refusal("learning_rate = 0"),
        "Invalid learning_rate: 0 (must be 0 < lr <= 1)"
    );
    assert_eq!(
        refusal("learning_rate = 1e1"),
        "Invalid learning_rate: 10 (must be 0 < lr <= 1)"
    );
    assert_eq!(refusal("batch_size = 0"), "batch_size must be > 0");
    assert_eq!(refusal("patience = 0"), "patience must be > 0");
    assert_eq!(
        refusal("train_ratio = 1.0"),
        "Invalid train_ratio: 1 (must be 0 < ratio < 1)"
    );
    assert_eq!(refusal("hidden_layers = []"), "hidden_layers cannot be empty");
    assert_eq!(refusal("weight_min = 0.3"), "weight_min must be < weight_max");
    assert_eq!(refusal("bias_max = -0.1"), "bias_min must be < bias_max");
    assert_eq!(
        refusal("lr_decay_rate = -.5"),
        "Invalid lr_decay_rate: -0.5 (must be 0 < rate < 1)"
    );
    assert_eq!(refusal("lr_decay_step = 0"), "lr_decay_step must be > 0");
    assert!(TrainingConfig::parse("learning_rate = 1", judge).is_ok());
    assert!(TrainingConfig::parse("", judge).is_ok());
}

#[test]
fn the_first_violation_is_reported() {
    assert_eq!(
        refusal("epochs = 0\nlearning_rate = 2\nlr_decay_step = 0"),
        "Invalid learning_rate: 2 (must be 0 < lr <= 1)"
    );
    assert_eq!(refusal("lr_decay_step = 0\nepochs = 0"), "epochs must be > 0");
    assert_eq!(
        refusal("lr_decay_step = 0\ntrain_ratio = 0\nhidden_layers = "),
        "Invalid train_ratio: 0 (must be 0 < ratio < 1)"
    );
    assert_eq!(refusal("epochs = 0\nmomentum = 1"), "Unknown configuration key: momentum");
}

#[test]
fn a_configuration_is_read_without_being_checked() {
    let config = TrainingConfig::read("epochs=0\nlearning_rate = 2").unwrap();
    assert_eq!(config.epochs, 0);
    assert_eq!(value(&config.learning_rate), 2.0);
    assert_eq!(
        config.validate(&judge(&config)),
        Err(String::from("Invalid learning_rate: 2 (must be 0 < lr <= 1)"))
    );
    assert_eq!(
        TrainingConfig::read("epochs").err().unwrap(),
        "Invalid format at line 1: expected KEY = VALUE"
    );
    let fine = TrainingConfig::default();
    assert_eq!(fine.validate(&judge(&fine)), Ok(()));
}

#[test]
fn the_decay_step_matters_only_where_decay_is_enabled() {
    let mut config = TrainingConfig::default();
    config.lr_decay_step = 0;
    assert_eq!(config.decay_count(500), 0);
}
