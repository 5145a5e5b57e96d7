use ancymon::actions::AcceptedInput;
use ancymon::bot::BotBuilder;
use ancymon::config::Config;
use ancymon::errors::{AncymonError, ConfigError};
use ancymon::values::Value;

const MINIMAL: &str = r#"
[sources.cron]

[handlers.printer]
type = "debug"

[[actions]]
handler = "printer"
event = "tick"
emit = "printed"
arguments = { verbose = true }

[[actions]]
handler = "printer"
event = "failed"
emit = "reported"
arguments = "plain"
accepted-input = "Err"

[[triggers]]
source = "cron"
emit = "tick"
arguments = "0 * * * * *"
"#;

#[test]
fn a_configuration_is_read_from_a_document() {
    let config = Config::new(MINIMAL).unwrap();
    assert_eq!(config.sources.len(), 1);
    assert_eq!(config.sources[0].0, "cron");
    assert_eq!(config.sources[0].1, Value::Table(vec![]));
    assert_eq!(config.handlers.len(), 1);
    assert_eq!(
        *config.handlers[0].1.get("type").unwrap(),
        Value::String("debug".to_string())
    );
    assert_eq!(config.actions.len(), 2);
    assert_eq!(config.actions[0].handler, "printer");
    assert_eq!(config.actions[0].event, "tick");
    assert_eq!(config.actions[0].emit, "printed");
    assert_eq!(
        config.actions[0].arguments,
        Value::Table(vec![("verbose".to_string(), Value::Bool(true))])
    );
    assert_eq!(config.actions[0].accepted_input, AcceptedInput::NotNull);
    assert_eq!(config.actions[1].arguments, Value::String("plain".to_string()));
    assert_eq!(config.actions[1].accepted_input, AcceptedInput::Failure);
    assert_eq!(config.triggers.len(), 1);
    assert_eq!(config.triggers[0].source, "cron");
    assert_eq!(config.triggers[0].emit, "tick");
    assert_eq!(
        config.triggers[0].arguments,
        Value::String("0 * * * * *".to_string())
    );
}

#[test]
fn every_filter_has_its_name() {
    for (name, filter) in [
        ("NotNull", AcceptedInput::NotNull),
        ("Null", AcceptedInput::Null),
        ("Ok", AcceptedInput::Success),
        ("Err", AcceptedInput::Failure),
    ] {
        let text = format!(
            "actions = [{{ handler = \"h\", event = \"e\", emit = \"m\", arguments = 1, accepted-input = \"{name}\" }}]\ntriggers = []\n[sources]\n[handlers]\n"
        );
        let config = Config::new(&text).unwrap();
        assert_eq!(config.actions[0].accepted_input, filter);
    }
}

fn is_parsing_error(result: Result<Config, AncymonError>) -> bool {
    matches!(
        result,
        Err(AncymonError::ConfigError(ConfigError::ParsingError))
    )
}

#[test]
fn text_that_is_no_document_is_rejected() {
    assert!(is_parsing_error(Config::new("[sources")));
}

#[test]
fn a_document_that_lacks_a_part_is_rejected() {
    assert!(is_parsing_error(Config::new("")));
    assert!(is_parsing_error(Config::new(
        "actions = []\ntriggers = []\n[sources]\n"
    )));
    assert!(is_parsing_error(Config::new(
        "actions = []\n[sources]\n[handlers]\n"
    )));
    assert!(Config::new("actions = []\ntriggers = []\n[sources]\n[handlers]\n").is_ok());
}

#[test]
fn a_binding_that_lacks_a_field_is_rejected() {
    let rest = "triggers = []\n[sources]\n[handlers]\n";
    assert!(is_parsing_error(Config::new(&format!(
        "actions = [{{ handler = \"h\", event = \"e\", emit = \"m\" }}]\n{rest}"
    ))));
    assert!(is_parsing_error(Config::new(&format!(
        "actions = [{{ handler = 1, event = \"e\", emit = \"m\", arguments = 1 }}]\n{rest}"
    ))));
    assert!(is_parsing_error(Config::new(&format!(
        "actions = [{{ handler = \"h\", event = \"e\", emit = \"m\", arguments = 1, accepted-input = \"Sometimes\" }}]\n{rest}"
    ))));
    assert!(is_parsing_error(Config::new(
        "actions = []\ntriggers = [{ source = \"cron\", emit = \"tick\" }]\n[sources]\n[handlers]\n"
    )));
}

#[test]
fn a_source_or_handler_that_is_no_table_is_rejected() {
    assert!(is_parsing_error(Config::new(
        "actions = []\ntriggers = []\n[sources]\ncron = 1\n[handlers]\n"
    )));
    assert!(is_parsing_error(Config::new(
        "actions = []\ntriggers = []\nhandlers = 3\n[sources]\n"
    )));
}

#[test]
fn a_configuration_can_be_read_from_a_value() {
    let value = Value::Table(vec![
        ("sources".to_string(), Value::Table(vec![])),
        ("handlers".to_string(), Value::Table(vec![])),
        ("actions".to_string(), Value::Array(vec![])),
        ("triggers".to_string(), Value::Array(vec![])),
        ("more".to_string(), Value::Integer(1)),
    ]);
    let config = Config::from_value(&value).unwrap();
    assert!(config.sources.is_empty() && config.actions.is_empty());
    assert!(is_parsing_error(Config::from_value(&Value::Null)));
}

#[test]
fn a_document_builds_a_dispatcher() {
    let bot = BotBuilder::default()
        .with_handler("debug".to_string())
        .with_source("cron".to_string())
        .build(Config::new(MINIMAL).unwrap())
        .unwrap();
    assert_eq!(bot.handlers, vec![("printer".to_string(), "debug".to_string())]);
    assert_eq!(bot.sources[0].triggers.len(), 1);
}
