use ancymon::actions::{AcceptedInput, Action};
use ancymon::bot::{
    build_actions, build_handlers, group_triggers, route_triggers, Bot, BotBuilder, Evaluation,
    BUS_CAPACITY,
};
use ancymon::config::Config;
use ancymon::errors::{AncymonError, ConfigError, RuntimeError};
use ancymon::events::Event;
use ancymon::triggers::Trigger;
use ancymon::values::Value;

fn action(handler: &str, event: &str, emit: &str, accepted_input: AcceptedInput) -> Action {
    Action {
        handler: handler.to_string(),
        event: event.to_string(),
        emit: emit.to_string(),
        arguments: Value::Null,
        accepted_input,
    }
}

fn bot(actions: Vec<Action>, handlers: &[&str]) -> Bot {
    Bot {
        actions: build_actions(&actions),
        handlers: handlers
            .iter()
            .map(|name| (name.to_string(), "debug".to_string()))
            .collect(),
        sources: vec![],
    }
}

fn fired(evaluations: &[Evaluation]) -> Vec<(String, Value, String)> {
    let mut out = vec![];
    for evaluation in evaluations {
        if let Evaluation::Invoke {
            handler,
            input,
            emit,
            ..
        } = evaluation
        {
            out.push((handler.clone(), input.clone(), emit.clone()));
        }
    }
    out
}

#[test]
fn an_echoed_tick_becomes_a_new_event() {
    let bot = bot(
        vec![action("echo", "tick", "echoed", AcceptedInput::NotNull)],
        &["echo"],
    );
    let event = Event::new("tick".to_string(), Ok(Value::Integer(5)));
    let evaluations = bot.execute_event(&event);
    assert_eq!(evaluations.len(), 1);
    match &evaluations[0] {
        Evaluation::Invoke {
            handler,
            input,
            arguments,
            emit,
        } => {
            assert_eq!(handler, "echo");
            assert_eq!(*input, Value::Integer(5));
            assert_eq!(*arguments, Value::Null);
            let echoed = Ok(input.clone());
            let derived = Event::new(emit.clone(), echoed);
            assert_eq!(derived.name, "echoed");
            assert_eq!(derived.value.unwrap(), Value::Integer(5));
        }
        other => panic!("unexpected: {other:?}"),
    }
}

#[test]
fn an_error_reaches_the_handler_as_its_text() {
    let bot = bot(
        vec![action("report", "db", "reported", AcceptedInput::Failure)],
        &["report"],
    );
    let event = Event::new(
        "db".to_string(),
        Err(AncymonError::RuntimeError(RuntimeError::Handler(
            "timeout".to_string(),
        ))),
    );
    let evaluations = bot.execute_event(&event);
    assert_eq!(
        fired(&evaluations),
        vec![(
            "report".to_string(),
            Value::String("timeout".to_string()),
            "reported".to_string()
        )]
    );
}

#[test]
fn the_filter_table_holds_for_every_payload_and_filter() {
    let some = || Ok(Value::Integer(1));
    let null = || Ok(Value::Null);
    let err = || Err(AncymonError::ConversionError("bad".to_string()));
    let text = Value::String("bad".to_string());

    assert_eq!(AcceptedInput::NotNull.input_for(&some()), Some(Value::Integer(1)));
    assert_eq!(AcceptedInput::NotNull.input_for(&null()), None);
    assert_eq!(AcceptedInput::NotNull.input_for(&err()), None);

    assert_eq!(AcceptedInput::Null.input_for(&some()), None);
    assert_eq!(AcceptedInput::Null.input_for(&null()), Some(Value::Null));
    assert_eq!(AcceptedInput::Null.input_for(&err()), None);

    assert_eq!(AcceptedInput::Success.input_for(&some()), Some(Value::Integer(1)));
    assert_eq!(AcceptedInput::Success.input_for(&null()), Some(Value::Null));
    assert_eq!(AcceptedInput::Success.input_for(&err()), None);

    assert_eq!(AcceptedInput::Failure.input_for(&some()), None);
    assert_eq!(AcceptedInput::Failure.input_for(&null()), None);
    assert_eq!(AcceptedInput::Failure.input_for(&err()), Some(text));
}

#[test]
fn the_default_filter_is_not_null() {
    assert_eq!(AcceptedInput::default(), AcceptedInput::NotNull);
}

#[test]
fn overlapping_filters_fire_independently() {
    let bot = bot(
        vec![
            action("a", "e", "from_not_null", AcceptedInput::NotNull),
            action("b", "e", "from_ok", AcceptedInput::Success),
            action("c", "e", "from_null", AcceptedInput::Null),
            action("d", "e", "from_err", AcceptedInput::Failure),
        ],
        &["a", "b", "c", "d"],
    );
    let value = Event::new("e".to_string(), Ok(Value::Bool(true)));
    let evaluations = bot.execute_event(&value);
    assert_eq!(evaluations.len(), 4);
    assert_eq!(
        fired(&evaluations),
        vec![
            ("a".to_string(), Value::Bool(true), "from_not_null".to_string()),
            ("b".to_string(), Value::Bool(true), "from_ok".to_string()),
        ]
    );
    assert!(matches!(evaluations[2], Evaluation::Skipped));
    assert!(matches!(evaluations[3], Evaluation::Skipped));

    let null = Event::new("e".to_string(), Ok(Value::Null));
    assert_eq!(
        fired(&bot.execute_event(&null)),
        vec![
            ("b".to_string(), Value::Null, "from_ok".to_string()),
            ("c".to_string(), Value::Null, "from_null".to_string()),
        ]
    );
}

#[test]
fn every_matching_action_is_evaluated_once_and_no_other() {
    let bot = bot(
        vec![
            action("h", "x", "x1", AcceptedInput::Success),
            action("h", "y", "y1", AcceptedInput::Success),
            action("h", "x", "x2", AcceptedInput::Success),
            action("h", "x", "x1", AcceptedInput::Success),
        ],
        &["h"],
    );
    let on_x = bot.execute_event(&Event::new("x".to_string(), Ok(Value::Integer(0))));
    let emitted: Vec<String> = fired(&on_x).into_iter().map(|f| f.2).collect();
    assert_eq!(emitted, vec!["x1", "x2", "x1"]);
    let on_y = bot.execute_event(&Event::new("y".to_string(), Ok(Value::Integer(0))));
    assert_eq!(on_y.len(), 1);
    let on_z = bot.execute_event(&Event::new("z".to_string(), Ok(Value::Integer(0))));
    assert!(on_z.is_empty());
}

#[test]
fn an_unknown_handler_is_passed_over_and_the_others_run() {
    let bot = bot(
        vec![
            action("known", "e", "first", AcceptedInput::Success),
            action("missing", "e", "second", AcceptedInput::Success),
            action("known", "e", "third", AcceptedInput::Success),
        ],
        &["known"],
    );
    let evaluations = bot.execute_event(&Event::new("e".to_string(), Ok(Value::Integer(1))));
    assert_eq!(evaluations.len(), 3);
    assert!(matches!(&evaluations[0], Evaluation::Invoke { emit, .. } if emit == "first"));
    assert!(
        matches!(&evaluations[1], Evaluation::MissingHandler { handler } if handler == "missing")
    );
    assert!(matches!(&evaluations[2], Evaluation::Invoke { emit, .. } if emit == "third"));
}

#[test]
fn an_unknown_handler_is_not_looked_up_where_the_filter_rejects() {
    let bot = bot(
        vec![action("missing", "e", "out", AcceptedInput::Failure)],
        &[],
    );
    let evaluations = bot.execute_event(&Event::new("e".to_string(), Ok(Value::Integer(1))));
    assert!(matches!(evaluations[0], Evaluation::Skipped));
}

#[test]
fn the_arguments_of_the_action_go_to_the_handler() {
    let mut with_arguments = action("h", "e", "out", AcceptedInput::Success);
    with_arguments.arguments = Value::Table(vec![("n".to_string(), Value::Integer(9))]);
    let bot = bot(vec![with_arguments], &["h"]);
    let evaluations = bot.execute_event(&Event::new("e".to_string(), Ok(Value::Null)));
    match &evaluations[0] {
        Evaluation::Invoke { arguments, .. } => assert_eq!(
            *arguments,
            Value::Table(vec![("n".to_string(), Value::Integer(9))])
        ),
        other => panic!("unexpected: {other:?}"),
    }
}

#[test]
fn actions_are_grouped_by_event_in_configuration_order() {
    let groups = build_actions(&vec![
        action("h", "b", "1", AcceptedInput::NotNull),
        action("h", "a", "2", AcceptedInput::NotNull),
        action("h", "b", "3", AcceptedInput::NotNull),
    ]);
    assert_eq!(groups.len(), 2);
    assert_eq!(groups[0].0, "b");
    let emits: Vec<&str> = groups[0].1.iter().map(|a| a.emit.as_str()).collect();
    assert_eq!(emits, vec!["1", "3"]);
    assert_eq!(groups[1].0, "a");
    assert_eq!(groups[1].1.len(), 1);
}

fn trigger(source: &str, emit: &str) -> Trigger {
    Trigger {
        source: source.to_string(),
        emit: emit.to_string(),
        arguments: Value::String("* * * * * *".to_string()),
    }
}

#[test]
fn triggers_are_grouped_by_source_in_order_of_first_occurrence() {
    let groups = group_triggers(&vec![
        trigger("cron", "a"),
        trigger("chat", "b"),
        trigger("cron", "c"),
    ]);
    assert_eq!(groups.len(), 2);
    assert_eq!(groups[0].0, "cron");
    let emits: Vec<&str> = groups[0].1.iter().map(|t| t.emit.as_str()).collect();
    assert_eq!(emits, vec!["a", "c"]);
    assert_eq!(groups[1].0, "chat");
}

#[test]
fn triggers_are_routed_to_their_source_with_its_table() {
    let registered = vec!["cron".to_string()];
    let configs = vec![(
        "cron".to_string(),
        Value::Table(vec![("zone".to_string(), Value::String("utc".to_string()))]),
    )];
    let routes =
        route_triggers(&registered, &configs, &vec![trigger("cron", "a"), trigger("cron", "b")])
            .unwrap();
    assert_eq!(routes.len(), 1);
    assert_eq!(routes[0].source, "cron");
    assert_eq!(routes[0].config, configs[0].1);
    assert_eq!(routes[0].triggers.len(), 2);
    assert_eq!(routes[0].triggers[1].emit, "b");
}

#[test]
fn a_trigger_of_an_unregistered_source_is_an_invalid_source() {
    let result = route_triggers(
        &vec!["cron".to_string()],
        &vec![("cron".to_string(), Value::Table(vec![]))],
        &vec![trigger("cron", "a"), trigger("chat", "b")],
    );
    match result {
        Err(AncymonError::ConfigError(ConfigError::InvalidSource(name))) => {
            assert_eq!(name, "chat")
        }
        other => panic!("unexpected: {other:?}"),
    }
}

#[test]
fn a_trigger_of_a_source_without_a_table_is_a_missing_config() {
    let result = route_triggers(&vec!["cron".to_string()], &vec![], &vec![trigger("cron", "a")]);
    match result {
        Err(AncymonError::ConfigError(ConfigError::MissingConfig(name))) => {
            assert_eq!(name, "cron")
        }
        other => panic!("unexpected: {other:?}"),
    }
}

fn handler_config(kind: Value) -> Value {
    Value::Table(vec![("type".to_string(), kind)])
}

#[test]
fn every_handler_instance_gets_the_type_its_table_names() {
    let builders = vec!["debug".to_string(), "sql".to_string()];
    let plan = build_handlers(
        &builders,
        &vec![
            ("one".to_string(), handler_config(Value::String("sql".to_string()))),
            ("two".to_string(), handler_config(Value::String("debug".to_string()))),
            ("three".to_string(), handler_config(Value::String("sql".to_string()))),
        ],
    )
    .unwrap();
    assert_eq!(
        plan,
        vec![
            ("one".to_string(), "sql".to_string()),
            ("two".to_string(), "debug".to_string()),
            ("three".to_string(), "sql".to_string()),
        ]
    );
}

#[test]
fn a_handler_table_without_type_is_a_missing_value() {
    let result = build_handlers(
        &vec!["debug".to_string()],
        &vec![("one".to_string(), Value::Table(vec![]))],
    );
    match result {
        Err(AncymonError::ConfigError(ConfigError::MissingValue(text))) => {
            assert_eq!(text, "Key not found: `type` at handler config one")
        }
        other => panic!("unexpected: {other:?}"),
    }
}

#[test]
fn a_handler_type_that_is_no_string_is_an_invalid_value_type() {
    let result = build_handlers(
        &vec!["debug".to_string()],
        &vec![("one".to_string(), handler_config(Value::Integer(1)))],
    );
    match result {
        Err(AncymonError::ConfigError(ConfigError::InvalidValueType(text))) => {
            assert_eq!(text, "Expected string for key `type` at handler config one")
        }
        other => panic!("unexpected: {other:?}"),
    }
}

#[test]
fn a_handler_type_that_is_not_registered_is_an_invalid_handler_type() {
    let result = build_handlers(
        &vec!["debug".to_string()],
        &vec![
            ("one".to_string(), handler_config(Value::String("debug".to_string()))),
            ("two".to_string(), handler_config(Value::String("mail".to_string()))),
        ],
    );
    match result {
        Err(AncymonError::ConfigError(ConfigError::InvalidHandlerType(kind))) => {
            assert_eq!(kind, "mail")
        }
        other => panic!("unexpected: {other:?}"),
    }
}

#[test]
fn registering_a_name_twice_keeps_it_once() {
    let builder = BotBuilder::default()
        .with_handler("debug".to_string())
        .with_handler("sql".to_string())
        .with_handler("debug".to_string())
        .with_source("cron".to_string())
        .with_source("cron".to_string());
    assert_eq!(builder.handler_builders, vec!["debug", "sql"]);
    assert_eq!(builder.trigger_sources, vec!["cron"]);
}

fn sample_config() -> Config {
    Config {
        sources: vec![("cron".to_string(), Value::Table(vec![]))],
        handlers: vec![(
            "printer".to_string(),
            handler_config(Value::String("debug".to_string())),
        )],
        actions: vec![action("printer", "tick", "printed", AcceptedInput::NotNull)],
        triggers: vec![trigger("cron", "tick")],
    }
}

#[test]
fn a_dispatcher_is_built_from_a_configuration() {
    let bot = BotBuilder::default()
        .with_handler("debug".to_string())
        .with_source("cron".to_string())
        .build(sample_config())
        .unwrap();
    assert_eq!(bot.handlers, vec![("printer".to_string(), "debug".to_string())]);
    assert_eq!(bot.sources.len(), 1);
    assert_eq!(bot.sources[0].source, "cron");
    assert_eq!(bot.sources[0].triggers[0].emit, "tick");
    let evaluations = bot.execute_event(&Event::new("tick".to_string(), Ok(Value::Integer(1))));
    assert!(matches!(&evaluations[0], Evaluation::Invoke { emit, .. } if emit == "printed"));
}

#[test]
fn a_handler_fault_comes_before_a_routing_fault() {
    let result = BotBuilder::default().build(sample_config());
    assert!(matches!(
        result,
        Err(AncymonError::ConfigError(ConfigError::InvalidHandlerType(_)))
    ));
    let result = BotBuilder::default()
        .with_handler("debug".to_string())
        .build(sample_config());
    assert!(matches!(
        result,
        Err(AncymonError::ConfigError(ConfigError::InvalidSource(_)))
    ));
}

#[test]
fn the_bus_holds_256_events() {
    assert_eq!(BUS_CAPACITY, 256);
}

#[test]
fn a_derived_event_carries_the_outcome_of_its_handler() {
    let failed = Event::new(
        "reported".to_string(),
        Err(AncymonError::RuntimeError(RuntimeError::Handler(
            "no connection".to_string(),
        ))),
    );
    let bot = bot(
        vec![
            action("log", "reported", "logged", AcceptedInput::Failure),
            action("store", "reported", "stored", AcceptedInput::NotNull),
        ],
        &["log", "store"],
    );
    assert_eq!(
        fired(&bot.execute_event(&failed)),
        vec![(
            "log".to_string(),
            Value::String("no connection".to_string()),
            "logged".to_string()
        )]
    );
    let copy = failed.clone();
    assert_eq!(copy.name, "reported");
    assert!(copy.value.is_err());
}
