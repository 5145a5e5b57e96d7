//! The configuration that a dispatcher is built from, and how it is read
//! from a value.

use crate::actions::{AcceptedInput, Action, ActionView};
use crate::bot::{action_views, trigger_views};
use crate::decode::{decodable, decoded, lemma_decodable_iff_no_fault, toml_document};
use crate::entries::{
    entry_keys, find_entry, first_index, is_first, lemma_first_exists, lemma_first_index,
};
use crate::errors::{AncymonError, ConfigError};
use crate::triggers::{Trigger, TriggerView};
use crate::values::{array_view, table_view, Value, ValueView};
use vstd::prelude::*;

verus! {

/// What a [`Config`] denotes.
pub struct ConfigView {
    pub sources: Map<Seq<char>, ValueView>,
    pub handlers: Map<Seq<char>, ValueView>,
    pub actions: Seq<ActionView>,
    pub triggers: Seq<TriggerView>,
}

/// The typed configuration: the configuration table of each trigger source
/// and of each handler instance, by name, and the bindings.
#[derive(Debug)]
pub struct Config {
    pub sources: Vec<(String, Value)>,
    pub handlers: Vec<(String, Value)>,
    pub actions: Vec<Action>,
    pub triggers: Vec<Trigger>,
}

impl View for Config {
    type V = ConfigView;

    open spec fn view(&self) -> ConfigView {
        ConfigView {
            sources: table_view(self.sources@),
            handlers: table_view(self.handlers@),
            actions: action_views(self.actions@),
            triggers: trigger_views(self.triggers@),
        }
    }
}

/// What a table binds to `key`; nothing where it binds none, and nothing of
/// a value that is no table.
pub open spec fn field(value: ValueView, key: Seq<char>) -> Option<ValueView> {
    match value {
        ValueView::Table(m) => if m.contains_key(key) {
            Some(m[key])
        } else {
            None
        },
        _ => None,
    }
}

/// The string that a table binds to `key`, where it binds one.
pub open spec fn text_field(value: ValueView, key: Seq<char>) -> Option<Seq<char>> {
    match field(value, key) {
        Some(ValueView::String(s)) => Some(s),
        _ => None,
    }
}

/// The filter that a name stands for.
pub open spec fn accepted_named(name: Seq<char>) -> Option<AcceptedInput> {
    if name == "NotNull"@ {
        Some(AcceptedInput::NotNull)
    } else if name == "Null"@ {
        Some(AcceptedInput::Null)
    } else if name == "Ok"@ {
        Some(AcceptedInput::Success)
    } else if name == "Err"@ {
        Some(AcceptedInput::Failure)
    } else {
        None
    }
}

/// The filter of an action's table: `NotNull` where the table has no
/// `accepted-input`; nothing where what it has there is no filter's name.
pub open spec fn accepted_of(value: ValueView) -> Option<AcceptedInput> {
    match field(value, "accepted-input"@) {
        None => Some(AcceptedInput::NotNull),
        Some(ValueView::String(s)) => accepted_named(s),
        Some(_) => None,
    }
}

/// The action binding that a value holds: a table with the strings
/// `handler`, `event` and `emit`, with `arguments`, and with a filter.
pub open spec fn action_of(value: ValueView) -> Option<ActionView> {
    if text_field(value, "handler"@) is Some && text_field(value, "event"@) is Some && text_field(
        value,
        "emit"@,
    ) is Some && field(value, "arguments"@) is Some && accepted_of(value) is Some {
        Some(
            ActionView {
                handler: text_field(value, "handler"@).unwrap(),
                event: text_field(value, "event"@).unwrap(),
                emit: text_field(value, "emit"@).unwrap(),
                arguments: field(value, "arguments"@).unwrap(),
                accepted_input: accepted_of(value).unwrap(),
            },
        )
    } else {
        None
    }
}

/// The trigger binding that a value holds: a table with the strings
/// `source` and `emit`, and with `arguments`.
pub open spec fn trigger_of(value: ValueView) -> Option<TriggerView> {
    if text_field(value, "source"@) is Some && text_field(value, "emit"@) is Some && field(
        value,
        "arguments"@,
    ) is Some {
        Some(
            TriggerView {
                source: text_field(value, "source"@).unwrap(),
                emit: text_field(value, "emit"@).unwrap(),
                arguments: field(value, "arguments"@).unwrap(),
            },
        )
    } else {
        None
    }
}

/// A table all of whose values are tables.
pub open spec fn is_tables(value: ValueView) -> bool {
    value matches ValueView::Table(m) && forall|key: Seq<char>|
        m.contains_key(key) ==> #[trigger] m[key] is Table
}

/// An array all of whose items hold an action binding.
pub open spec fn is_actions(value: ValueView) -> bool {
    value matches ValueView::Array(items) && forall|i: int|
        0 <= i < items.len() ==> action_of(#[trigger] items[i]) is Some
}

/// An array all of whose items hold a trigger binding.
pub open spec fn is_triggers(value: ValueView) -> bool {
    value matches ValueView::Array(items) && forall|i: int|
        0 <= i < items.len() ==> trigger_of(#[trigger] items[i]) is Some
}

/// The configuration that a value holds: a table with the tables of tables
/// `sources` and `handlers` and with the arrays of bindings `actions` and
/// `triggers`. What else the tables hold is passed over.
pub open spec fn config_of(value: ValueView) -> Option<ConfigView> {
    let sources = field(value, "sources"@);
    let handlers = field(value, "handlers"@);
    let actions = field(value, "actions"@);
    let triggers = field(value, "triggers"@);
    if sources is Some && is_tables(sources.unwrap()) && handlers is Some && is_tables(
        handlers.unwrap(),
    ) && actions is Some && is_actions(actions.unwrap()) && triggers is Some && is_triggers(
        triggers.unwrap(),
    ) {
        Some(
            ConfigView {
                sources: sources.unwrap()->Table_0,
                handlers: handlers.unwrap()->Table_0,
                actions: Seq::new(
                    actions.unwrap()->Array_0.len(),
                    |i: int| action_of(actions.unwrap()->Array_0[i]).unwrap(),
                ),
                triggers: Seq::new(
                    triggers.unwrap()->Array_0.len(),
                    |i: int| trigger_of(triggers.unwrap()->Array_0[i]).unwrap(),
                ),
            },
        )
    } else {
        None
    }
}

fn read_text(value: &Value, key: &str) -> (r: Option<String>)
    ensures
        match text_field(value@, key@) {
            Some(s) => r matches Some(t) && t@ == s,
            None => r is None,
        },
{
    match value.get(key) {
        Some(v) => match v.as_str() {
            Some(s) => Some(s.to_owned()),
            None => None,
        },
        None => None,
    }
}

fn read_value(value: &Value, key: &str) -> (r: Option<Value>)
    ensures
        match field(value@, key@) {
            Some(x) => r matches Some(v) && v@ == x,
            None => r is None,
        },
{
    match value.get(key) {
        Some(v) => Some(v.clone()),
        None => None,
    }
}

fn same_text(a: &str, b: &str) -> (r: bool)
    ensures
        r == (a@ == b@),
{
    a.to_owned() == b.to_owned()
}

fn read_accepted(value: &Value) -> (r: Option<AcceptedInput>)
    ensures
        r == accepted_of(value@),
{
    match value.get("accepted-input") {
        None => Some(AcceptedInput::NotNull),
        Some(v) => match v.as_str() {
            None => None,
            Some(name) => {
                if same_text(name, "NotNull") {
                    Some(AcceptedInput::NotNull)
                } else if same_text(name, "Null") {
                    Some(AcceptedInput::Null)
                } else if same_text(name, "Ok") {
                    Some(AcceptedInput::Success)
                } else if same_text(name, "Err") {
                    Some(AcceptedInput::Failure)
                } else {
                    None
                }
            },
        },
    }
}

fn read_action(value: &Value) -> (r: Option<Action>)
    ensures
        match action_of(value@) {
            Some(a) => r matches Some(action) && action@ == a,
            None => r is None,
        },
{
    let handler = match read_text(value, "handler") {
        Some(s) => s,
        None => {
            return None;
        },
    };
    let event = match read_text(value, "event") {
        Some(s) => s,
        None => {
            return None;
        },
    };
    let emit = match read_text(value, "emit") {
        Some(s) => s,
        None => {
            return None;
        },
    };
    let arguments = match read_value(value, "arguments") {
        Some(v) => v,
        None => {
            return None;
        },
    };
    let accepted_input = match read_accepted(value) {
        Some(a) => a,
        None => {
            return None;
        },
    };
    Some(Action { handler, event, emit, arguments, accepted_input })
}

fn read_trigger(value: &Value) -> (r: Option<Trigger>)
    ensures
        match trigger_of(value@) {
            Some(t) => r matches Some(trigger) && trigger@ == t,
            None => r is None,
        },
{
    let source = match read_text(value, "source") {
        Some(s) => s,
        None => {
            return None;
        },
    };
    let emit = match read_text(value, "emit") {
        Some(s) => s,
        None => {
            return None;
        },
    };
    let arguments = match read_value(value, "arguments") {
        Some(v) => v,
        None => {
            return None;
        },
    };
    Some(Trigger { source, emit, arguments })
}

fn read_tables(value: &Value) -> (r: Option<Vec<(String, Value)>>)
    ensures
        is_tables(value@) ==> (r matches Some(list) && table_view(list@) == value@->Table_0),
        !is_tables(value@) ==> r is None,
{
    let entries = match value.as_map() {
        Some(entries) => entries,
        None => {
            return None;
        },
    };
    let ghost keys = entry_keys(entries@);
    let ghost m = value@->Table_0;
    let mut i: usize = 0;
    while i < entries.len()
        invariant
            i <= entries.len(),
            keys == entry_keys(entries@),
            value@ == ValueView::Table(m),
            m == table_view(entries@),
            forall|j: int|
                0 <= j < i && is_first(keys, #[trigger] keys[j], j) ==> entries[j].1@ is Table,
        decreases entries.len() - i,
    {
        let name = entries[i].0.as_str();
        assert(name@ == keys[i as int]);
        match find_entry(entries, name) {
            Some(first) => {
                if first == i && entries[i].1.as_map().is_none() {
                    proof {
                        lemma_first_index(keys, name@, i as int);
                        assert(m.contains_key(name@));
                        assert(!(m[name@] is Table));
                    }
                    return None;
                }
            },
            None => {
                assert(false);
            },
        }
        i += 1;
    }
    proof {
        assert forall|key: Seq<char>| m.contains_key(key) implies #[trigger] m[key] is Table by {
            lemma_first_exists(keys, key);
            let f = first_index(keys, key);
            assert(keys[f] == key);
        }
    }
    match value.clone() {
        Value::Table(list) => {
            proof {
                Value::lemma_table_view(list);
            }
            Some(list)
        },
        _ => None,
    }
}

fn read_actions(value: &Value) -> (r: Option<Vec<Action>>)
    ensures
        is_actions(value@) ==> (r matches Some(list) && list.len() == value@->Array_0.len()
            && forall|i: int|
            0 <= i < list.len() ==> action_of(value@->Array_0[i]) == Some((#[trigger] list[i])@)),
        !is_actions(value@) ==> r is None,
{
    let items = match value.as_array() {
        Some(items) => items,
        None => {
            return None;
        },
    };
    let ghost src = value@->Array_0;
    let mut out: Vec<Action> = Vec::new();
    let mut i: usize = 0;
    while i < items.len()
        invariant
            i <= items.len(),
            out.len() == i,
            value@ == ValueView::Array(src),
            src == array_view(items@),
            forall|j: int| 0 <= j < i ==> action_of(src[j]) == Some((#[trigger] out[j])@),
        decreases items.len() - i,
    {
        assert(src[i as int] == items[i as int]@);
        match read_action(&items[i]) {
            Some(action) => {
                out.push(action);
            },
            None => {
                return None;
            },
        }
        i += 1;
    }
    assert forall|j: int| 0 <= j < src.len() implies action_of(#[trigger] src[j]) is Some by {
        assert(action_of(src[j]) == Some(out[j]@));
    }
    Some(out)
}

fn read_triggers(value: &Value) -> (r: Option<Vec<Trigger>>)
    ensures
        is_triggers(value@) ==> (r matches Some(list) && list.len() == value@->Array_0.len()
            && forall|i: int|
            0 <= i < list.len() ==> trigger_of(value@->Array_0[i]) == Some(
                (#[trigger] list[i])@,
            )),
        !is_triggers(value@) ==> r is None,
{
    let items = match value.as_array() {
        Some(items) => items,
        None => {
            return None;
        },
    };
    let ghost src = value@->Array_0;
    let mut out: Vec<Trigger> = Vec::new();
    let mut i: usize = 0;
    while i < items.len()
        invariant
            i <= items.len(),
            out.len() == i,
            value@ == ValueView::Array(src),
            src == array_view(items@),
            forall|j: int| 0 <= j < i ==> trigger_of(src[j]) == Some((#[trigger] out[j])@),
        decreases items.len() - i,
    {
        assert(src[i as int] == items[i as int]@);
        match read_trigger(&items[i]) {
            Some(trigger) => {
                out.push(trigger);
            },
            None => {
                return None;
            },
        }
        i += 1;
    }
    assert forall|j: int| 0 <= j < src.len() implies trigger_of(#[trigger] src[j]) is Some by {
        assert(trigger_of(src[j]) == Some(out[j]@));
    }
    Some(out)
}

impl Config {
    /// Reads a configuration from a value.
    ///
    /// Succeeds exactly where the value holds a configuration; every
    /// failure is a `ParsingError`.
    pub fn from_value(value: &Value) -> (r: Result<Config, AncymonError>)
        ensures
            match config_of(value@) {
                Some(c) => r matches Ok(config) && config@ == c,
                None => r matches Err(AncymonError::ConfigError(ConfigError::ParsingError)),
            },
    {
        let sources = match value.get("sources") {
            Some(v) => read_tables(v),
            None => None,
        };
        let handlers = match value.get("handlers") {
            Some(v) => read_tables(v),
            None => None,
        };
        let actions = match value.get("actions") {
            Some(v) => read_actions(v),
            None => None,
        };
        let triggers = match value.get("triggers") {
            Some(v) => read_triggers(v),
            None => None,
        };
        match (sources, handlers, actions, triggers) {
            (Some(sources), Some(handlers), Some(actions), Some(triggers)) => {
                let config = Config { sources, handlers, actions, triggers };
                proof {
                    let c = config_of(value@).unwrap();
                    assert(config@.actions =~= c.actions);
                    assert(config@.triggers =~= c.triggers);
                }
                Ok(config)
            },
            _ => Err(AncymonError::ConfigError(ConfigError::ParsingError)),
        }
    }

    /// Reads a configuration from the text of a TOML document: the
    /// document is read as a value, and the value as a configuration.
    /// Every failure is a `ParsingError`.
    pub fn new(s: &str) -> (r: Result<Config, AncymonError>)
        ensures
            match toml_document(s@) {
                Some(doc) => if decodable(doc) {
                    match config_of(decoded(doc)) {
                        Some(c) => r matches Ok(config) && config@ == c,
                        None => r matches Err(
                            AncymonError::ConfigError(ConfigError::ParsingError),
                        ),
                    }
                } else {
                    r matches Err(AncymonError::ConfigError(ConfigError::ParsingError))
                },
                None => r matches Err(AncymonError::ConfigError(ConfigError::ParsingError)),
            },
    {
        proof {
            if toml_document(s@) is Some {
                lemma_decodable_iff_no_fault(toml_document(s@).unwrap());
            }
        }
        match Value::from_toml(s) {
            Ok(value) => Config::from_value(&value),
            Err(_) => Err(AncymonError::ConfigError(ConfigError::ParsingError)),
        }
    }
}

} // verus!
