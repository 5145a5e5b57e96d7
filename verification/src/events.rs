//! Events: named occurrences that carry a value or an error.

use crate::actions::payload_view;
use crate::errors::AncymonError;
use crate::values::{Value, ValueView};
use vstd::prelude::*;

verus! {

/// What an event carries.
pub type EventValue = Result<Value, AncymonError>;

/// What an [`Event`] denotes.
pub struct EventView {
    pub name: Seq<char>,
    pub value: Result<ValueView, AncymonError>,
}

/// A named occurrence with its payload.
#[derive(Debug)]
pub struct Event {
    pub name: String,
    pub value: Result<Value, AncymonError>,
}

impl View for Event {
    type V = EventView;

    open spec fn view(&self) -> EventView {
        EventView { name: self.name@, value: payload_view(self.value) }
    }
}

impl Clone for Event {
    fn clone(&self) -> (r: Self)
        ensures
            r@ == self@,
    {
        Event {
            name: self.name.clone(),
            value: match &self.value {
                Ok(v) => Ok(v.clone()),
                Err(e) => Err(e.clone()),
            },
        }
    }
}

impl Event {
    /// An event named `name` that carries `value`.
    pub fn new(name: String, value: EventValue) -> (r: Self)
        ensures
            r.name == name,
            r.value == value,
    {
        Self { name, value }
    }
}

} // verus!
