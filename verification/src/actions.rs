//! Action bindings: which handler runs on which event, and which event its
//! outcome becomes.

use crate::errors::AncymonError;
use crate::values::{Value, ValueView};
use vstd::prelude::*;

verus! {

/// Which payloads of an event let an action fire.
#[derive(Clone, Copy, Debug, PartialEq, Eq, Structural)]
pub enum AcceptedInput {
    /// A value other than `Null`.
    NotNull,
    /// The value `Null`.
    Null,
    /// Any value.
    Success,
    /// An error.
    Failure,
}

impl Default for AcceptedInput {
    fn default() -> (r: Self)
        ensures
            r == AcceptedInput::NotNull,
    {
        AcceptedInput::NotNull
    }
}

/// What the filter hands to the handler for a payload, where the action
/// fires; nothing where it does not. An error reaches the handler as the
/// text it carries.
pub open spec fn handler_input(
    value: Result<ValueView, AncymonError>,
    accepted: AcceptedInput,
) -> Option<ValueView> {
    match (value, accepted) {
        (Ok(v), AcceptedInput::NotNull) => if v is Null {
            None
        } else {
            Some(v)
        },
        (Ok(v), AcceptedInput::Null) => if v is Null {
            Some(ValueView::Null)
        } else {
            None
        },
        (Ok(v), AcceptedInput::Success) => Some(v),
        (Err(e), AcceptedInput::Failure) => Some(ValueView::String(e.text())),
        _ => None,
    }
}

/// A payload as contracts see it: the value by what it denotes.
pub open spec fn payload_view(value: Result<Value, AncymonError>) -> Result<
    ValueView,
    AncymonError,
> {
    match value {
        Ok(v) => Ok(v@),
        Err(e) => Err(e),
    }
}

impl AcceptedInput {
    /// Applies the filter to an event's payload: the handler's input where
    /// the action fires, nothing where it does not.
    pub fn input_for(self, value: &Result<Value, AncymonError>) -> (r: Option<Value>)
        ensures
            match handler_input(payload_view(*value), self) {
                Some(input) => r matches Some(v) && v@ == input,
                None => r is None,
            },
    {
        match value {
            Ok(v) => match self {
                AcceptedInput::NotNull => if v.is_null() {
                    None
                } else {
                    Some(v.clone())
                },
                AcceptedInput::Null => if v.is_null() {
                    Some(Value::Null)
                } else {
                    None
                },
                AcceptedInput::Success => Some(v.clone()),
                AcceptedInput::Failure => None,
            },
            Err(e) => match self {
                AcceptedInput::Failure => Some(Value::String(e.message())),
                _ => None,
            },
        }
    }
}

/// Every payload passes exactly one of the filters `NotNull`, `Null` and
/// `Failure`, and `Success` passes exactly the values: so an action that
/// accepts `Success` fires beside the one that accepts `NotNull` or `Null`,
/// with the same input.
pub proof fn lemma_filters_partition(value: Result<ValueView, AncymonError>)
    ensures
        handler_input(value, AcceptedInput::Success) is Some <==> value is Ok,
        handler_input(value, AcceptedInput::Failure) is Some <==> value is Err,
        value is Ok ==> (handler_input(value, AcceptedInput::NotNull) is Some
            <==> handler_input(value, AcceptedInput::Null) is None),
        value is Ok ==> (handler_input(value, AcceptedInput::NotNull) is Some
            ==> handler_input(value, AcceptedInput::NotNull) == handler_input(
            value,
            AcceptedInput::Success,
        )),
        value is Ok ==> (handler_input(value, AcceptedInput::Null) is Some ==> handler_input(
            value,
            AcceptedInput::Null,
        ) == handler_input(value, AcceptedInput::Success)),
        value is Err ==> handler_input(value, AcceptedInput::NotNull) is None && handler_input(
            value,
            AcceptedInput::Null,
        ) is None,
{
}

/// What an [`Action`] denotes.
pub struct ActionView {
    pub handler: Seq<char>,
    pub event: Seq<char>,
    pub emit: Seq<char>,
    pub arguments: ValueView,
    pub accepted_input: AcceptedInput,
}

/// An action binding: when an event named `event` occurs and its payload
/// passes `accepted_input`, the handler named `handler` runs on it with
/// `arguments`, and its outcome becomes an event named `emit`.
#[derive(Debug)]
pub struct Action {
    pub handler: String,
    pub event: String,
    pub emit: String,
    pub arguments: Value,
    pub accepted_input: AcceptedInput,
}

impl View for Action {
    type V = ActionView;

    open spec fn view(&self) -> ActionView {
        ActionView {
            handler: self.handler@,
            event: self.event@,
            emit: self.emit@,
            arguments: self.arguments@,
            accepted_input: self.accepted_input,
        }
    }
}

impl Clone for Action {
    fn clone(&self) -> (r: Self)
        ensures
            r@ == self@,
    {
        Action {
            handler: self.handler.clone(),
            event: self.event.clone(),
            emit: self.emit.clone(),
            arguments: self.arguments.clone(),
            accepted_input: self.accepted_input,
        }
    }
}

} // verus!
