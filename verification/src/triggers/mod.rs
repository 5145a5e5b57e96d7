//! Trigger bindings and the sources that fire them.

use crate::values::{Value, ValueView};
use vstd::prelude::*;

pub mod cron;

verus! {

/// What a [`Trigger`] denotes.
pub struct TriggerView {
    pub source: Seq<char>,
    pub emit: Seq<char>,
    pub arguments: ValueView,
}

/// A trigger binding: when the source named `source` fires for this binding,
/// an event named `emit` is produced. `arguments` is what the source needs to
/// know of the binding, such as a schedule pattern.
#[derive(Debug)]
pub struct Trigger {
    pub source: String,
    pub emit: String,
    pub arguments: Value,
}

impl View for Trigger {
    type V = TriggerView;

    open spec fn view(&self) -> TriggerView {
        TriggerView { source: self.source@, emit: self.emit@, arguments: self.arguments@ }
    }
}

impl Clone for Trigger {
    fn clone(&self) -> (r: Self)
        ensures
            r@ == self@,
    {
        Trigger {
            source: self.source.clone(),
            emit: self.emit.clone(),
            arguments: self.arguments.clone(),
        }
    }
}

} // verus!
