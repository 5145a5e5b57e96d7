//! Handlers: the units of work that the dispatcher calls.

use crate::errors::AncymonError;
use crate::values::Value;
use vstd::prelude::*;

pub mod sql;

verus! {

/// A handler that shows its input and returns nothing.
#[derive(Debug)]
pub struct DebugHandler;

impl DebugHandler {
    /// The outcome of the handler: `Null`, whatever the input and the
    /// arguments are.
    pub fn execute(&self, event: &Value, arguments: &Value) -> (r: Result<Value, AncymonError>)
        ensures
            r matches Ok(v) && v@ is Null,
    {
        Ok(Value::Null)
    }
}

/// Builds [`DebugHandler`]s.
#[derive(Debug)]
pub struct DebugBuilder;

impl DebugBuilder {
    /// A new handler. Building one never fails.
    pub fn build(&self) -> (r: Result<DebugHandler, AncymonError>)
        ensures
            r is Ok,
    {
        Ok(DebugHandler)
    }
}

} // verus!
