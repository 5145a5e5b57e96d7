//! Error taxonomy: configuration, build, runtime and conversion failures.

use vstd::prelude::*;
use vstd::std_specs::convert::FromSpecImpl;
use vstd::string::StringExecFns;

verus! {

/// A fault in the configuration handed to the builder.
#[derive(Debug)]
pub enum ConfigError {
    ParsingError,
    MissingValue(String),
    InvalidValue(String),
    InvalidValueType(String),
    MissingConfig(String),
    InvalidSource(String),
    InvalidHandlerType(String),
}

/// A plugin that could not be built or initialised.
#[derive(Debug)]
pub enum BuildError {
    Handler(String),
    Source(String),
}

/// A failure while the dispatcher is running.
#[derive(Debug)]
pub enum RuntimeError {
    InvalidArguments(String),
    InvalidArgumentType(String),
    Bot(String),
    Handler(String),
    Source(String),
}

/// Every error the library reports.
#[derive(Debug)]
pub enum AncymonError {
    BuildError(BuildError),
    ConfigError(ConfigError),
    RuntimeError(RuntimeError),
    ConversionError(String),
}

impl ConfigError {
    /// The text this error carries.
    pub open spec fn text(self) -> Seq<char> {
        match self {
            ConfigError::ParsingError => "configuration could not be parsed"@,
            ConfigError::MissingValue(s) => s@,
            ConfigError::InvalidValue(s) => s@,
            ConfigError::InvalidValueType(s) => s@,
            ConfigError::MissingConfig(s) => s@,
            ConfigError::InvalidSource(s) => s@,
            ConfigError::InvalidHandlerType(s) => s@,
        }
    }

    /// Renders the error as the text it carries.
    pub fn message(&self) -> (r: String)
        ensures
            r@ == self.text(),
    {
        match self {
            ConfigError::ParsingError => String::from_str("configuration could not be parsed"),
            ConfigError::MissingValue(s) => s.clone(),
            ConfigError::InvalidValue(s) => s.clone(),
            ConfigError::InvalidValueType(s) => s.clone(),
            ConfigError::MissingConfig(s) => s.clone(),
            ConfigError::InvalidSource(s) => s.clone(),
            ConfigError::InvalidHandlerType(s) => s.clone(),
        }
    }
}

impl BuildError {
    /// The text this error carries.
    pub open spec fn text(self) -> Seq<char> {
        match self {
            BuildError::Handler(s) => s@,
            BuildError::Source(s) => s@,
        }
    }

    /// Renders the error as the text it carries.
    pub fn message(&self) -> (r: String)
        ensures
            r@ == self.text(),
    {
        match self {
            BuildError::Handler(s) => s.clone(),
            BuildError::Source(s) => s.clone(),
        }
    }
}

impl RuntimeError {
    /// The text this error carries.
    pub open spec fn text(self) -> Seq<char> {
        match self {
            RuntimeError::InvalidArguments(s) => s@,
            RuntimeError::InvalidArgumentType(s) => s@,
            RuntimeError::Bot(s) => s@,
            RuntimeError::Handler(s) => s@,
            RuntimeError::Source(s) => s@,
        }
    }

    /// Renders the error as the text it carries.
    pub fn message(&self) -> (r: String)
        ensures
            r@ == self.text(),
    {
        match self {
            RuntimeError::InvalidArguments(s) => s.clone(),
            RuntimeError::InvalidArgumentType(s) => s.clone(),
            RuntimeError::Bot(s) => s.clone(),
            RuntimeError::Handler(s) => s.clone(),
            RuntimeError::Source(s) => s.clone(),
        }
    }
}

impl AncymonError {
    /// The text this error carries: that of the error it wraps.
    pub open spec fn text(self) -> Seq<char> {
        match self {
            AncymonError::BuildError(e) => e.text(),
            AncymonError::ConfigError(e) => e.text(),
            AncymonError::RuntimeError(e) => e.text(),
            AncymonError::ConversionError(s) => s@,
        }
    }

    /// Renders the error as the text it carries.
    pub fn message(&self) -> (r: String)
        ensures
            r@ == self.text(),
    {
        match self {
            AncymonError::BuildError(e) => e.message(),
            AncymonError::ConfigError(e) => e.message(),
            AncymonError::RuntimeError(e) => e.message(),
            AncymonError::ConversionError(s) => s.clone(),
        }
    }
}

impl Clone for ConfigError {
    fn clone(&self) -> (r: Self)
        ensures
            r == *self,
    {
        match self {
            ConfigError::ParsingError => ConfigError::ParsingError,
            ConfigError::MissingValue(s) => ConfigError::MissingValue(s.clone()),
            ConfigError::InvalidValue(s) => ConfigError::InvalidValue(s.clone()),
            ConfigError::InvalidValueType(s) => ConfigError::InvalidValueType(s.clone()),
            ConfigError::MissingConfig(s) => ConfigError::MissingConfig(s.clone()),
            ConfigError::InvalidSource(s) => ConfigError::InvalidSource(s.clone()),
            ConfigError::InvalidHandlerType(s) => ConfigError::InvalidHandlerType(s.clone()),
        }
    }
}

impl Clone for BuildError {
    fn clone(&self) -> (r: Self)
        ensures
            r == *self,
    {
        match self {
            BuildError::Handler(s) => BuildError::Handler(s.clone()),
            BuildError::Source(s) => BuildError::Source(s.clone()),
        }
    }
}

impl Clone for RuntimeError {
    fn clone(&self) -> (r: Self)
        ensures
            r == *self,
    {
        match self {
            RuntimeError::InvalidArguments(s) => RuntimeError::InvalidArguments(s.clone()),
            RuntimeError::InvalidArgumentType(s) => RuntimeError::InvalidArgumentType(s.clone()),
            RuntimeError::Bot(s) => RuntimeError::Bot(s.clone()),
            RuntimeError::Handler(s) => RuntimeError::Handler(s.clone()),
            RuntimeError::Source(s) => RuntimeError::Source(s.clone()),
        }
    }
}

impl Clone for AncymonError {
    fn clone(&self) -> (r: Self)
        ensures
            r == *self,
    {
        match self {
            AncymonError::BuildError(e) => AncymonError::BuildError(e.clone()),
            AncymonError::ConfigError(e) => AncymonError::ConfigError(e.clone()),
            AncymonError::RuntimeError(e) => AncymonError::RuntimeError(e.clone()),
            AncymonError::ConversionError(s) => AncymonError::ConversionError(s.clone()),
        }
    }
}

impl From<ConfigError> for AncymonError {
    fn from(value: ConfigError) -> (r: Self) {
        AncymonError::ConfigError(value)
    }
}

impl FromSpecImpl<ConfigError> for AncymonError {
    open spec fn obeys_from_spec() -> bool {
        true
    }

    open spec fn from_spec(value: ConfigError) -> Self {
        AncymonError::ConfigError(value)
    }
}

impl From<BuildError> for AncymonError {
    fn from(value: BuildError) -> (r: Self) {
        AncymonError::BuildError(value)
    }
}

impl FromSpecImpl<BuildError> for AncymonError {
    open spec fn obeys_from_spec() -> bool {
        true
    }

    open spec fn from_spec(value: BuildError) -> Self {
        AncymonError::BuildError(value)
    }
}

impl From<RuntimeError> for AncymonError {
    fn from(value: RuntimeError) -> (r: Self) {
        AncymonError::RuntimeError(value)
    }
}

impl FromSpecImpl<RuntimeError> for AncymonError {
    open spec fn obeys_from_spec() -> bool {
        true
    }

    open spec fn from_spec(value: RuntimeError) -> Self {
        AncymonError::RuntimeError(value)
    }
}

} // verus!
