//! The configuration schema, the command wrapper and the error taxonomy.
//!
//! A valid payload decodes into a [`LoggerConfig`]: a log path (a byte
//! string, as a filesystem path is), a severity level out of a closed set,
//! and three boolean toggles. A decoded configuration is tagged as one
//! variant of the closed [`Command`] set; a rejected payload is classified
//! by a [`DecodeError`] carrying the offending field or value.

use vstd::prelude::*;

verus! {

/// The closed set of severity levels a payload may name.
#[derive(Clone, Copy, Debug, PartialEq, Eq, Structural)]
pub enum LoggerLevel {
    Error,
    Warning,
    Info,
    Debug,
}

/// The fields of the configuration schema; every one is required.
#[derive(Clone, Copy, Debug, PartialEq, Eq, Structural)]
pub enum Field {
    LogPath,
    Level,
    ShowLevel,
    ShowLogOrigin,
    ShowThreadName,
}

/// A fully validated logger configuration, the payload's decoded shape.
#[derive(Clone, Debug, PartialEq, Eq)]
pub struct LoggerConfig {
    pub log_path: Vec<u8>,
    pub level: LoggerLevel,
    pub show_level: bool,
    pub show_log_origin: bool,
    pub show_thread_name: bool,
}

/// The mathematical model of a configuration: the path as a byte sequence.
pub struct LoggerConfigView {
    pub log_path: Seq<u8>,
    pub level: LoggerLevel,
    pub show_level: bool,
    pub show_log_origin: bool,
    pub show_thread_name: bool,
}

impl View for LoggerConfig {
    type V = LoggerConfigView;

    open spec fn view(&self) -> LoggerConfigView {
        LoggerConfigView {
            log_path: self.log_path@,
            level: self.level,
            show_level: self.show_level,
            show_log_origin: self.show_log_origin,
            show_thread_name: self.show_thread_name,
        }
    }
}

/// Why a payload was rejected; each variant carries the offending
/// field or the offending bytes, enough to render a message without
/// re-reading the payload.
#[derive(Clone, Debug, PartialEq, Eq)]
pub enum DecodeError {
    /// The payload is not a well-formed object under the wire grammar.
    Syntax,
    /// A key that is not a field of the schema, with the key's bytes.
    UnknownField(Vec<u8>),
    /// A required field given twice.
    DuplicateField(Field),
    /// A field present with a value of the wrong type.
    TypeMismatch(Field),
    /// A `level` value outside the enumerated set, with the value's bytes.
    InvalidEnumValue(Vec<u8>),
    /// A required field absent from the payload.
    MissingField(Field),
}

/// The model of a classified error: offending bytes as sequences.
pub enum DecodeErrorView {
    Syntax,
    UnknownField(Seq<u8>),
    DuplicateField(Field),
    TypeMismatch(Field),
    InvalidEnumValue(Seq<u8>),
    MissingField(Field),
}

impl View for DecodeError {
    type V = DecodeErrorView;

    open spec fn view(&self) -> DecodeErrorView {
        match self {
            DecodeError::Syntax => DecodeErrorView::Syntax,
            DecodeError::UnknownField(k) => DecodeErrorView::UnknownField(k@),
            DecodeError::DuplicateField(f) => DecodeErrorView::DuplicateField(*f),
            DecodeError::TypeMismatch(f) => DecodeErrorView::TypeMismatch(*f),
            DecodeError::InvalidEnumValue(v) => DecodeErrorView::InvalidEnumValue(v@),
            DecodeError::MissingField(f) => DecodeErrorView::MissingField(*f),
        }
    }
}

/// The closed set of commands the translation layer can produce; a
/// consumer dispatches on the variant and trusts the payload inside.
#[derive(Clone, Debug, PartialEq, Eq)]
pub enum Command {
    ConfigureLogger(LoggerConfig),
}

/// The model of a command.
pub enum CommandView {
    ConfigureLogger(LoggerConfigView),
}

impl View for Command {
    type V = CommandView;

    open spec fn view(&self) -> CommandView {
        match self {
            Command::ConfigureLogger(c) => CommandView::ConfigureLogger(c@),
        }
    }
}

/// Tags a validated configuration as a command; by construction this
/// cannot fail and changes nothing in the configuration.
pub fn wrap(config: LoggerConfig) -> (c: Command)
    ensures
        c == Command::ConfigureLogger(config),
{
    Command::ConfigureLogger(config)
}

} // verus!
