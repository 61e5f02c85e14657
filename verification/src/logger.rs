//! The access log and the error log: which file a message goes to, and the
//! line that is written.

use vstd::prelude::*;
use crate::text::{append, append_str, decimal, decimal_digits, utf8};

verus! {

/// Where the two logs are kept.
#[derive(Clone, Debug, PartialEq, Eq)]
pub struct LoggingProperties {
    pub accesslog: String,
    pub errorlog: String,
}

pub fn default_property_logging_accesslog() -> (r: String)
    ensures
        r@ == "access.log"@,
{
    "access.log".to_owned()
}

pub fn default_property_logging_errorlog() -> (r: String)
    ensures
        r@ == "access.log"@,
{
    "access.log".to_owned()
}

/// The two logs in one file, `access.log`.
pub fn default_property_logging() -> (r: LoggingProperties)
    ensures
        r.accesslog@ == "access.log"@,
        r.errorlog@ == "access.log"@,
{
    LoggingProperties {
        accesslog: default_property_logging_accesslog(),
        errorlog: default_property_logging_errorlog(),
    }
}

/// The log that a message is for.
#[derive(Clone, Copy, Debug, PartialEq, Eq, Structural)]
pub enum LogType {
    Access,
    Error,
}

/// What is to be appended to a log: the line, and the file that takes it.
pub struct LogRecord {
    pub file: String,
    pub line: Vec<u8>,
}

/// The line of a message written at the second `timestamp` after the
/// epoch: the time in brackets, a space, the message, and a line feed.
pub open spec fn log_line(timestamp: u64, msg: Seq<char>) -> Seq<u8> {
    utf8("["@) + decimal_digits(timestamp as nat) + utf8("] "@) + utf8(msg) + utf8("\n"@)
}

/// Says where messages go.
pub struct Logger {
    properties: LoggingProperties,
}

impl Logger {
    /// The file of the log `log_type`.
    pub closed spec fn file_of(&self, log_type: LogType) -> Seq<char> {
        match log_type {
            LogType::Access => self.properties.accesslog@,
            LogType::Error => self.properties.errorlog@,
        }
    }

    /// A logger that writes where `properties` says.
    pub fn new(properties: LoggingProperties) -> (r: Logger)
        ensures
            r.file_of(LogType::Access) == properties.accesslog@,
            r.file_of(LogType::Error) == properties.errorlog@,
    {
        Logger { properties }
    }

    /// The record of a message for the access log.
    pub fn access(&self, msg: &str, timestamp: u64) -> (r: LogRecord)
        ensures
            r.file@ == self.file_of(LogType::Access),
            r.line@ == log_line(timestamp, msg@),
    {
        self.write(msg, LogType::Access, timestamp)
    }

    /// The record of a message for the error log.
    pub fn error(&self, msg: &str, timestamp: u64) -> (r: LogRecord)
        ensures
            r.file@ == self.file_of(LogType::Error),
            r.line@ == log_line(timestamp, msg@),
    {
        self.write(msg, LogType::Error, timestamp)
    }

    /// The record of a message for one of the logs.
    pub fn write(&self, msg: &str, log_type: LogType, timestamp: u64) -> (r: LogRecord)
        ensures
            r.file@ == self.file_of(log_type),
            r.line@ == log_line(timestamp, msg@),
    {
        let file = match log_type {
            LogType::Access => self.properties.accesslog.clone(),
            LogType::Error => self.properties.errorlog.clone(),
        };
        let mut line: Vec<u8> = Vec::new();
        append_str(&mut line, "[");
        let digits = decimal(timestamp);
        append(&mut line, digits.as_slice());
        append_str(&mut line, "] ");
        append_str(&mut line, msg);
        append_str(&mut line, "\n");
        assert(line@ =~= log_line(timestamp, msg@));
        LogRecord { file, line }
    }
}

} // verus!
