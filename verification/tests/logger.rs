use rusty_zenith::logger::{default_property_logging, LogType, Logger, LoggingProperties};

#[test]
fn both_logs_default_to_one_file() {
    let properties = default_property_logging();
    assert_eq!(properties.accesslog, "access.log");
    assert_eq!(properties.errorlog, "access.log");
}

#[test]
fn record_names_the_file_and_the_line() {
    let logger = Logger::new(LoggingProperties {
        accesslog: "a.log".to_string(),
        errorlog: "e.log".to_string(),
    });
    let record = logger.access("GET /radio", 1475419451);
    assert_eq!(record.file, "a.log");
    assert_eq!(record.line, b"[1475419451] GET /radio\n".to_vec());
    let record = logger.error("broken", 0);
    assert_eq!(record.file, "e.log");
    assert_eq!(record.line, b"[0] broken\n".to_vec());
    let record = logger.write("", LogType::Error, 18446744073709551615);
    assert_eq!(record.file, "e.log");
    assert_eq!(record.line, b"[18446744073709551615] \n".to_vec());
}
