use volto::journal::{logs_to_journal, or_unlimited, syslog_prefix, Level};

#[test]
fn every_level_maps_to_its_syslog_severity() {
    assert_eq!(syslog_prefix(&Level::Error), "<3>");
    assert_eq!(syslog_prefix(&Level::Warn), "<4>");
    assert_eq!(syslog_prefix(&Level::Info), "<6>");
    assert_eq!(syslog_prefix(&Level::Debug), "<7>");
    assert_eq!(syslog_prefix(&Level::Trace), "<7>");
}

/// systemd sets the variable to `device:inode`; nothing else sets it.
#[test]
fn the_journal_is_detected_from_the_environment() {
    assert!(logs_to_journal(Some(b"8:12345")));
    // Not set: an interactive run, which must be left alone.
    assert!(!logs_to_journal(None));
    // Set but empty is not a journal either.
    assert!(!logs_to_journal(Some(b"")));
}

/// An absent limit is no limit.
#[test]
fn a_limit_prints_as_a_number_or_as_none() {
    assert_eq!(or_unlimited(Some(1024)), "1024");
    assert_eq!(or_unlimited(Some(u64::MAX)), "18446744073709551615");
    assert_eq!(or_unlimited(None), "unlimited");
}
