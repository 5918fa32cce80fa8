use bee::config::{Config, ConfigError, EmailSettings, SETTINGS_FILE};

const FULL: &str = "from=bee@example.org\nto=ops@example.org\nsmtp_server=smtp.example.org\nsmtp_email=bee\nsmtp_password=SECRET-REDACTED\n";

#[test]
fn settings_are_read_from_key_value_lines() {
    let config = Config::read(FULL).unwrap();
    assert_eq!(config.email.from, "bee@example.org");
    assert_eq!(config.email.to, "ops@example.org");
    assert_eq!(config.email.smtp_server, "smtp.example.org");
    assert_eq!(config.email.smtp_email, "bee");
    assert_eq!(config.email.smtp_password, "SECRET-REDACTED");
}

#[test]
fn keys_and_values_are_trimmed() {
    let config = Config::parse("  from \t=  Bee <bee@example.org> \r\n to=\u{a0}x\u{a0}\n");
    assert_eq!(config.email.from, "Bee <bee@example.org>");
    assert_eq!(config.email.to, "x");
}

#[test]
fn lines_without_exactly_one_equals_sign_are_ignored() {
    let config = Config::parse("from\nto=a=b\nsmtp_email==\nsmtp_server=s\n=\nunknown=1\n");
    assert_eq!(config.email.from, "");
    assert_eq!(config.email.to, "");
    assert_eq!(config.email.smtp_email, "");
    assert_eq!(config.email.smtp_server, "s");
    assert_eq!(config.email.smtp_password, "");
}

#[test]
fn later_lines_override_and_may_empty_a_setting() {
    let config = Config::parse("from=a\nfrom=b\nto=c\nto=\n");
    assert_eq!(config.email.from, "b");
    assert_eq!(config.email.to, "");
}

#[test]
fn keys_are_matched_exactly() {
    let config = Config::parse("From=a\nsmtp-server=b\nfrom =c");
    assert_eq!(config.email.from, "c");
    assert_eq!(config.email.smtp_server, "");
}

#[test]
fn missing_settings_are_listed_in_order() {
    assert_eq!(
        Config::read("").err().unwrap(),
        vec![
            ConfigError::MissingFrom,
            ConfigError::MissingTo,
            ConfigError::MissingSmtpServer,
            ConfigError::MissingSmtpEmail,
            ConfigError::MissingSmtpPassword,
        ]
    );
    assert_eq!(
        Config::read("to=a\nsmtp_email=b\n").err().unwrap(),
        vec![
            ConfigError::MissingFrom,
            ConfigError::MissingSmtpServer,
            ConfigError::MissingSmtpPassword,
        ]
    );
    assert_eq!(
        Config::read("from=a\nto=b\nsmtp_server=c\nsmtp_email=d\nsmtp_password=\n").err().unwrap(),
        vec![ConfigError::MissingSmtpPassword]
    );
}

#[test]
fn validate_agrees_with_read() {
    let config = Config::parse(FULL);
    assert!(config.validate().is_empty());
    let mut broken = config.clone();
    broken.email.to = String::new();
    assert_eq!(broken.validate(), vec![ConfigError::MissingTo]);
}

#[test]
fn complaints_have_their_wording() {
    assert_eq!(ConfigError::MissingFrom.message(), "Missing 'from' email address");
    assert_eq!(ConfigError::MissingTo.message(), "Missing 'to' email address");
    assert_eq!(ConfigError::MissingSmtpServer.message(), "Missing 'smtp_server' email address");
    assert_eq!(ConfigError::MissingSmtpEmail.message(), "Missing 'smtp_email' email address");
    assert_eq!(
        ConfigError::MissingSmtpPassword.message(),
        "Missing 'smtp_password' email address"
    );
}

#[test]
fn settings_file_is_the_dot_env_file() {
    assert_eq!(SETTINGS_FILE, ".env");
}

#[test]
fn empty_settings_have_nothing_set() {
    let s = EmailSettings::empty();
    assert!(s.from.is_empty() && s.to.is_empty() && s.smtp_server.is_empty());
    assert!(s.smtp_email.is_empty() && s.smtp_password.is_empty());
}

#[test]
fn one_line_is_applied_to_settings() {
    let mut s = EmailSettings::empty();
    s.apply_line(&"smtp_password = SECRET-REDACTED".chars().collect());
    assert_eq!(s.smtp_password, "SECRET-REDACTED");
    s.apply_line(&"nothing here".chars().collect());
    assert_eq!(s.smtp_password, "SECRET-REDACTED");
}
