use reticulum_node::wifi::config::ConfigCommand;
use reticulum_node::wifi::config::ConfigError;
use reticulum_node::wifi::config::WifiConfig;
use reticulum_node::wifi::config::WifiStatus;
use std::str::FromStr;

// ==================== WifiConfig Tests ====================

#[test]
fn test_valid_config() {
    let config = WifiConfig::new("TestNetwork", "password123").unwrap();
    assert_eq!(config.ssid, "TestNetwork");
    assert_eq!(config.password, "password123");
    assert!(config.validate().is_ok());
}

#[test]
fn test_open_network() {
    let config = WifiConfig::open("OpenNetwork").unwrap();
    assert!(config.is_open());
    assert!(config.validate().is_ok());
}

#[test]
fn test_empty_ssid() {
    let result = WifiConfig::new("", "password123");
    assert_eq!(result, Err(ConfigError::SsidEmpty));
}

#[test]
fn test_ssid_too_long() {
    let long_ssid = "a".repeat(33);
    let result = WifiConfig::new(&long_ssid, "password123");
    assert!(matches!(result, Err(ConfigError::SsidTooLong { .. })));
}

#[test]
fn test_ssid_max_length() {
    let max_ssid = "a".repeat(32);
    let config = WifiConfig::new(&max_ssid, "password123").unwrap();
    assert!(config.validate().is_ok());
}

#[test]
fn test_password_too_short() {
    let result = WifiConfig::new("TestNetwork", "short");
    assert!(matches!(result, Err(ConfigError::PasswordTooShort { .. })));
}

#[test]
fn test_password_min_length() {
    let config = WifiConfig::new("TestNetwork", "12345678").unwrap();
    assert!(config.validate().is_ok());
}

#[test]
fn test_password_too_long() {
    let long_password = "a".repeat(65);
    let result = WifiConfig::new("TestNetwork", &long_password);
    assert!(matches!(result, Err(ConfigError::PasswordTooLong { .. })));
}

#[test]
fn test_password_max_length() {
    let max_password = "a".repeat(64);
    let config = WifiConfig::new("TestNetwork", &max_password).unwrap();
    assert!(config.validate().is_ok());
}

// ==================== Serialization Tests ====================

#[test]
fn test_serialize_deserialize() {
    let config = WifiConfig::new("MyNetwork", "MyPassword").unwrap();
    let bytes = config.to_bytes();
    let restored = WifiConfig::from_bytes(&bytes).unwrap();
    assert_eq!(config, restored);
}

#[test]
fn test_serialize_open_network() {
    let config = WifiConfig::open("OpenNet").unwrap();
    let bytes = config.to_bytes();
    let restored = WifiConfig::from_bytes(&bytes).unwrap();
    assert_eq!(config, restored);
    assert!(restored.is_open());
}

#[test]
fn test_deserialize_empty() {
    let result = WifiConfig::from_bytes(&[]);
    assert!(matches!(result, Err(ConfigError::InvalidFormat(_))));
}

#[test]
fn test_deserialize_truncated() {
    let result = WifiConfig::from_bytes(&[5, b'h', b'e', b'l', b'l']); // Missing 'o' and password
    assert!(matches!(result, Err(ConfigError::InvalidFormat(_))));
}

// ==================== WifiStatus Tests ====================

#[test]
fn test_status_unconfigured() {
    let status = WifiStatus::Unconfigured;
    assert_eq!(status.to_ble_string(), "unconfigured");
    assert_eq!(WifiStatus::from_ble_string("unconfigured").unwrap(), status);
}

#[test]
fn test_status_connecting() {
    let status = WifiStatus::Connecting;
    assert_eq!(status.to_ble_string(), "connecting");
    assert_eq!(WifiStatus::from_ble_string("connecting").unwrap(), status);
}

#[test]
fn test_status_connected() {
    let status = WifiStatus::Connected {
        ip: "192.168.1.100".to_string(),
    };
    assert_eq!(status.to_ble_string(), "connected:192.168.1.100");
    assert_eq!(
        WifiStatus::from_ble_string("connected:192.168.1.100").unwrap(),
        status
    );
}

#[test]
fn test_status_failed() {
    let status = WifiStatus::Failed {
        reason: "wrong password".to_string(),
    };
    assert_eq!(status.to_ble_string(), "failed:wrong password");
    assert_eq!(
        WifiStatus::from_ble_string("failed:wrong password").unwrap(),
        status
    );
}

#[test]
fn test_status_unknown() {
    let result = WifiStatus::from_ble_string("bogus");
    assert!(matches!(result, Err(ConfigError::InvalidFormat(_))));
}

// ==================== ConfigCommand Tests ====================

#[test]
fn test_command_connect() {
    assert_eq!(
        ConfigCommand::from_str("connect").unwrap(),
        ConfigCommand::Connect
    );
    assert_eq!(
        ConfigCommand::from_str("CONNECT").unwrap(),
        ConfigCommand::Connect
    );
    assert_eq!(
        ConfigCommand::from_str("  Connect  ").unwrap(),
        ConfigCommand::Connect
    );
}

#[test]
fn test_command_disconnect() {
    assert_eq!(
        ConfigCommand::from_str("disconnect").unwrap(),
        ConfigCommand::Disconnect
    );
}

#[test]
fn test_command_clear() {
    assert_eq!(
        ConfigCommand::from_str("clear").unwrap(),
        ConfigCommand::Clear
    );
}

#[test]
fn test_command_unknown() {
    let result = ConfigCommand::from_str("reboot");
    assert!(matches!(result, Err(ConfigError::UnknownCommand(_))));
}

#[test]
fn test_command_as_str() {
    assert_eq!(ConfigCommand::Connect.as_str(), "connect");
    assert_eq!(ConfigCommand::Disconnect.as_str(), "disconnect");
    assert_eq!(ConfigCommand::Clear.as_str(), "clear");
}

#[test]
fn test_wire_form_exact_bytes() {
    let config = WifiConfig::new("ab", "12345678").unwrap();
    assert_eq!(config.to_bytes(), vec![2, b'a', b'b', 8, b'1', b'2', b'3', b'4', b'5', b'6', b'7', b'8']);
}

#[test]
fn test_deserialize_errors_say_why() {
    assert_eq!(WifiConfig::from_bytes(&[]), Err(ConfigError::InvalidFormat("empty data".to_string())));
    assert_eq!(WifiConfig::from_bytes(&[3, b'a']), Err(ConfigError::InvalidFormat("truncated SSID".to_string())));
    assert_eq!(WifiConfig::from_bytes(&[1, 0xff, 0]), Err(ConfigError::InvalidFormat("invalid SSID UTF-8".to_string())));
    assert_eq!(WifiConfig::from_bytes(&[1, b'a', 4, b'x']), Err(ConfigError::InvalidFormat("truncated password".to_string())));
    assert_eq!(WifiConfig::from_bytes(&[1, b'a', 1, 0xff]), Err(ConfigError::InvalidFormat("invalid password UTF-8".to_string())));
    assert_eq!(WifiConfig::from_bytes(&[0, 0]), Err(ConfigError::SsidEmpty));
    assert_eq!(WifiConfig::from_bytes(&[1, b'a', 3, b'x', b'y', b'z']), Err(ConfigError::PasswordTooShort { len: 3, min: 8 }));
}

#[test]
fn test_validation_reports_lengths_in_bytes() {
    assert_eq!(WifiConfig::new(&"a".repeat(33), ""), Err(ConfigError::SsidTooLong { len: 33, max: 32 }));
    assert_eq!(WifiConfig::new("net", &"p".repeat(65)), Err(ConfigError::PasswordTooLong { len: 65, max: 64 }));
    // sixteen two-byte characters are 32 bytes, seventeen are 34
    assert!(WifiConfig::new(&"\u{e9}".repeat(16), "").is_ok());
    assert_eq!(WifiConfig::new(&"\u{e9}".repeat(17), ""), Err(ConfigError::SsidTooLong { len: 34, max: 32 }));
}

#[test]
fn test_error_descriptions() {
    assert_eq!(ConfigError::SsidEmpty.describe(), "SSID cannot be empty");
    assert_eq!(ConfigError::SsidTooLong { len: 40, max: 32 }.describe(), "SSID too long: 40 bytes (max 32)");
    assert_eq!(ConfigError::PasswordTooShort { len: 3, min: 8 }.describe(), "password too short: 3 bytes (min 8)");
    assert_eq!(ConfigError::PasswordTooLong { len: 70, max: 64 }.describe(), "password too long: 70 bytes (max 64)");
    assert_eq!(ConfigError::InvalidFormat("x".to_string()).describe(), "invalid format: x");
    assert_eq!(ConfigError::UnknownCommand("reboot".to_string()).describe(), "unknown command: reboot");
}

#[test]
fn test_status_unknown_says_what_came() {
    assert_eq!(WifiStatus::from_ble_string("bogus"), Err(ConfigError::InvalidFormat("unknown status: bogus".to_string())));
    assert_eq!(WifiStatus::from_ble_string("connected:").unwrap(), WifiStatus::Connected { ip: String::new() });
}

#[test]
fn test_command_unknown_keeps_the_text() {
    assert_eq!(ConfigCommand::from_str(" Reboot "), Err(ConfigError::UnknownCommand(" Reboot ".to_string())));
    assert_eq!(ConfigCommand::parse("\tCLEAR\n"), Ok(ConfigCommand::Clear));
}

