use reticulum_node::addr_map::AddrMap;
use reticulum_node::hash::same_hash;
use reticulum_node::host_utils::find_esp32_port;
use reticulum_node::host_utils::get_esp32_port;
use reticulum_node::host_utils::FlashError;
use reticulum_node::host_utils::MonitorStep;
use reticulum_node::host_utils::MonitorStop;
use reticulum_node::host_utils::MonitorWatch;
use reticulum_node::host_utils::PortResult;
use reticulum_node::host_utils::ReadEvent;
use reticulum_node::network::ensure_esp_initialized;
use reticulum_node::network::is_wifi_connected;
use reticulum_node::network::NetworkError;
use reticulum_node::persistence::boot_decision;
use reticulum_node::persistence::is_identity_hex;
use reticulum_node::persistence::verify_read_back;
use reticulum_node::persistence::BootDecision;
use reticulum_node::persistence::VerifyError;
use reticulum_node::persistence::IDENTITY_HEX_LEN;
use reticulum_node::testing::TestRunner;
use reticulum_node::testnet::default_server;
use reticulum_node::testnet::dublin;
use reticulum_node::testnet::frankfurt;
use reticulum_node::testnet::last_failure;
use reticulum_node::testnet::servers;
use reticulum_node::testnet::TestnetServer;
use reticulum_node::testnet::TransportError;
use reticulum_node::text::push_decimal;
use reticulum_node::text::push_hex;
use reticulum_node::text::same_text;
use reticulum_node::time::age_us;
use reticulum_node::time::later_of;
use reticulum_node::time::saturate_micros;
use reticulum_node::time::whole_secs;
use reticulum_node::time::MonotonicClock;
use reticulum_node::wifi::config::ConfigCommand;
use reticulum_node::wifi::config::WifiStatus;
use reticulum_node::wifi::service::WifiConfigService;
use reticulum_node::host_utils::advance_test_state;
use reticulum_node::host_utils::check_crash_pattern;
use reticulum_node::host_utils::test_result_in;
use reticulum_node::host_utils::Crash;
use reticulum_node::host_utils::TestState;
use reticulum_node::text::chars_of;
use reticulum_node::text::contains_text;
use reticulum_node::text::has_prefix;
use reticulum_node::announce::cache::AnnounceCacheError;
use reticulum_node::ble::fragmentation::BleAddress;
use reticulum_node::ble::fragmentation::FragmentError;
use reticulum_node::lora::csma::CsmaError;
use reticulum_node::lora::radio::RadioError;
use reticulum_node::node::NodeError;
use reticulum_node::routing::path_table::PathTableError;

fn key(id: u8) -> [u8; 16] {
    let mut hash = [0u8; 16];
    hash[15] = id;
    hash
}

#[test]
fn test_time_arithmetic() {
    assert_eq!(age_us(10, 4), 6);
    assert_eq!(age_us(4, 10), 0);
    assert_eq!(later_of(4, 10), 10);
    assert_eq!(later_of(10, 4), 10);
    assert_eq!(whole_secs(1_999_999), 1);
    assert_eq!(saturate_micros(7), 7);
    assert_eq!(saturate_micros(u128::MAX), u64::MAX);
}

#[test]
fn test_clock_does_not_run_backwards() {
    let clock = MonotonicClock::new();
    let a = clock.now();
    let b = clock.now();
    assert!(b >= a);
    assert!(b < 60_000_000);
}

#[test]
fn test_text_building() {
    let mut s = String::from("n=");
    push_decimal(&mut s, 0);
    push_decimal(&mut s, 7);
    push_decimal(&mut s, 10);
    push_decimal(&mut s, u64::MAX);
    assert_eq!(s, "n=071018446744073709551615");
    let mut h = String::new();
    push_hex(&mut h, &[0x00, 0x9a, 0xf0, 0x0f], 3);
    assert_eq!(h, "009af0");
    assert!(same_text("abc", "abc"));
    assert!(!same_text("abc", "abd"));
    assert!(!same_text("abc", "ab"));
    assert!(same_text("", ""));
}

#[test]
fn test_same_hash() {
    assert!(same_hash(&key(1), &key(1)));
    assert!(!same_hash(&key(1), &key(2)));
}

#[test]
fn test_addr_map() {
    let mut map: AddrMap<String> = AddrMap::new();
    assert!(map.is_empty());
    assert_eq!(map.insert(key(1), "one".to_string()), None);
    assert_eq!(map.insert(key(2), "two".to_string()), None);
    assert_eq!(map.insert(key(3), "three".to_string()), None);
    assert_eq!(map.insert(key(2), "deux".to_string()), Some("two".to_string()));
    assert_eq!(map.len(), 3);
    assert_eq!(map.position(&key(2)), Some(1));
    assert_eq!(map.get(&key(2)), Some(&"deux".to_string()));
    assert_eq!(map.get(&key(9)), None);
    assert!(map.contains_key(&key(3)));
    assert_eq!(map.key_at(2), key(3));
    assert_eq!(map.value_at(0), "one");
    assert_eq!(map.set_at(0, "uno".to_string()), "one");
    assert_eq!(map.remove_marked(&vec![false, true, false]), 1);
    assert_eq!(map.key_at(1), key(3));
    assert_eq!(map.remove_at(0), (key(1), "uno".to_string()));
    map.insert_at(0, key(7), "seven".to_string());
    map.push(key(8), "eight".to_string());
    assert_eq!(map.key_at(0), key(7));
    assert_eq!(map.key_at(2), key(8));
    assert_eq!(map.remove(&key(3)), Some("three".to_string()));
    assert_eq!(map.remove(&key(3)), None);
    map.clear();
    assert_eq!(map.len(), 0);
}

#[test]
fn test_wifi_service() {
    let mut service = WifiConfigService::new();
    assert_eq!(service.get_status(), WifiStatus::Unconfigured);
    assert_eq!(service.get_pending_config(), None);
    assert_eq!(service.take_pending_command(), None);
    service.write_ssid(b"HomeNet");
    service.write_password(b"secret123");
    service.write_command(b" Connect ");
    let config = service.get_pending_config().unwrap();
    assert_eq!(config.ssid, "HomeNet");
    assert_eq!(config.password, "secret123");
    assert_eq!(service.take_pending_command(), Some(ConfigCommand::Connect));
    assert_eq!(service.take_pending_command(), None);
    // writes that are too long or not text change nothing
    service.write_ssid(&[b'a'; 33]);
    service.write_ssid(&[0xff]);
    service.write_password(&[b'p'; 65]);
    service.write_password(&[0xc0, 0x80]);
    service.write_command(b"reboot");
    service.write_command(&[0xff]);
    assert_eq!(service.get_pending_config().unwrap().ssid, "HomeNet");
    assert_eq!(service.get_pending_config().unwrap().password, "secret123");
    assert_eq!(service.take_pending_command(), None);
    // a password that is too short makes the credentials unusable
    service.write_password(b"short");
    assert_eq!(service.get_pending_config(), None);
    service.set_status(WifiStatus::Connected { ip: "10.0.0.2".to_string() });
    assert_eq!(service.get_status(), WifiStatus::Connected { ip: "10.0.0.2".to_string() });
    assert_eq!(WifiConfigService::advertised_name(true), "Reticulum-Node");
    assert_eq!(WifiConfigService::advertised_name(false), "Reticulum-Unconfigured");
}

#[test]
fn test_wifi_service_clear_pending_forgets_the_password() {
    let mut service = WifiConfigService::new();
    service.write_ssid(b"HomeNet");
    service.write_password(b"secret123");
    service.clear_pending();
    assert_eq!(service.get_pending_config(), None);
    // with a new SSID the network counts as open: the password is gone
    service.write_ssid(b"Cafe");
    let config = service.get_pending_config().unwrap();
    assert!(config.is_open());
    assert_eq!(config.password, "");
}

#[test]
fn test_identity_shape() {
    let good = "0123456789abcdefABCDEF".repeat(6);
    let good = &good.as_bytes()[..IDENTITY_HEX_LEN];
    assert!(is_identity_hex(good));
    assert!(!is_identity_hex(&good[..127]));
    let mut bad = good.to_vec();
    bad[100] = b'g';
    assert!(!is_identity_hex(&bad));
    bad.push(b'0');
    assert!(!is_identity_hex(&bad));
    assert_eq!(boot_decision(Some(good)), BootDecision::UseStored);
    assert_eq!(boot_decision(Some(&bad)), BootDecision::CreateAndStore);
    assert_eq!(boot_decision(None), BootDecision::CreateAndStore);
}

#[test]
fn test_identity_read_back() {
    assert_eq!(verify_read_back(b"abcd", Some(b"abcd")), Ok(()));
    assert_eq!(verify_read_back(b"abcd", Some(b"abce")), Err(VerifyError::Mismatch { wrote: 4, read: 4 }));
    assert_eq!(verify_read_back(b"abcd", Some(b"abc")), Err(VerifyError::Mismatch { wrote: 4, read: 3 }));
    assert_eq!(verify_read_back(b"abcd", None), Err(VerifyError::NotFound));
}

#[test]
fn test_server_address() {
    assert_eq!(dublin().address(), "dublin.connect.reticulum.network:4965");
    assert_eq!(TestnetServer::new("x", "localhost", 0).address(), "localhost:0");
}

#[test]
fn test_frankfurt_config() {
    assert_eq!(frankfurt().host, "frankfurt.connect.reticulum.network");
    assert_eq!(frankfurt().port, 5377);
}

#[test]
fn test_servers_list_not_empty() {
    assert!(!servers().is_empty());
    assert_eq!(servers()[2].port, 4242);
}

#[test]
fn test_default_server_in_list() {
    assert!(servers().iter().any(|s| s.host == default_server().host));
}

#[test]
fn test_transport_errors() {
    assert_eq!(last_failure(vec![]), TransportError::NoServers);
    assert_eq!(
        last_failure(vec![TransportError::NoAddresses, TransportError::Connection("refused".to_string())]),
        TransportError::Connection("refused".to_string())
    );
    assert_eq!(TransportError::DnsResolution("nx".to_string()).describe(), "DNS resolution failed: nx");
    assert_eq!(TransportError::NoAddresses.describe(), "no addresses found for hostname");
    assert_eq!(TransportError::Connection("refused".to_string()).describe(), "connection failed: refused");
    assert_eq!(TransportError::Io("reset".to_string()).describe(), "I/O error: reset");
    assert_eq!(TransportError::NoServers.describe(), "no servers provided");
    assert_eq!(NetworkError::NotConfigured.describe(), "network not configured");
    assert_eq!(NetworkError::WifiError("auth".to_string()).describe(), "WiFi error: auth");
    assert_eq!(NetworkError::Io("reset".to_string()).describe(), "I/O error: reset");
    assert!(is_wifi_connected());
    ensure_esp_initialized();
}

#[test]
fn test_port_choice() {
    let two = vec!["/dev/ttyUSB0".to_string(), "/dev/ttyUSB1".to_string()];
    assert_eq!(get_esp32_port(Some("/dev/ttyS9".to_string()), two.clone()), PortResult::Found("/dev/ttyS9".to_string()));
    assert_eq!(get_esp32_port(Some(String::new()), two.clone()), PortResult::MultipleDevices(two.clone()));
    assert_eq!(get_esp32_port(None, vec!["/dev/ttyACM0".to_string()]), PortResult::Found("/dev/ttyACM0".to_string()));
    assert_eq!(get_esp32_port(None, vec![]), PortResult::NotFound);
    assert_eq!(find_esp32_port(two), Some("/dev/ttyUSB0".to_string()));
    assert_eq!(find_esp32_port(vec![]), None);
    assert_eq!(FlashError::CommandFailed("no espflash".to_string()).describe(), "command failed: no espflash");
    assert_eq!(FlashError::FlashFailed.describe(), "flash operation failed");
    assert_eq!(FlashError::NoDevice.describe(), "no ESP32 device found");
}

#[test]
fn test_monitor_watch() {
    let mut watch = MonitorWatch::new();
    assert_eq!(watch.before_read(5, 10), Ok(()));
    assert_eq!(watch.before_read(10, 10), Ok(()));
    assert_eq!(watch.before_read(11, 10), Err(MonitorStop::Timeout));
    assert_eq!(watch.after_read(ReadEvent::Line), MonitorStep::Deliver);
    assert_eq!(watch.after_read(ReadEvent::Noise), MonitorStep::Continue);
    assert_eq!(watch.line_count, 1);
    for _ in 0..9 {
        assert_eq!(watch.after_read(ReadEvent::Failed), MonitorStep::Continue);
        assert_eq!(watch.after_read(ReadEvent::Interrupted), MonitorStep::Continue);
    }
    assert_eq!(watch.consecutive_errors, 9);
    assert_eq!(watch.after_read(ReadEvent::Line), MonitorStep::Deliver);
    assert_eq!(watch.consecutive_errors, 0);
    for _ in 0..9 {
        assert_eq!(watch.after_read(ReadEvent::Failed), MonitorStep::Continue);
    }
    assert_eq!(watch.after_read(ReadEvent::Failed), MonitorStep::Stop(MonitorStop::TooManyErrors));
    let mut watch = MonitorWatch::new();
    assert_eq!(watch.after_read(ReadEvent::End), MonitorStep::Stop(MonitorStop::Ended));
    watch.line_count = 100_000;
    assert_eq!(watch.before_read(0, 10), Err(MonitorStop::TooManyLines));
    assert_eq!(MonitorStop::Timeout.describe(30), "Timeout after 30 seconds");
    assert_eq!(MonitorStop::TooManyLines.describe(30), "Output exceeded 100000 lines, possible infinite loop");
    assert_eq!(MonitorStop::Ended.describe(30), "Monitor ended without completion");
    assert_eq!(MonitorStop::TooManyErrors.describe(30), "Too many consecutive I/O errors (10)");
}

#[test]
fn runner_tracks_passing_test() {
    let mut runner = TestRunner::new();
    assert_eq!(runner.record("passing_test", true), "ok 1 - passing_test");
    assert_eq!(runner.tests_run(), 1);
    assert_eq!(runner.tests_passed(), 1);
    assert_eq!(runner.tests_failed(), 0);
    assert!(runner.finish());
}

#[test]
fn runner_tracks_failing_test() {
    let mut runner = TestRunner::new();
    assert_eq!(runner.record("failing_test", false), "not ok 1 - failing_test");
    assert_eq!(runner.tests_run(), 1);
    assert_eq!(runner.tests_passed(), 0);
    assert_eq!(runner.tests_failed(), 1);
    assert!(!runner.finish());
}

#[test]
fn runner_tracks_mixed_results() {
    let mut runner = TestRunner::default();
    runner.record("pass1", true);
    runner.record("fail1", false);
    assert_eq!(runner.record("pass2", true), "ok 3 - pass2");
    assert_eq!(runner.tests_run(), 3);
    assert_eq!(runner.tests_passed(), 2);
    assert_eq!(runner.tests_failed(), 1);
    assert_eq!(TestRunner::header(12), "TAP version 14\n1..12");
    assert_eq!(runner.summary(), "# -----------------------\n# Tests run: 3\n# Passed: 2\n# Failed: 1\n# Result: FAIL");
}

#[test]
fn runner_judges_expected_panics() {
    assert!(TestRunner::panic_verdict(true, None));
    assert!(TestRunner::panic_verdict(true, Some(true)));
    assert!(!TestRunner::panic_verdict(true, Some(false)));
    assert!(!TestRunner::panic_verdict(false, None));
    assert!(!TestRunner::panic_verdict(false, Some(true)));
}

#[test]
fn test_crash_patterns() {
    assert_eq!(check_crash_pattern("Guru Meditation Error: Core 0 panic'ed", TestState::Booting), Some(Crash::GuruMeditation));
    assert_eq!(check_crash_pattern("abort() was called at PC 0x4008", TestState::Booting), Some(Crash::Abort));
    assert_eq!(check_crash_pattern("assert failed: x", TestState::Booting), Some(Crash::Abort));
    assert_eq!(check_crash_pattern("***ERROR*** A stack overflow in task main", TestState::Booting), Some(Crash::StackOverflow));
    assert_eq!(check_crash_pattern("CORRUPTED heap", TestState::Booting), Some(Crash::StackCorruption));
    assert_eq!(check_crash_pattern("a panic has occurred", TestState::Booting), Some(Crash::Panic));
    assert_eq!(check_crash_pattern("panic only", TestState::Running), None);
    // resets and reboots count only while tests run
    assert_eq!(check_crash_pattern("rst:0x8 (TG1WDT_SYS_RESET),boot:0x13", TestState::Booting), None);
    assert_eq!(check_crash_pattern("rst:0x8 (TG1WDT_SYS_RESET),boot:0x13", TestState::Running), Some(Crash::Watchdog));
    assert_eq!(check_crash_pattern("rst:0x1 (POWERON_RESET)", TestState::Running), Some(Crash::Reboot));
    assert_eq!(check_crash_pattern(" rst:0x1 (POWERON_RESET)", TestState::Running), None);
    assert_eq!(check_crash_pattern("Rebooting...", TestState::Initialized), None);
    assert_eq!(check_crash_pattern("Rebooting...", TestState::Running), Some(Crash::Reboot));
    assert_eq!(check_crash_pattern("", TestState::Running), None);
    assert_eq!(Crash::Watchdog.reason(), "Watchdog timer reset (possible hang)");
    assert_eq!(Crash::GuruMeditation.reason(), "Guru Meditation Error (CPU exception)");

    assert_eq!(advance_test_state("booting", TestState::Booting), TestState::Booting);
    assert_eq!(advance_test_state("test a ... ok", TestState::Booting), TestState::Booting);
    assert_eq!(advance_test_state("running 12 tests", TestState::Booting), TestState::Initialized);
    assert_eq!(advance_test_state("test a ... ok", TestState::Initialized), TestState::Running);
    assert_eq!(advance_test_state("other", TestState::Running), TestState::Running);
    assert_eq!(advance_test_state("test running tests", TestState::Booting), TestState::Running);

    assert_eq!(test_result_in("test a ... ok"), None);
    assert_eq!(test_result_in("test result: ok. 12 passed; 0 failed"), Some(true));
    assert_eq!(test_result_in("test result: FAILED. 11 passed; 1 failed"), Some(false));
}

#[test]
fn test_text_search() {
    let hay = chars_of("hello world");
    assert_eq!(hay.len(), 11);
    assert!(contains_text(&hay, "hello"));
    assert!(contains_text(&hay, "world"));
    assert!(contains_text(&hay, "o w"));
    assert!(contains_text(&hay, ""));
    assert!(contains_text(&hay, "hello world"));
    assert!(!contains_text(&hay, "hello world!"));
    assert!(!contains_text(&hay, "worlds"));
    assert!(!contains_text(&chars_of(""), "x"));
    assert!(has_prefix(&hay, "hell"));
    assert!(has_prefix(&hay, ""));
    assert!(!has_prefix(&hay, "ello"));
    assert!(!has_prefix(&chars_of("he"), "hello"));
}

#[test]
fn test_wifi_service_pending_ssid() {
    let mut service = WifiConfigService::new();
    assert_eq!(service.pending_ssid(), "");
    service.write_ssid("caf\u{e9}".as_bytes());
    assert_eq!(service.pending_ssid(), "caf\u{e9}");
    service.clear_pending();
    assert_eq!(service.pending_ssid(), "");
}

#[test]
fn test_error_display() {
    assert_eq!(AnnounceCacheError::InvalidConfig("test message").describe(), "invalid config: test message");
    assert_eq!(PathTableError::InvalidConfig("test message").describe(), "invalid config: test message");
    assert_eq!(CsmaError::InvalidConfig("x must be > 0").describe(), "invalid CSMA config: x must be > 0");
    assert_eq!(FragmentError::TooShort.describe(), "fragment too short");
    assert_eq!(FragmentError::MtuTooSmall.describe(), "MTU too small (minimum: 3)");
    assert_eq!(FragmentError::EmptyPacket.describe(), "cannot fragment empty packet");
    assert_eq!(FragmentError::BufferTooSmall.describe(), "buffer too small for fragment");
    assert_eq!(FragmentError::MissingFragment(207).describe(), "missing fragment with sequence 207");
    assert_eq!(FragmentError::InvalidFlags.describe(), "invalid flags on fragment");
    assert_eq!(NodeError::Timeout.describe(), "operation timed out");
    assert_eq!(NodeError::LinkClosed.describe(), "link closed");
    assert_eq!(NodeError::PacketError("too big".to_string()).describe(), "packet error: too big");
    assert_eq!(NodeError::ChannelClosed.describe(), "channel closed");
    assert_eq!(RadioError::Hardware.describe(), "hardware error");
    assert_eq!(RadioError::NotInitialized.describe(), "radio not initialized");
    assert_eq!(RadioError::Timeout.describe(), "radio timeout");
    assert_eq!(RadioError::DutyCycleExceeded.describe(), "duty cycle exceeded");
    assert_eq!(RadioError::ChannelBusy.describe(), "channel busy");
    assert_eq!(RadioError::PacketTooLarge { size: 501, max: 500 }.describe(), "packet too large: 501 bytes (max 500)");
    assert_eq!(RadioError::EmptyPacket.describe(), "empty packet");
}

#[test]
fn test_ble_address_text() {
    assert_eq!(BleAddress::new([0x11, 0x22, 0x33, 0xaa, 0xbb, 0x0c]).to_text(), "11:22:33:AA:BB:0C");
    assert_eq!(BleAddress::zero().to_text(), "00:00:00:00:00:00");
}
