use reticulum_node::lora::airtime::calculate_airtime_us;
use reticulum_node::lora::airtime::LoRaParams;

#[test]
fn test_default_params() {
    let params = LoRaParams::default();
    assert_eq!(params.spreading_factor, 7);
    assert_eq!(params.bandwidth_hz, 125_000);
    assert_eq!(params.coding_rate, 5);
    assert_eq!(params.preamble_symbols, 8);
    assert!(params.explicit_header);
    assert!(params.crc_enabled);
}

#[test]
fn test_symbol_duration_sf7_125khz() {
    let params = LoRaParams { spreading_factor: 7, bandwidth_hz: 125_000, ..Default::default() };
    assert_eq!(params.symbol_duration_us(), 1024);
}

#[test]
fn test_symbol_duration_sf12_125khz() {
    let params = LoRaParams { spreading_factor: 12, bandwidth_hz: 125_000, ..Default::default() };
    assert_eq!(params.symbol_duration_us(), 32768);
}

#[test]
fn test_symbol_duration_sf7_500khz() {
    let params = LoRaParams { spreading_factor: 7, bandwidth_hz: 500_000, ..Default::default() };
    assert_eq!(params.symbol_duration_us(), 256);
}

#[test]
fn test_low_data_rate_optimize() {
    let params = LoRaParams { spreading_factor: 7, bandwidth_hz: 125_000, ..Default::default() };
    assert!(!params.low_data_rate_optimize());
    let params = LoRaParams { spreading_factor: 11, bandwidth_hz: 125_000, ..Default::default() };
    assert!(params.low_data_rate_optimize());
    let params = LoRaParams { spreading_factor: 12, bandwidth_hz: 125_000, ..Default::default() };
    assert!(params.low_data_rate_optimize());
    let params = LoRaParams { spreading_factor: 12, bandwidth_hz: 500_000, ..Default::default() };
    assert!(!params.low_data_rate_optimize());
    // exactly 16 ms does not exceed 16 ms
    let params = LoRaParams { spreading_factor: 11, bandwidth_hz: 128_000, ..Default::default() };
    assert!(!params.low_data_rate_optimize());
    let params = LoRaParams { spreading_factor: 11, bandwidth_hz: 127_999, ..Default::default() };
    assert!(params.low_data_rate_optimize());
}

#[test]
fn test_airtime_exact_values() {
    let params = LoRaParams::default();
    // empty packet: 12.25 preamble symbols and 8 + ceil(16 / 28) * 5 = 13 payload symbols
    assert_eq!(calculate_airtime_us(0, &params), 25_856);
    // 50 bytes: numerator 416, 15 groups, 83 payload symbols
    assert_eq!(calculate_airtime_us(50, &params), 97_536);
    // 500 bytes: numerator 4016, 144 groups, 728 payload symbols
    assert_eq!(calculate_airtime_us(500, &params), 758_016);
    // SF 12 with low data rate optimization: numerator 396, denominator 40,
    // 10 groups, 58 payload symbols
    let sf12 = LoRaParams { spreading_factor: 12, ..Default::default() };
    assert_eq!(calculate_airtime_us(50, &sf12), 2_301_952);
    // implicit header, no CRC, SF 12, empty packet: the numerator is negative
    let bare = LoRaParams { spreading_factor: 12, explicit_header: false, crc_enabled: false, ..Default::default() };
    assert_eq!(calculate_airtime_us(0, &bare), (12 * 4 + 1 + 8 * 4) * 32_768 / 4);
    // rounding down: 81 quarter symbols of 128 / 3 microseconds
    let odd = LoRaParams { bandwidth_hz: 3_000_000, coding_rate: 0, preamble_symbols: 8, ..Default::default() };
    assert_eq!(calculate_airtime_us(10, &odd), 81 * 128 * 1_000_000 / 12_000_000);
}

#[test]
fn test_airtime_saturates() {
    let slow = LoRaParams { spreading_factor: 12, bandwidth_hz: 1, coding_rate: 255, preamble_symbols: 255, ..Default::default() };
    assert_eq!(calculate_airtime_us(usize::MAX, &slow), u64::MAX);
}

#[test]
fn test_airtime_increases_with_payload() {
    let params = LoRaParams::default();
    let airtime_10 = calculate_airtime_us(10, &params);
    let airtime_50 = calculate_airtime_us(50, &params);
    let airtime_100 = calculate_airtime_us(100, &params);
    assert!(airtime_50 > airtime_10);
    assert!(airtime_100 > airtime_50);
    // one byte more does not always take more airtime, but never less
    let mut last = 0;
    for payload in 0..=500 {
        let airtime = calculate_airtime_us(payload, &params);
        assert!(airtime >= last);
        last = airtime;
    }
    assert_eq!(calculate_airtime_us(10, &params), calculate_airtime_us(11, &params));
}

#[test]
fn test_airtime_increases_with_sf() {
    let payload = 50;
    let mut last = 0;
    for sf in 7..=12u8 {
        let params = LoRaParams { spreading_factor: sf, ..Default::default() };
        let airtime = calculate_airtime_us(payload, &params);
        assert!(airtime > last, "SF {}", sf);
        last = airtime;
    }
}

#[test]
fn test_airtime_decreases_with_bandwidth() {
    let payload = 50;
    let airtime_125k = calculate_airtime_us(payload, &LoRaParams { bandwidth_hz: 125_000, ..Default::default() });
    let airtime_250k = calculate_airtime_us(payload, &LoRaParams { bandwidth_hz: 250_000, ..Default::default() });
    let airtime_500k = calculate_airtime_us(payload, &LoRaParams { bandwidth_hz: 500_000, ..Default::default() });
    assert!(airtime_125k > airtime_250k);
    assert!(airtime_250k > airtime_500k);
}

#[test]
fn test_airtime_reasonable_range_sf7() {
    let params = LoRaParams::default();
    let airtime_ms = calculate_airtime_us(100, &params) as f64 / 1000.0;
    assert!(airtime_ms > 50.0 && airtime_ms < 300.0);
}

#[test]
fn test_airtime_empty_packet() {
    let params = LoRaParams::default();
    let airtime_us = calculate_airtime_us(0, &params);
    assert!(airtime_us > 0);
    let airtime_ms = airtime_us as f64 / 1000.0;
    assert!(airtime_ms > 10.0 && airtime_ms < 100.0);
}

#[test]
fn test_airtime_max_reticulum_mdu() {
    let params = LoRaParams::default();
    let airtime_ms = calculate_airtime_us(500, &params) as f64 / 1000.0;
    assert!(airtime_ms < 1000.0);
}

#[test]
fn test_airtime_sf12_long_range() {
    let params = LoRaParams { spreading_factor: 12, bandwidth_hz: 125_000, ..Default::default() };
    let airtime_ms = calculate_airtime_us(50, &params) as f64 / 1000.0;
    assert!(airtime_ms > 1000.0);
}

#[test]
fn test_zero_bandwidth_is_safe() {
    let params = LoRaParams { bandwidth_hz: 0, ..Default::default() };
    assert_eq!(params.symbol_duration_us(), 0);
    assert_eq!(calculate_airtime_us(50, &params), 0);
}
