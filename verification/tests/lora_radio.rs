use reticulum_node::lora::csma::Csma;
use reticulum_node::lora::csma::CsmaConfig;
use reticulum_node::lora::duty_cycle::DutyCycleLimiter;
use reticulum_node::lora::iface::check_received;
use reticulum_node::lora::iface::mtu;
use reticulum_node::lora::iface::PanicWatch;
use reticulum_node::lora::iface::RxReject;
use reticulum_node::lora::iface::TaskKind;
use reticulum_node::lora::iface::TaskOutcome;
use reticulum_node::lora::radio::build_lora_packet_params;
use reticulum_node::lora::radio::packet_delivered;
use reticulum_node::lora::radio::payload_len_byte;
use reticulum_node::lora::radio::rssi_dbm;
use reticulum_node::lora::radio::rx_wait_ms;
use reticulum_node::lora::radio::rx_window;
use reticulum_node::lora::radio::snr_db;
use reticulum_node::lora::radio::RadioError;
use reticulum_node::lora::radio::RawLoRaModParams;
use reticulum_node::lora::radio::RxWindow;
use reticulum_node::lora::radio::Transmission;
use reticulum_node::lora::radio::TxAction;
use reticulum_node::lora::radio::TxEvent;
use reticulum_node::lora::radio::TxPhase;

fn busy_twice_config() -> CsmaConfig {
    CsmaConfig { max_retries: 2, min_backoff_ms: 10, max_backoff_ms: 10, ..Default::default() }
}

#[test]
fn test_begin_refuses_what_the_radio_cannot_send() {
    assert_eq!(Transmission::begin(false, 10).err(), Some(RadioError::NotInitialized));
    assert_eq!(Transmission::begin(true, 0).err(), Some(RadioError::EmptyPacket));
    assert_eq!(Transmission::begin(true, 501).err(), Some(RadioError::PacketTooLarge { size: 501, max: 500 }));
    let tx = Transmission::begin(true, 500).unwrap();
    assert_eq!(tx.phase, TxPhase::EnteringReceive);
    assert_eq!(tx.airtime_us, 758_016);
}

#[test]
fn test_transmission_on_a_clear_channel() {
    let mut csma = Csma::new(busy_twice_config());
    let mut budget = DutyCycleLimiter::with_budget(1_000_000, 3_600_000_000);
    let mut tx = Transmission::begin(true, 50).unwrap();
    assert_eq!(tx.on_event(TxEvent::Done, &mut csma, &mut budget, 0), TxAction::ReadRssi { after_ms: 5 });
    assert_eq!(tx.on_event(TxEvent::Rssi(-100), &mut csma, &mut budget, 0), TxAction::Standby);
    // nothing is charged before the radio is back in standby
    assert_eq!(budget.remaining_at(0), 1_000_000);
    assert_eq!(tx.on_event(TxEvent::Done, &mut csma, &mut budget, 0), TxAction::Send);
    assert_eq!(budget.remaining_at(0), 1_000_000 - 97_536);
    assert_eq!(tx.on_event(TxEvent::Done, &mut csma, &mut budget, 0), TxAction::Finish { result: Ok(()), restore_standby: false });
    assert_eq!(tx.phase, TxPhase::Finished);
}

#[test]
fn test_transmission_backs_off_then_gives_up() {
    let mut csma = Csma::new(busy_twice_config());
    let mut budget = DutyCycleLimiter::with_budget(1_000_000, 3_600_000_000);
    let mut tx = Transmission::begin(true, 50).unwrap();
    let _ = tx.on_event(TxEvent::Done, &mut csma, &mut budget, 0);
    assert_eq!(tx.on_event(TxEvent::Rssi(-50), &mut csma, &mut budget, 0), TxAction::ReadRssi { after_ms: 15 });
    assert_eq!(tx.on_event(TxEvent::Rssi(-50), &mut csma, &mut budget, 0), TxAction::ReadRssi { after_ms: 15 });
    assert_eq!(csma.retries(), 2);
    assert_eq!(
        tx.on_event(TxEvent::Rssi(-50), &mut csma, &mut budget, 0),
        TxAction::Finish { result: Err(RadioError::ChannelBusy), restore_standby: true }
    );
    assert_eq!(csma.retries(), 0);
    // a congested channel costs no budget
    assert_eq!(budget.remaining_at(0), 1_000_000);
}

#[test]
fn test_transmission_resets_retries_after_success() {
    let mut csma = Csma::new(busy_twice_config());
    let mut budget = DutyCycleLimiter::with_budget(1_000_000, 3_600_000_000);
    let mut tx = Transmission::begin(true, 50).unwrap();
    let _ = tx.on_event(TxEvent::Done, &mut csma, &mut budget, 0);
    let _ = tx.on_event(TxEvent::Rssi(-50), &mut csma, &mut budget, 0);
    assert_eq!(csma.retries(), 1);
    assert_eq!(tx.on_event(TxEvent::Rssi(-95), &mut csma, &mut budget, 0), TxAction::Standby);
    assert_eq!(csma.retries(), 0);
}

#[test]
fn test_transmission_stops_when_the_budget_is_used_up() {
    let mut csma = Csma::new(busy_twice_config());
    let mut budget = DutyCycleLimiter::with_budget(97_535, 3_600_000_000);
    let mut tx = Transmission::begin(true, 50).unwrap();
    let _ = tx.on_event(TxEvent::Done, &mut csma, &mut budget, 0);
    let _ = tx.on_event(TxEvent::Rssi(-100), &mut csma, &mut budget, 0);
    assert_eq!(
        tx.on_event(TxEvent::Done, &mut csma, &mut budget, 0),
        TxAction::Finish { result: Err(RadioError::DutyCycleExceeded), restore_standby: false }
    );
    assert_eq!(budget.remaining_at(0), 97_535);
}

#[test]
fn test_transmission_passes_on_failures() {
    let mut budget = DutyCycleLimiter::with_budget(1_000_000, 3_600_000_000);
    // entering receive mode fails
    let mut csma = Csma::new(busy_twice_config());
    let mut tx = Transmission::begin(true, 50).unwrap();
    assert_eq!(
        tx.on_event(TxEvent::Failed(RadioError::Hardware), &mut csma, &mut budget, 0),
        TxAction::Finish { result: Err(RadioError::Hardware), restore_standby: false }
    );
    // reading the RSSI fails: back to standby, retries reset
    let mut tx = Transmission::begin(true, 50).unwrap();
    let _ = tx.on_event(TxEvent::Done, &mut csma, &mut budget, 0);
    let _ = tx.on_event(TxEvent::Rssi(-50), &mut csma, &mut budget, 0);
    assert_eq!(
        tx.on_event(TxEvent::Failed(RadioError::Timeout), &mut csma, &mut budget, 0),
        TxAction::Finish { result: Err(RadioError::Timeout), restore_standby: true }
    );
    assert_eq!(csma.retries(), 0);
    // standby fails
    let mut tx = Transmission::begin(true, 50).unwrap();
    let _ = tx.on_event(TxEvent::Done, &mut csma, &mut budget, 0);
    let _ = tx.on_event(TxEvent::Rssi(-100), &mut csma, &mut budget, 0);
    assert_eq!(
        tx.on_event(TxEvent::Failed(RadioError::Timeout), &mut csma, &mut budget, 0),
        TxAction::Finish { result: Err(RadioError::Timeout), restore_standby: false }
    );
    // sending fails
    let mut tx = Transmission::begin(true, 50).unwrap();
    let _ = tx.on_event(TxEvent::Done, &mut csma, &mut budget, 0);
    let _ = tx.on_event(TxEvent::Rssi(-100), &mut csma, &mut budget, 0);
    let _ = tx.on_event(TxEvent::Done, &mut csma, &mut budget, 0);
    assert_eq!(
        tx.on_event(TxEvent::Failed(RadioError::Timeout), &mut csma, &mut budget, 0),
        TxAction::Finish { result: Err(RadioError::Timeout), restore_standby: false }
    );
    // nothing follows the end
    assert_eq!(
        tx.on_event(TxEvent::Done, &mut csma, &mut budget, 0),
        TxAction::Finish { result: Err(RadioError::Hardware), restore_standby: false }
    );
}

#[test]
fn test_transmission_refuses_events_out_of_turn() {
    let mut csma = Csma::new(busy_twice_config());
    let mut budget = DutyCycleLimiter::with_budget(1_000_000, 3_600_000_000);
    let mut tx = Transmission::begin(true, 50).unwrap();
    assert_eq!(
        tx.on_event(TxEvent::Rssi(-100), &mut csma, &mut budget, 0),
        TxAction::Finish { result: Err(RadioError::Hardware), restore_standby: false }
    );
    let mut tx = Transmission::begin(true, 50).unwrap();
    let _ = tx.on_event(TxEvent::Done, &mut csma, &mut budget, 0);
    assert_eq!(
        tx.on_event(TxEvent::Done, &mut csma, &mut budget, 0),
        TxAction::Finish { result: Err(RadioError::Hardware), restore_standby: true }
    );
    assert_eq!(budget.remaining_at(0), 1_000_000);
}

#[test]
fn test_receive_window() {
    assert_eq!(rx_window(0), RxWindow::Continuous);
    assert_eq!(rx_window(50), RxWindow::Timed(3));
    assert_eq!(rx_window(15), RxWindow::Timed(0));
    assert_eq!(rx_window(u32::MAX), RxWindow::Timed(0xFF_FFFF));
    assert_eq!(rx_wait_ms(50), 250);
    assert_eq!(rx_wait_ms(u32::MAX - 100), u32::MAX);
}

#[test]
fn test_received_packet_decoding() {
    assert!(packet_delivered(false, true, 1));
    assert!(packet_delivered(false, true, 500));
    assert!(!packet_delivered(false, true, 0));
    assert!(!packet_delivered(false, true, 501));
    assert!(!packet_delivered(true, true, 10));
    assert!(!packet_delivered(false, false, 10));
    assert_eq!(rssi_dbm(0), 0);
    assert_eq!(rssi_dbm(181), -90);
    assert_eq!(rssi_dbm(255), -127);
    assert_eq!(snr_db(0), 0);
    assert_eq!(snr_db(40), 10);
    assert_eq!(snr_db(127), 31);
    assert_eq!(snr_db(128), -32);
    assert_eq!(snr_db(253), 0);
    assert_eq!(snr_db(252), -1);
    assert_eq!(snr_db(216), -10);
}

#[test]
fn test_raw_parameters() {
    assert_eq!(build_lora_packet_params(8, 244, true, false), [0, 8, 0, 244, 1, 0, 0, 0, 0]);
    assert_eq!(build_lora_packet_params(0x1234, 7, false, true), [0x12, 0x34, 0, 7, 0, 1, 0, 0, 0]);
    assert_eq!(payload_len_byte(500), 244);
    assert_eq!(payload_len_byte(50), 50);
    assert_eq!(RawLoRaModParams::new(7, 4, 1, false).0, [7, 4, 1, 0, 0, 0, 0, 0]);
    assert_eq!(RawLoRaModParams::new(12, 4, 1, true).0, [12, 4, 1, 1, 0, 0, 0, 0]);
}

#[test]
fn test_panic_watch() {
    let mut watch = PanicWatch::new();
    assert!(!watch.should_stop());
    assert_eq!(watch.record(TaskKind::Transmit, TaskOutcome::Panicked), 100);
    assert_eq!(watch.record(TaskKind::Receive, TaskOutcome::Panicked), 100);
    assert!(!watch.should_stop());
    // an error of the radio is an answer: the count starts over
    assert_eq!(watch.record(TaskKind::Transmit, TaskOutcome::RadioFailed), 0);
    assert_eq!(watch.consecutive_panics, 0);
    assert_eq!(watch.record(TaskKind::Receive, TaskOutcome::RadioFailed), 100);
    assert_eq!(watch.record(TaskKind::Receive, TaskOutcome::Completed), 0);
    for _ in 0..3 {
        watch.record(TaskKind::Receive, TaskOutcome::Panicked);
    }
    assert!(watch.should_stop());
}

#[test]
fn test_received_packet_size() {
    assert_eq!(check_received(0), Err(RxReject::Empty));
    assert_eq!(check_received(501), Err(RxReject::TooLarge { size: 501, max: 500 }));
    assert_eq!(check_received(1), Ok(()));
    assert_eq!(check_received(500), Ok(()));
    assert_eq!(mtu(), 500);
}
