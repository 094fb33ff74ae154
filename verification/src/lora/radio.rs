//! What the radio is told to do, and in which order.
//!
//! A transmission goes through four steps. The channel is sensed in receive
//! mode until [`Csma`] finds it clear. The radio returns to standby. Only
//! then is the airtime charged to the duty-cycle budget, so that a congested
//! channel does not drain the budget. At last the packet is sent.
//!
//! The driver owns the hardware. It performs the action that
//! [`Transmission::on_event`] returns and reports back what came of it.

use crate::lora::airtime::calculate_airtime_us;
use crate::lora::airtime::LoRaParams;
use crate::lora::config::LORA_MTU;
use crate::lora::csma::Csma;
use crate::lora::csma::CsmaModel;
use crate::lora::csma::CsmaResult;
use crate::lora::duty_cycle::DutyCycleLimiter;
use crate::text::decimal;
use crate::text::push_decimal;
use crate::text::push_text;
use vstd::prelude::*;
use vstd::string::*;

verus! {

/// Time to let the RSSI settle after entering receive mode, in milliseconds.
pub const RSSI_SETTLING_MS: u32 = 5;

/// Maximum time to wait for the radio to become ready, in milliseconds.
pub const BUSY_TIMEOUT_MS: u32 = 1000;

/// Maximum time to wait for the end of a transmission, in seconds.
pub const TX_TIMEOUT_SECS: u64 = 5;

/// Largest receive timeout that the radio takes, in its own units.
pub const MAX_RX_TIMEOUT_UNITS: u32 = 0xFF_FFFF;

/// Errors of the radio.
#[derive(Debug, Clone, Copy, PartialEq, Eq, Structural)]
pub enum RadioError {
    /// The bus, a pin or a command failed; the driver knows the details.
    Hardware,
    /// The radio is not initialized.
    NotInitialized,
    /// The radio did not answer in time.
    Timeout,
    /// The duty-cycle budget does not cover the packet.
    DutyCycleExceeded,
    /// The channel stayed busy through all retries.
    ChannelBusy,
    /// The packet is larger than the radio takes.
    PacketTooLarge {
        /// Size of the packet in bytes.
        size: usize,
        /// Largest size allowed.
        max: usize,
    },
    /// The packet is empty.
    EmptyPacket,
}

/// The sentence that describes an error.
pub open spec fn error_text(error: RadioError) -> Seq<char> {
    match error {
        RadioError::Hardware => "hardware error"@,
        RadioError::NotInitialized => "radio not initialized"@,
        RadioError::Timeout => "radio timeout"@,
        RadioError::DutyCycleExceeded => "duty cycle exceeded"@,
        RadioError::ChannelBusy => "channel busy"@,
        RadioError::PacketTooLarge { size, max } => "packet too large: "@ + decimal(size as nat)
            + " bytes (max "@ + decimal(max as nat) + ")"@,
        RadioError::EmptyPacket => "empty packet"@,
    }
}

impl RadioError {
    /// A sentence that describes the error.
    pub fn describe(&self) -> (s: String)
        ensures
            s@ == error_text(*self),
    {
        match self {
            RadioError::Hardware => String::from_str("hardware error"),
            RadioError::NotInitialized => String::from_str("radio not initialized"),
            RadioError::Timeout => String::from_str("radio timeout"),
            RadioError::DutyCycleExceeded => String::from_str("duty cycle exceeded"),
            RadioError::ChannelBusy => String::from_str("channel busy"),
            RadioError::PacketTooLarge { size, max } => {
                let mut s = String::from_str("packet too large: ");
                push_decimal(&mut s, *size as u64);
                push_text(&mut s, " bytes (max ");
                push_decimal(&mut s, *max as u64);
                push_text(&mut s, ")");
                s
            },
            RadioError::EmptyPacket => String::from_str("empty packet"),
        }
    }
}

/// A received packet.
#[derive(Debug, Clone)]
pub struct ReceivedPacket {
    /// The payload.
    pub data: Vec<u8>,
    /// Signal strength in dBm.
    pub rssi: i16,
    /// Signal-to-noise ratio in dB.
    pub snr: i8,
}

/// Whether a packet can be handed to the radio, and if not, why.
pub open spec fn admission(initialized: bool, len: usize) -> Option<RadioError> {
    if !initialized {
        Some(RadioError::NotInitialized)
    } else if len == 0 {
        Some(RadioError::EmptyPacket)
    } else if len > LORA_MTU {
        Some(RadioError::PacketTooLarge { size: len, max: LORA_MTU })
    } else {
        None
    }
}

/// Where a transmission stands.
#[derive(Debug, Clone, Copy, PartialEq, Eq, Structural)]
pub enum TxPhase {
    /// The radio is asked to enter receive mode.
    EnteringReceive,
    /// The channel is being sensed.
    Sensing,
    /// The channel is clear and the radio is asked to return to standby.
    LeavingReceive,
    /// The packet is being sent.
    Sending,
    /// The transmission is over.
    Finished,
}

/// What the driver reports.
#[derive(Debug, Clone, Copy, PartialEq, Eq, Structural)]
pub enum TxEvent {
    /// The action was carried out.
    Done,
    /// The action failed with this error.
    Failed(RadioError),
    /// The RSSI was read, in dBm.
    Rssi(i16),
}

/// What the driver is to do next.
#[derive(Debug, Clone, Copy, PartialEq, Eq)]
pub enum TxAction {
    /// Enter continuous receive mode.
    EnterReceive,
    /// Stay in receive mode for `after_ms` milliseconds, then read the RSSI.
    ReadRssi {
        /// Milliseconds to wait before reading.
        after_ms: u64,
    },
    /// Return to standby and wait until the radio is ready.
    Standby,
    /// Program the packet, clear the interrupts, start the transmission,
    /// wait for its end and return to standby.
    Send,
    /// The transmission is over with this result. If `restore_standby` is
    /// set the radio is still in receive mode and is to be put back to
    /// standby, whatever comes of that.
    Finish {
        /// Success, or why the packet was not sent.
        result: Result<(), RadioError>,
        /// Whether the radio is to be put back to standby.
        restore_standby: bool,
    },
}

/// A transmission in progress.
#[derive(Debug, Clone, Copy)]
pub struct Transmission {
    /// Airtime of the packet in microseconds.
    pub airtime_us: u64,
    /// Where the transmission stands.
    pub phase: TxPhase,
}

impl Transmission {
    /// Admits a packet of `len` bytes to a radio, or refuses it.
    ///
    /// A packet that is admitted has its airtime computed at the standard
    /// parameters, and the first action is to enter receive mode.
    pub fn begin(initialized: bool, len: usize) -> (r: Result<Self, RadioError>)
        ensures
            match admission(initialized, len) {
                Some(e) => r == Err::<Self, RadioError>(e),
                None => r is Ok && r->Ok_0.phase == TxPhase::EnteringReceive && r->Ok_0.airtime_us
                    == standard_airtime(len),
            },
    {
        if !initialized {
            return Err(RadioError::NotInitialized);
        }
        if len == 0 {
            return Err(RadioError::EmptyPacket);
        }
        if len > LORA_MTU {
            return Err(RadioError::PacketTooLarge { size: len, max: LORA_MTU });
        }
        let params = LoRaParams::default();
        let airtime_us = calculate_airtime_us(len, &params);
        Ok(Transmission { airtime_us, phase: TxPhase::EnteringReceive })
    }

    /// Takes in what the driver reports at `now` and says what to do next.
    ///
    /// - Once receive mode is entered the RSSI is read after the settling
    ///   time.
    /// - A reading is judged by `csma`: on a clear channel the retries are
    ///   reset and the radio goes to standby; on a busy one the next reading
    ///   follows after the backoff and the settling time; when the retries
    ///   are used up they are reset and the transmission fails as
    ///   `ChannelBusy`.
    /// - Once the radio is in standby the airtime is charged to `budget`. If
    ///   the budget does not cover it the transmission fails as
    ///   `DutyCycleExceeded`; else the packet is sent.
    /// - A failed action ends the transmission with its error; while the
    ///   channel is sensed the retries are reset and the radio is put back to
    ///   standby.
    /// - The budget changes in no other case than the charge, and an event
    ///   that does not belong to the phase ends the transmission as
    ///   `Hardware` failure.
    pub fn on_event(
        &mut self,
        event: TxEvent,
        csma: &mut Csma,
        budget: &mut DutyCycleLimiter,
        now: u64,
    ) -> (action: TxAction)
        requires
            old(budget)@.wf(),
        ensures
            final(budget)@.wf(),
            final(self).airtime_us == old(self).airtime_us,
            (final(self).phase, action, final(csma)@, final(budget)@) == tx_step(
                old(self).phase,
                event,
                old(csma)@,
                old(budget)@,
                old(self).airtime_us,
                now,
            ),
    {
        match self.phase {
            TxPhase::EnteringReceive => match event {
                TxEvent::Done => {
                    self.phase = TxPhase::Sensing;
                    TxAction::ReadRssi { after_ms: RSSI_SETTLING_MS as u64 }
                },
                TxEvent::Failed(e) => {
                    csma.reset();
                    self.phase = TxPhase::Finished;
                    TxAction::Finish { result: Err(e), restore_standby: false }
                },
                TxEvent::Rssi(_) => {
                    csma.reset();
                    self.phase = TxPhase::Finished;
                    TxAction::Finish { result: Err(RadioError::Hardware), restore_standby: false }
                },
            },
            TxPhase::Sensing => match event {
                TxEvent::Rssi(rssi) => match csma.try_access(rssi) {
                    CsmaResult::Transmit => {
                        csma.reset();
                        self.phase = TxPhase::LeavingReceive;
                        TxAction::Standby
                    },
                    CsmaResult::Wait { ms } => TxAction::ReadRssi {
                        after_ms: ms as u64 + RSSI_SETTLING_MS as u64,
                    },
                    CsmaResult::GiveUp => {
                        csma.reset();
                        self.phase = TxPhase::Finished;
                        TxAction::Finish {
                            result: Err(RadioError::ChannelBusy),
                            restore_standby: true,
                        }
                    },
                },
                TxEvent::Failed(e) => {
                    csma.reset();
                    self.phase = TxPhase::Finished;
                    TxAction::Finish { result: Err(e), restore_standby: true }
                },
                TxEvent::Done => {
                    csma.reset();
                    self.phase = TxPhase::Finished;
                    TxAction::Finish { result: Err(RadioError::Hardware), restore_standby: true }
                },
            },
            TxPhase::LeavingReceive => match event {
                TxEvent::Done => {
                    if budget.try_consume_at(self.airtime_us, now) {
                        self.phase = TxPhase::Sending;
                        TxAction::Send
                    } else {
                        self.phase = TxPhase::Finished;
                        TxAction::Finish {
                            result: Err(RadioError::DutyCycleExceeded),
                            restore_standby: false,
                        }
                    }
                },
                TxEvent::Failed(e) => {
                    self.phase = TxPhase::Finished;
                    TxAction::Finish { result: Err(e), restore_standby: false }
                },
                TxEvent::Rssi(_) => {
                    self.phase = TxPhase::Finished;
                    TxAction::Finish { result: Err(RadioError::Hardware), restore_standby: false }
                },
            },
            TxPhase::Sending => {
                self.phase = TxPhase::Finished;
                match event {
                    TxEvent::Done => TxAction::Finish { result: Ok(()), restore_standby: false },
                    TxEvent::Failed(e) => TxAction::Finish { result: Err(e), restore_standby: false },
                    TxEvent::Rssi(_) => TxAction::Finish {
                        result: Err(RadioError::Hardware),
                        restore_standby: false,
                    },
                }
            },
            TxPhase::Finished => TxAction::Finish {
                result: Err(RadioError::Hardware),
                restore_standby: false,
            },
        }
    }
}

/// Airtime of a packet of `len` bytes at the standard parameters, in
/// microseconds.
pub open spec fn standard_airtime(len: usize) -> u64 {
    let params = LoRaParams {
        spreading_factor: 7,
        bandwidth_hz: 125_000,
        coding_rate: 5,
        preamble_symbols: 8,
        explicit_header: true,
        crc_enabled: true,
    };
    if params.airtime_us(len as int) > u64::MAX {
        u64::MAX
    } else {
        params.airtime_us(len as int) as u64
    }
}

/// The state machine of a transmission: phase, action, channel access state
/// and budget after an event.
pub open spec fn tx_step(
    phase: TxPhase,
    event: TxEvent,
    csma: CsmaModel,
    budget: crate::lora::duty_cycle::DutyCycleModel,
    airtime_us: u64,
    now: u64,
) -> (TxPhase, TxAction, CsmaModel, crate::lora::duty_cycle::DutyCycleModel) {
    let rested = CsmaModel { retries: 0, ..csma };
    match phase {
        TxPhase::EnteringReceive => match event {
            TxEvent::Done => (
                TxPhase::Sensing,
                TxAction::ReadRssi { after_ms: RSSI_SETTLING_MS as u64 },
                csma,
                budget,
            ),
            TxEvent::Failed(e) => (
                TxPhase::Finished,
                TxAction::Finish { result: Err(e), restore_standby: false },
                rested,
                budget,
            ),
            TxEvent::Rssi(_) => (
                TxPhase::Finished,
                TxAction::Finish { result: Err(RadioError::Hardware), restore_standby: false },
                rested,
                budget,
            ),
        },
        TxPhase::Sensing => match event {
            TxEvent::Rssi(rssi) => match csma.access(rssi).1 {
                CsmaResult::Transmit => (
                    TxPhase::LeavingReceive,
                    TxAction::Standby,
                    CsmaModel { retries: 0, ..csma.access(rssi).0 },
                    budget,
                ),
                CsmaResult::Wait { ms } => (
                    TxPhase::Sensing,
                    TxAction::ReadRssi { after_ms: (ms + RSSI_SETTLING_MS) as u64 },
                    csma.access(rssi).0,
                    budget,
                ),
                CsmaResult::GiveUp => (
                    TxPhase::Finished,
                    TxAction::Finish { result: Err(RadioError::ChannelBusy), restore_standby: true },
                    CsmaModel { retries: 0, ..csma.access(rssi).0 },
                    budget,
                ),
            },
            TxEvent::Failed(e) => (
                TxPhase::Finished,
                TxAction::Finish { result: Err(e), restore_standby: true },
                rested,
                budget,
            ),
            TxEvent::Done => (
                TxPhase::Finished,
                TxAction::Finish { result: Err(RadioError::Hardware), restore_standby: true },
                rested,
                budget,
            ),
        },
        TxPhase::LeavingReceive => match event {
            TxEvent::Done => if budget.affords(airtime_us, now) {
                (TxPhase::Sending, TxAction::Send, csma, budget.consumed(airtime_us, now))
            } else {
                (
                    TxPhase::Finished,
                    TxAction::Finish {
                        result: Err(RadioError::DutyCycleExceeded),
                        restore_standby: false,
                    },
                    csma,
                    budget.consumed(airtime_us, now),
                )
            },
            TxEvent::Failed(e) => (
                TxPhase::Finished,
                TxAction::Finish { result: Err(e), restore_standby: false },
                csma,
                budget,
            ),
            TxEvent::Rssi(_) => (
                TxPhase::Finished,
                TxAction::Finish { result: Err(RadioError::Hardware), restore_standby: false },
                csma,
                budget,
            ),
        },
        TxPhase::Sending => (
            TxPhase::Finished,
            TxAction::Finish {
                result: match event {
                    TxEvent::Done => Ok(()),
                    TxEvent::Failed(e) => Err(e),
                    TxEvent::Rssi(_) => Err(RadioError::Hardware),
                },
                restore_standby: false,
            },
            csma,
            budget,
        ),
        TxPhase::Finished => (
            TxPhase::Finished,
            TxAction::Finish { result: Err(RadioError::Hardware), restore_standby: false },
            csma,
            budget,
        ),
    }
}

/// The budget is debited only when the packet is about to be sent: whenever
/// the step does not lead to `Send`, the budget holds at least what it held
/// before.
pub proof fn lemma_charged_only_to_send(
    phase: TxPhase,
    event: TxEvent,
    csma: CsmaModel,
    budget: crate::lora::duty_cycle::DutyCycleModel,
    airtime_us: u64,
    now: u64,
)
    requires
        budget.wf(),
    ensures
        tx_step(phase, event, csma, budget, airtime_us, now).1 != TxAction::Send ==> tx_step(
            phase,
            event,
            csma,
            budget,
            airtime_us,
            now,
        ).3.remaining_us >= budget.remaining_us,
        tx_step(phase, event, csma, budget, airtime_us, now).1 == TxAction::Send ==> phase
            == TxPhase::LeavingReceive && budget.affords(airtime_us, now),
{
}

/// How long the radio is told to listen.
#[derive(Debug, Clone, Copy, PartialEq, Eq, Structural)]
pub enum RxWindow {
    /// Until a packet arrives.
    Continuous,
    /// For this many units of the radio's timer.
    Timed(u32),
}

/// The receive window for a timeout in milliseconds: continuous for zero,
/// else `timeout_ms * 1000 / 15625` timer units, at most
/// [`MAX_RX_TIMEOUT_UNITS`].
pub fn rx_window(timeout_ms: u32) -> (w: RxWindow)
    ensures
        timeout_ms == 0 ==> w == RxWindow::Continuous,
        timeout_ms != 0 ==> w == RxWindow::Timed(
            if timeout_ms * 1000 / 15625 > MAX_RX_TIMEOUT_UNITS {
                MAX_RX_TIMEOUT_UNITS
            } else {
                (timeout_ms * 1000 / 15625) as u32
            },
        ),
{
    if timeout_ms == 0 {
        RxWindow::Continuous
    } else {
        let units: u64 = (timeout_ms as u64 * 1000) / 15625;
        if units > MAX_RX_TIMEOUT_UNITS as u64 {
            RxWindow::Timed(MAX_RX_TIMEOUT_UNITS)
        } else {
            RxWindow::Timed(units as u32)
        }
    }
}

/// How long to wait for the end of a reception, in milliseconds: the
/// timeout and a margin of 200 ms, saturating.
pub fn rx_wait_ms(timeout_ms: u32) -> (ms: u32)
    ensures
        ms == if timeout_ms + 200 > u32::MAX {
            u32::MAX as int
        } else {
            timeout_ms + 200
        },
{
    if timeout_ms > u32::MAX - 200 {
        u32::MAX
    } else {
        timeout_ms + 200
    }
}

/// Whether a reception has delivered a packet: the radio reports a received
/// packet and no timeout, and the packet has between one byte and the
/// largest size allowed.
pub fn packet_delivered(timed_out: bool, rx_done: bool, payload_len: usize) -> (r: bool)
    ensures
        r == (!timed_out && rx_done && 1 <= payload_len <= LORA_MTU),
{
    !timed_out && rx_done && payload_len >= 1 && payload_len <= LORA_MTU
}

/// Signal strength in dBm from the radio's reading: minus half the reading.
pub fn rssi_dbm(raw: u8) -> (rssi: i16)
    ensures
        rssi == -((raw / 2) as int),
        -127 <= rssi <= 0,
{
    -((raw / 2) as i16)
}

/// Signal-to-noise ratio in dB from the radio's reading: a quarter of the
/// reading taken as a signed byte, rounded towards zero.
pub fn snr_db(raw: u8) -> (snr: i8)
    ensures
        raw < 128 ==> snr == raw / 4,
        raw >= 128 ==> snr == -(((256 - raw) / 4) as int),
{
    if raw < 128 {
        (raw / 4) as i8
    } else {
        -(((256 - raw as u16) / 4) as i8)
    }
}

/// Packet parameters as the radio takes them: preamble length, high byte
/// first; explicit header; payload length; CRC; inverted IQ; three zeros.
pub fn build_lora_packet_params(
    preamble: u16,
    payload_len: u8,
    crc_enabled: bool,
    invert_iq: bool,
) -> (params: [u8; 9])
    ensures
        params@ == seq![
            (preamble / 256) as u8,
            (preamble % 256) as u8,
            0u8,
            payload_len,
            if crc_enabled { 1u8 } else { 0u8 },
            if invert_iq { 1u8 } else { 0u8 },
            0u8,
            0u8,
            0u8,
        ],
{
    let params = [
        (preamble / 256) as u8,
        (preamble % 256) as u8,
        0x00,
        payload_len,
        if crc_enabled {
            0x01
        } else {
            0x00
        },
        if invert_iq {
            0x01
        } else {
            0x00
        },
        0,
        0,
        0,
    ];
    assert(params@ =~= seq![
        (preamble / 256) as u8,
        (preamble % 256) as u8,
        0u8,
        payload_len,
        if crc_enabled { 1u8 } else { 0u8 },
        if invert_iq { 1u8 } else { 0u8 },
        0u8,
        0u8,
        0u8,
    ]);
    params
}

/// The length byte for a packet of `len` bytes: the length modulo 256.
pub fn payload_len_byte(len: usize) -> (b: u8)
    ensures
        b == len % 256,
{
    (len % 256) as u8
}

/// Modulation parameters as the radio takes them.
#[derive(Debug, Clone, Copy)]
pub struct RawLoRaModParams(pub [u8; 8]);

impl RawLoRaModParams {
    /// Spreading factor, bandwidth, coding rate and low data rate
    /// optimization, followed by four zeros.
    pub fn new(sf: u8, bw: u8, cr: u8, low_data_rate_opt: bool) -> (p: Self)
        ensures
            p.0@ == seq![sf, bw, cr, if low_data_rate_opt { 1u8 } else { 0u8 }, 0u8, 0u8, 0u8, 0u8],
    {
        let bytes = [
            sf,
            bw,
            cr,
            if low_data_rate_opt {
                1
            } else {
                0
            },
            0,
            0,
            0,
            0,
        ];
        assert(bytes@ =~= seq![
            sf,
            bw,
            cr,
            if low_data_rate_opt { 1u8 } else { 0u8 },
            0u8,
            0u8,
            0u8,
            0u8,
        ]);
        RawLoRaModParams(bytes)
    }
}

} // verus!
