//! The link to the sensor station: packet framing, the checks a packet must
//! pass, and the steps of the loop that reads packets and stores them.
use crate::bitmap::PIXEL_COUNT;
use crate::wire::{decode_sensor_data, decode_sensor_spec, SensorData, SensorDataView};
use vstd::prelude::*;

verus! {

/// Seconds the loop waits before it connects again after a failure.
pub const RETRY_DELAY_SECS: u64 = 5;

/// The largest payload the server accepts, in bytes.
pub const MAX_PACKET_LEN: u32 = 1_000_000;

/// Why the link to the sensor is dropped and opened again.
#[derive(PartialEq, Eq, Structural, Clone, Copy, Debug)]
pub enum IngestError {
    /// Connecting, reading or storing failed outside the library.
    Link,
    /// The header announced a payload of this length, which is 0 or too long.
    InvalidLength(u32),
    /// The payload is not a valid encoding of a sensor packet.
    Malformed,
    /// The thermal image has this many pixels instead of 768.
    PixelCount(usize),
    /// The event does not answer the action the loop asked for.
    OutOfOrder,
}

/// The big-endian number in the four header bytes.
pub open spec fn header_value(h: Seq<u8>) -> int {
    h[0] * 16777216 + h[1] * 65536 + h[2] * 256 + h[3]
}

/// The payload length that a packet header announces, if the server
/// accepts it: between 1 and 1 000 000 bytes.
pub open spec fn packet_length_spec(h: Seq<u8>) -> Result<usize, IngestError> {
    let len = header_value(h);
    if len == 0 || len > MAX_PACKET_LEN {
        Err(IngestError::InvalidLength(len as u32))
    } else {
        Ok(len as usize)
    }
}

/// Reads the payload length from a packet header (four bytes, big endian)
/// and checks it.
pub fn packet_length(header: [u8; 4]) -> (res: Result<usize, IngestError>)
    ensures
        res == packet_length_spec(header@),
{
    let len: u32 = header[0] as u32 * 16777216 + header[1] as u32 * 65536 + header[2] as u32 * 256
        + header[3] as u32;
    if len == 0 || len > MAX_PACKET_LEN {
        Err(IngestError::InvalidLength(len))
    } else {
        Ok(len as usize)
    }
}

// ---------------------------------------------------------------------
// The loop that reads packets
// ---------------------------------------------------------------------

/// Where the loop that reads packets stands.
#[derive(PartialEq, Eq, Structural, Clone, Copy, Debug)]
pub enum LinkState {
    /// No connection: the next thing is to connect.
    Disconnected,
    /// Connected, waiting for the four header bytes of a packet.
    AwaitingHeader,
    /// Waiting for a payload of `len` bytes.
    AwaitingPayload { len: usize },
    /// A packet is being stored.
    Storing,
}

/// What happened since the last action.
pub enum LinkEvent {
    /// The connection to the sensor is open.
    Connected,
    /// The four header bytes of a packet arrived.
    HeaderReceived { header: [u8; 4] },
    /// The payload of a packet arrived.
    PayloadReceived { bytes: Vec<u8> },
    /// The packet was stored.
    Stored,
    /// Connecting, reading or storing failed.
    Failed,
    /// The wait after a failure is over.
    Rested,
}

/// What happened since the last action, in the contracts.
pub enum LinkEventView {
    Rested,
    Connected,
    HeaderReceived { header: Seq<u8> },
    PayloadReceived { bytes: Seq<u8> },
    Stored,
    Failed,
}

impl View for LinkEvent {
    type V = LinkEventView;

    open spec fn view(&self) -> LinkEventView {
        match self {
            LinkEvent::Connected => LinkEventView::Connected,
            LinkEvent::HeaderReceived { header } => LinkEventView::HeaderReceived { header: header@ },
            LinkEvent::PayloadReceived { bytes } => LinkEventView::PayloadReceived { bytes: bytes@ },
            LinkEvent::Stored => LinkEventView::Stored,
            LinkEvent::Failed => LinkEventView::Failed,
            LinkEvent::Rested => LinkEventView::Rested,
        }
    }
}

/// What the loop is to do next.
pub enum LinkAction {
    /// Open a connection to the sensor.
    Connect,
    /// Read the four header bytes of the next packet.
    ReadHeader,
    /// Read a payload of `len` bytes.
    ReadPayload { len: usize },
    /// Store the packet: its reading, whose thermal image has 768 pixels.
    Store { reading: SensorData },
    /// Report `error`, close the connection and wait `RETRY_DELAY_SECS`.
    Retry { error: IngestError },
}

/// What the loop is to do next, in the contracts.
pub enum LinkActionView {
    Connect,
    ReadHeader,
    ReadPayload { len: usize },
    Store { reading: SensorDataView },
    Retry { error: IngestError },
}

impl View for LinkAction {
    type V = LinkActionView;

    open spec fn view(&self) -> LinkActionView {
        match self {
            LinkAction::Connect => LinkActionView::Connect,
            LinkAction::ReadHeader => LinkActionView::ReadHeader,
            LinkAction::ReadPayload { len } => LinkActionView::ReadPayload { len: *len },
            LinkAction::Store { reading } => LinkActionView::Store { reading: reading@ },
            LinkAction::Retry { error } => LinkActionView::Retry { error: *error },
        }
    }
}

/// Drops the connection for `error`.
pub open spec fn retry(error: IngestError) -> (LinkState, LinkActionView) {
    (LinkState::Disconnected, LinkActionView::Retry { error })
}

/// What a payload that answers `ReadPayload` leads to.
pub open spec fn payload_transition(len: usize, bytes: Seq<u8>) -> (LinkState, LinkActionView) {
    if bytes.len() != len {
        retry(IngestError::OutOfOrder)
    } else {
        match decode_sensor_spec(bytes) {
            None => retry(IngestError::Malformed),
            Some(r) => if r.thermal.len() != PIXEL_COUNT {
                retry(IngestError::PixelCount(r.thermal.len() as usize))
            } else {
                (LinkState::Storing, LinkActionView::Store { reading: r })
            },
        }
    }
}

/// The next state and action of the loop after `event` in `state`.
pub open spec fn transition(state: LinkState, event: LinkEventView) -> (LinkState, LinkActionView) {
    match event {
        LinkEventView::Failed => retry(IngestError::Link),
        LinkEventView::Rested => if state == LinkState::Disconnected {
            (LinkState::Disconnected, LinkActionView::Connect)
        } else {
            retry(IngestError::OutOfOrder)
        },
        LinkEventView::Connected => if state == LinkState::Disconnected {
            (LinkState::AwaitingHeader, LinkActionView::ReadHeader)
        } else {
            retry(IngestError::OutOfOrder)
        },
        LinkEventView::HeaderReceived { header } => if state == LinkState::AwaitingHeader
            && header.len() == 4 {
            match packet_length_spec(header) {
                Ok(len) => (LinkState::AwaitingPayload { len }, LinkActionView::ReadPayload { len }),
                Err(e) => retry(e),
            }
        } else {
            retry(IngestError::OutOfOrder)
        },
        LinkEventView::PayloadReceived { bytes } => match state {
            LinkState::AwaitingPayload { len } => payload_transition(len, bytes),
            _ => retry(IngestError::OutOfOrder),
        },
        LinkEventView::Stored => if state == LinkState::Storing {
            (LinkState::AwaitingHeader, LinkActionView::ReadHeader)
        } else {
            retry(IngestError::OutOfOrder)
        },
    }
}

/// The loop starts without a connection and opens one.
pub fn start() -> (res: (LinkState, LinkAction))
    ensures
        res.0 == LinkState::Disconnected,
        res.1@ == LinkActionView::Connect,
{
    (LinkState::Disconnected, LinkAction::Connect)
}

/// Decodes and checks a payload of `len` expected bytes.
fn on_payload(len: usize, bytes: Vec<u8>) -> (res: (LinkState, LinkAction))
    ensures
        (res.0, res.1@) == payload_transition(len, bytes@),
{
    if bytes.len() != len {
        return (LinkState::Disconnected, LinkAction::Retry { error: IngestError::OutOfOrder });
    }
    match decode_sensor_data(bytes.as_slice()) {
        None => (LinkState::Disconnected, LinkAction::Retry { error: IngestError::Malformed }),
        Some(reading) => {
            let n = reading.thermal_bits.len();
            if n != PIXEL_COUNT {
                (LinkState::Disconnected, LinkAction::Retry { error: IngestError::PixelCount(n) })
            } else {
                (LinkState::Storing, LinkAction::Store { reading })
            }
        },
    }
}

/// One step of the loop that reads packets: the next state and action
/// after `event` in `state`.
pub fn step(state: LinkState, event: LinkEvent) -> (res: (LinkState, LinkAction))
    ensures
        (res.0, res.1@) == transition(state, event@),
{
    match event {
        LinkEvent::Failed => (LinkState::Disconnected, LinkAction::Retry { error: IngestError::Link }),
        LinkEvent::Rested => if state == LinkState::Disconnected {
            (LinkState::Disconnected, LinkAction::Connect)
        } else {
            (LinkState::Disconnected, LinkAction::Retry { error: IngestError::OutOfOrder })
        },
        LinkEvent::Connected => if state == LinkState::Disconnected {
            (LinkState::AwaitingHeader, LinkAction::ReadHeader)
        } else {
            (LinkState::Disconnected, LinkAction::Retry { error: IngestError::OutOfOrder })
        },
        LinkEvent::HeaderReceived { header } => if state == LinkState::AwaitingHeader {
            match packet_length(header) {
                Ok(len) => (LinkState::AwaitingPayload { len }, LinkAction::ReadPayload { len }),
                Err(e) => (LinkState::Disconnected, LinkAction::Retry { error: e }),
            }
        } else {
            (LinkState::Disconnected, LinkAction::Retry { error: IngestError::OutOfOrder })
        },
        LinkEvent::PayloadReceived { bytes } => match state {
            LinkState::AwaitingPayload { len } => on_payload(len, bytes),
            _ => (LinkState::Disconnected, LinkAction::Retry { error: IngestError::OutOfOrder }),
        },
        LinkEvent::Stored => if state == LinkState::Storing {
            (LinkState::AwaitingHeader, LinkAction::ReadHeader)
        } else {
            (LinkState::Disconnected, LinkAction::Retry { error: IngestError::OutOfOrder })
        },
    }
}


// ---------------------------------------------------------------------
// Laws
// ---------------------------------------------------------------------

/// A packet is stored only from a payload that decodes, and with its whole
/// thermal image of exactly 768 pixels.
pub proof fn law_store_only_full_images(state: LinkState, event: LinkEventView)
    ensures
        transition(state, event).1 matches LinkActionView::Store { reading } ==> (
        event matches LinkEventView::PayloadReceived { bytes } && decode_sensor_spec(bytes) == Some(
            reading,
        ) && reading.thermal.len() == PIXEL_COUNT),
{
}

/// The loop is left without a connection exactly when it is to retry or
/// to connect again.
pub proof fn law_retry_iff_disconnected(state: LinkState, event: LinkEventView)
    ensures
        (transition(state, event).1 is Retry || transition(state, event).1 is Connect) <==> transition(
            state,
            event,
        ).0 == LinkState::Disconnected,
{
}

/// After a failure and the wait, the loop connects again.
pub proof fn law_failure_then_rest_reconnects(state: LinkState)
    ensures
        transition(transition(state, LinkEventView::Failed).0, LinkEventView::Rested) == (
            LinkState::Disconnected,
            LinkActionView::Connect,
        ),
{
}

/// Whatever the loop is doing, a failure makes it drop the connection and
/// retry.
pub proof fn law_failure_retries(state: LinkState)
    ensures
        transition(state, LinkEventView::Failed) == retry(IngestError::Link),
{
}

/// After a packet is stored, the loop reads the next header on the same
/// connection.
pub proof fn law_stored_reads_next_header()
    ensures
        transition(LinkState::Storing, LinkEventView::Stored) == (
            LinkState::AwaitingHeader,
            LinkActionView::ReadHeader,
        ),
{
}

/// The loop reads exactly the payload length that the header announced,
/// which is between 1 and 1 000 000 bytes.
pub proof fn law_payload_length_in_range(header: Seq<u8>)
    requires
        header.len() == 4,
    ensures
        transition(LinkState::AwaitingHeader, LinkEventView::HeaderReceived { header }).1 matches LinkActionView::ReadPayload { len }
            ==> 1 <= len <= MAX_PACKET_LEN && len == header_value(header),
{
}

} // verus!
