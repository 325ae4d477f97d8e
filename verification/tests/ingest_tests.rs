use prost::encoding;
use sensor_station::ingest::{packet_length, start, step, IngestError, LinkAction, LinkEvent, LinkState};

fn packet(pixels: usize) -> Vec<u8> {
    let mut buf = Vec::new();
    encoding::float::encode(1, &12.5f32, &mut buf);
    encoding::int32::encode(2, &400, &mut buf);
    let px: Vec<f32> = (0..pixels).map(|i| i as f32).collect();
    encoding::float::encode_packed(7, &px, &mut buf);
    buf
}

#[test]
fn header_is_a_big_endian_length() {
    assert_eq!(packet_length([0, 0, 1, 2]), Ok(258));
    assert_eq!(packet_length([0, 0x0f, 0x42, 0x40]), Ok(1_000_000));
    assert_eq!(packet_length([0, 0, 0, 0]), Err(IngestError::InvalidLength(0)));
    assert_eq!(packet_length([0, 0x0f, 0x42, 0x41]), Err(IngestError::InvalidLength(1_000_001)));
    assert_eq!(
        packet_length([0xff, 0xff, 0xff, 0xff]),
        Err(IngestError::InvalidLength(u32::MAX))
    );
}

#[test]
fn a_good_packet_is_stored() {
    let (s, a) = start();
    assert_eq!(s, LinkState::Disconnected);
    assert!(matches!(a, LinkAction::Connect));
    let (s, a) = step(s, LinkEvent::Connected);
    assert_eq!(s, LinkState::AwaitingHeader);
    assert!(matches!(a, LinkAction::ReadHeader));
    let payload = packet(768);
    let len = payload.len();
    let header = (len as u32).to_be_bytes();
    let (s, a) = step(s, LinkEvent::HeaderReceived { header });
    assert_eq!(s, LinkState::AwaitingPayload { len });
    assert!(matches!(a, LinkAction::ReadPayload { len: l } if l == len));
    let (s, a) = step(s, LinkEvent::PayloadReceived { bytes: payload });
    assert_eq!(s, LinkState::Storing);
    match a {
        LinkAction::Store { reading } => {
            assert_eq!(reading.thermal_bits.len(), 768);
            assert_eq!(f32::from_bits(reading.thermal_bits[767]), 767.0);
            assert_eq!(reading.co2, 400);
            assert_eq!(f32::from_bits(reading.timestamp_bits), 12.5);
        }
        _ => panic!("expected the packet to be stored"),
    }
    let (s, a) = step(s, LinkEvent::Stored);
    assert_eq!(s, LinkState::AwaitingHeader);
    assert!(matches!(a, LinkAction::ReadHeader));
}

#[test]
fn bad_packets_drop_the_link() {
    let retry = |s: LinkState, e: LinkEvent| match step(s, e) {
        (LinkState::Disconnected, LinkAction::Retry { error }) => error,
        _ => panic!("expected a retry"),
    };
    assert_eq!(
        retry(LinkState::AwaitingHeader, LinkEvent::HeaderReceived { header: [0, 0, 0, 0] }),
        IngestError::InvalidLength(0)
    );
    let short = packet(736);
    assert_eq!(
        retry(LinkState::AwaitingPayload { len: short.len() }, LinkEvent::PayloadReceived { bytes: short }),
        IngestError::PixelCount(736)
    );
    assert_eq!(
        retry(LinkState::AwaitingPayload { len: 2 }, LinkEvent::PayloadReceived { bytes: vec![0x0d, 1] }),
        IngestError::Malformed
    );
    assert_eq!(
        retry(LinkState::AwaitingPayload { len: 3 }, LinkEvent::PayloadReceived { bytes: vec![0x0d, 1] }),
        IngestError::OutOfOrder
    );
    assert_eq!(retry(LinkState::Storing, LinkEvent::Failed), IngestError::Link);
    assert_eq!(retry(LinkState::AwaitingHeader, LinkEvent::Failed), IngestError::Link);
    assert_eq!(retry(LinkState::AwaitingHeader, LinkEvent::Stored), IngestError::OutOfOrder);
    assert_eq!(retry(LinkState::Storing, LinkEvent::Connected), IngestError::OutOfOrder);
}

#[test]
fn readme_frame_reaches_storage() {
    let mut payload = Vec::new();
    encoding::float::encode_packed(7, &vec![0.0f32; 768], &mut payload);
    let len = payload.len();
    let (s, _) = step(LinkState::AwaitingHeader, LinkEvent::HeaderReceived { header: (len as u32).to_be_bytes() });
    assert_eq!(s, LinkState::AwaitingPayload { len });
    let (s, a) = step(s, LinkEvent::PayloadReceived { bytes: payload });
    assert_eq!(s, LinkState::Storing);
    match a {
        LinkAction::Store { reading } => assert_eq!(reading.thermal_bits, vec![0u32; 768]),
        _ => panic!("expected the packet to be stored"),
    }
}

#[test]
fn pixels_sent_one_by_one_reach_storage() {
    let mut payload = Vec::new();
    let px: Vec<f32> = (0..768).map(|i| i as f32 / 2.0).collect();
    encoding::float::encode_repeated(7, &px, &mut payload);
    let (s, a) = step(LinkState::AwaitingPayload { len: payload.len() }, LinkEvent::PayloadReceived { bytes: payload });
    assert_eq!(s, LinkState::Storing);
    match a {
        LinkAction::Store { reading } => {
            assert_eq!(reading.thermal_bits.len(), 768);
            assert_eq!(f32::from_bits(reading.thermal_bits[5]), 2.5);
        }
        _ => panic!("expected the packet to be stored"),
    }
}
