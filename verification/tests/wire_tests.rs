use prost::bytes::{Buf, BufMut};
use prost::encoding::{self, DecodeContext, WireType};
use prost::{DecodeError, Message};
use sensor_station::wire::{decode_sensor_data, SensorData};

// The message of the sensor station, written out as prost's derive
// writes it, to hold the verified decoder against prost itself.

#[derive(Debug, Default, Clone, PartialEq)]
struct PbSensorData {
    timestamp: f32,
    co2: i32,
    bme_temperature: f32,
    bme_pressure: f32,
    bme_altitude: f32,
    bme_humidity: f32,
    thermal: Vec<f32>,
}

impl Message for PbSensorData {
    fn encode_raw(&self, buf: &mut impl BufMut) {
        if self.timestamp != 0.0 {
            encoding::float::encode(1, &self.timestamp, buf);
        }
        if self.co2 != 0 {
            encoding::int32::encode(2, &self.co2, buf);
        }
        if self.bme_temperature != 0.0 {
            encoding::float::encode(3, &self.bme_temperature, buf);
        }
        if self.bme_pressure != 0.0 {
            encoding::float::encode(4, &self.bme_pressure, buf);
        }
        if self.bme_altitude != 0.0 {
            encoding::float::encode(5, &self.bme_altitude, buf);
        }
        if self.bme_humidity != 0.0 {
            encoding::float::encode(6, &self.bme_humidity, buf);
        }
        encoding::float::encode_packed(7, &self.thermal, buf);
    }

    fn merge_field(
        &mut self,
        tag: u32,
        wire_type: WireType,
        buf: &mut impl Buf,
        ctx: DecodeContext,
    ) -> Result<(), DecodeError> {
        match tag {
            1 => encoding::float::merge(wire_type, &mut self.timestamp, buf, ctx),
            2 => encoding::int32::merge(wire_type, &mut self.co2, buf, ctx),
            3 => encoding::float::merge(wire_type, &mut self.bme_temperature, buf, ctx),
            4 => encoding::float::merge(wire_type, &mut self.bme_pressure, buf, ctx),
            5 => encoding::float::merge(wire_type, &mut self.bme_altitude, buf, ctx),
            6 => encoding::float::merge(wire_type, &mut self.bme_humidity, buf, ctx),
            7 => encoding::float::merge_repeated(wire_type, &mut self.thermal, buf, ctx),
            _ => encoding::skip_field(wire_type, tag, buf, ctx),
        }
    }

    fn encoded_len(&self) -> usize {
        let mut n = 0;
        if self.timestamp != 0.0 {
            n += encoding::float::encoded_len(1, &self.timestamp);
        }
        if self.co2 != 0 {
            n += encoding::int32::encoded_len(2, &self.co2);
        }
        for (tag, v) in [
            (3, self.bme_temperature),
            (4, self.bme_pressure),
            (5, self.bme_altitude),
            (6, self.bme_humidity),
        ] {
            if v != 0.0 {
                n += encoding::float::encoded_len(tag, &v);
            }
        }
        n + encoding::float::encoded_len_packed(7, &self.thermal)
    }

    fn clear(&mut self) {
        *self = PbSensorData::default();
    }
}

fn same(mine: &Option<SensorData>, theirs: &Result<PbSensorData, DecodeError>) -> bool {
    match (mine, theirs) {
        (None, Err(_)) => true,
        (Some(r), Ok(d)) => {
            r.timestamp_bits == d.timestamp.to_bits()
                && r.co2 == d.co2
                && r.bme_temperature_bits == d.bme_temperature.to_bits()
                && r.bme_pressure_bits == d.bme_pressure.to_bits()
                && r.bme_altitude_bits == d.bme_altitude.to_bits()
                && r.bme_humidity_bits == d.bme_humidity.to_bits()
                && r.thermal_bits.len() == d.thermal.len()
                && r.thermal_bits.iter().zip(d.thermal.iter()).all(|(x, y)| *x == y.to_bits())
        }
        _ => false,
    }
}

fn check(bytes: &[u8]) {
    let mine = decode_sensor_data(bytes);
    let theirs = PbSensorData::decode(bytes);
    assert!(
        same(&mine, &theirs),
        "decoders disagree on {:?}: mine {} / prost {:?}",
        bytes,
        mine.is_some(),
        theirs.as_ref().map(|_| ())
    );
}

fn sample() -> PbSensorData {
    PbSensorData {
        timestamp: 1234.5,
        co2: 415,
        bme_temperature: 21.25,
        bme_pressure: 1013.2,
        bme_altitude: 57.0,
        bme_humidity: 44.4,
        thermal: (0..768).map(|i| 20.0 + i as f32 / 100.0).collect(),
    }
}

#[test]
fn decodes_a_station_packet() {
    let data = sample();
    let bytes = data.encode_to_vec();
    let r = decode_sensor_data(&bytes).expect("valid packet");
    assert_eq!(f32::from_bits(r.timestamp_bits), 1234.5);
    assert_eq!(r.co2, 415);
    assert_eq!(f32::from_bits(r.bme_temperature_bits), 21.25);
    assert_eq!(f32::from_bits(r.bme_pressure_bits), 1013.2);
    assert_eq!(f32::from_bits(r.bme_altitude_bits), 57.0);
    assert_eq!(f32::from_bits(r.bme_humidity_bits), 44.4);
    assert_eq!(r.thermal_bits.len(), 768);
    assert_eq!(f32::from_bits(r.thermal_bits[34]), 20.34);
    check(&bytes);
}

#[test]
fn decodes_the_empty_payload_as_defaults() {
    let r = decode_sensor_data(&[]).unwrap();
    assert_eq!((r.timestamp_bits, r.co2, r.thermal_bits.len()), (0, 0, 0));
}

#[test]
fn negative_co2_takes_ten_bytes() {
    let data = PbSensorData { co2: -7, ..Default::default() };
    let bytes = data.encode_to_vec();
    assert_eq!(bytes.len(), 11);
    assert_eq!(decode_sensor_data(&bytes).unwrap().co2, -7);
    check(&bytes);
}

#[test]
fn later_scalar_wins_and_pixels_accumulate() {
    let mut buf = Vec::new();
    encoding::float::encode(1, &1.0f32, &mut buf);
    encoding::float::encode_packed(7, &[1.0f32], &mut buf);
    encoding::float::encode(1, &2.0f32, &mut buf);
    encoding::float::encode_packed(7, &[4.0f32, 5.0], &mut buf);
    let r = decode_sensor_data(&buf).unwrap();
    assert_eq!(f32::from_bits(r.timestamp_bits), 2.0);
    let px: Vec<f32> = r.thermal_bits.iter().map(|b| f32::from_bits(*b)).collect();
    assert_eq!(px, vec![1.0, 4.0, 5.0]);
    check(&buf);
}

#[test]
fn unpacked_and_packed_pixels_both_count() {
    let mut buf = Vec::new();
    encoding::float::encode_repeated(7, &[1.5f32, 2.5], &mut buf);
    encoding::float::encode_packed(7, &[3.5f32], &mut buf);
    let r = decode_sensor_data(&buf).unwrap();
    let px: Vec<f32> = r.thermal_bits.iter().map(|b| f32::from_bits(*b)).collect();
    assert_eq!(px, vec![1.5, 2.5, 3.5]);
    check(&buf);
}

#[test]
fn readme_frame_of_zero_pixels_decodes() {
    let mut buf = Vec::new();
    encoding::float::encode_packed(7, &vec![0.0f32; 768], &mut buf);
    assert_eq!(buf.len(), 3 + 4 * 768);
    let r = decode_sensor_data(&buf).unwrap();
    assert_eq!(r.thermal_bits, vec![0u32; 768]);
    assert_eq!((r.timestamp_bits, r.co2), (0, 0));
    check(&buf);
}

#[test]
fn unknown_fields_are_skipped() {
    let mut buf = Vec::new();
    encoding::uint64::encode(9, &u64::MAX, &mut buf);
    encoding::double::encode(10, &1.0, &mut buf);
    encoding::bytes::encode(11, &vec![1u8, 2, 3], &mut buf);
    encoding::fixed32::encode(12, &7, &mut buf);
    encoding::encode_key(13, WireType::StartGroup, &mut buf);
    encoding::uint32::encode(1, &5, &mut buf);
    encoding::encode_key(13, WireType::EndGroup, &mut buf);
    encoding::int32::encode(2, &33, &mut buf);
    let r = decode_sensor_data(&buf).unwrap();
    assert_eq!(r.co2, 33);
    check(&buf);
}

#[test]
fn malformed_payloads_are_refused() {
    let cases: Vec<Vec<u8>> = vec![
        vec![0x08],                         // key without value
        vec![0x0d, 1, 2],                   // float cut short
        vec![0x08, 0x01],                   // field 1 as a varint
        vec![0x15, 0, 0, 0, 0],             // field 2 as a 32-bit word
        vec![0x00],                         // field number 0
        vec![0x0e],                         // wire type 6
        vec![0x3a, 5, 0x0d],                // pixels longer than the payload
        vec![0x3a, 3, 0x0a, 1, 0],          // packed pixels not a multiple of four
        vec![0x3a, 1, 0x08],                // one byte of pixels
        vec![0x38, 0x01],                   // pixels as a varint
        vec![0x3d, 1, 2],                   // single pixel cut short
        vec![0x4c],                         // end group at top level
        vec![0x4b, 0x54],                   // group closed with another number
        vec![0xff; 11],                     // varint too long
        vec![0x10, 0xff, 0xff, 0xff, 0xff, 0xff, 0xff, 0xff, 0xff, 0xff, 0x02], // varint over 64 bits
        vec![0x80, 0x80, 0x80, 0x80, 0x10], // key over 32 bits
    ];
    for c in cases {
        assert!(decode_sensor_data(&c).is_none(), "accepted {:?}", c);
        check(&c);
    }
}

fn nested_groups(tag: u32, depth: usize) -> Vec<u8> {
    let mut buf = Vec::new();
    for _ in 0..depth {
        encoding::encode_key(tag, WireType::StartGroup, &mut buf);
    }
    for _ in 0..depth {
        encoding::encode_key(tag, WireType::EndGroup, &mut buf);
    }
    buf
}

#[test]
fn group_nesting_limit_matches_prost() {
    for depth in [1usize, 50, 98, 99, 100, 101, 102] {
        check(&nested_groups(20, depth));
    }
    assert!(decode_sensor_data(&nested_groups(20, 100)).is_some());
    assert!(decode_sensor_data(&nested_groups(20, 101)).is_none());
}

#[test]
fn random_payloads_agree_with_prost() {
    let mut state: u64 = 0x1234_5678_9abc_def0;
    let mut next = || {
        state = state.wrapping_mul(6364136223846793005).wrapping_add(1442695040888963407);
        (state >> 33) as u32
    };
    let alphabet = [
        0x08u8, 0x0d, 0x10, 0x15, 0x1d, 0x3a, 0x3d, 0x38, 0x0a, 0x4b, 0x4c, 0x80, 0xff, 0x00, 0x01, 0x04,
        0x02, 0x7f,
    ];
    for _ in 0..20000 {
        let len = (next() % 24) as usize;
        let bytes: Vec<u8> = (0..len)
            .map(|_| {
                let x = next();
                if x % 2 == 0 { alphabet[(x / 2 % 18) as usize] } else { (x >> 8) as u8 }
            })
            .collect();
        check(&bytes);
    }
}

#[test]
fn encoded_readings_decode_to_themselves() {
    let mut state: u64 = 7;
    let mut next = || {
        state = state.wrapping_mul(6364136223846793005).wrapping_add(1442695040888963407);
        (state >> 32) as u32
    };
    for _ in 0..500 {
        let pixels: Vec<f32> = (0..(next() % 12)).map(|_| f32::from_bits(next())).collect();
        let data = PbSensorData {
            timestamp: f32::from_bits(next()),
            co2: next() as i32,
            bme_temperature: f32::from_bits(next()),
            bme_pressure: f32::from_bits(next()),
            bme_altitude: f32::from_bits(next()),
            bme_humidity: f32::from_bits(next()),
            thermal: pixels,
        };
        let bytes = data.encode_to_vec();
        let r = decode_sensor_data(&bytes).unwrap();
        assert_eq!(r.co2, data.co2);
        assert_eq!(r.timestamp_bits, data.timestamp.to_bits());
        assert_eq!(r.thermal_bits, data.thermal.iter().map(|x| x.to_bits()).collect::<Vec<u32>>());
        check(&bytes);
    }
}

#[test]
fn payloads_one_after_another_merge() {
    let a = PbSensorData {
        timestamp: 1.0,
        co2: 10,
        thermal: vec![1.0],
        ..Default::default()
    }
    .encode_to_vec();
    let b = PbSensorData {
        timestamp: 2.0,
        bme_humidity: 50.0,
        thermal: vec![2.0, 3.0],
        ..Default::default()
    }
    .encode_to_vec();
    let mut ab = a.clone();
    ab.extend_from_slice(&b);
    let r = decode_sensor_data(&ab).unwrap();
    assert_eq!(f32::from_bits(r.timestamp_bits), 2.0);
    assert_eq!(r.co2, 10);
    assert_eq!(f32::from_bits(r.bme_humidity_bits), 50.0);
    let px: Vec<f32> = r.thermal_bits.iter().map(|b| f32::from_bits(*b)).collect();
    assert_eq!(px, vec![1.0, 2.0, 3.0]);
    check(&ab);
}
