//! How a sensor station encodes a packet payload, and the law that the
//! decoder reads every such encoding back as the reading it encodes.
use crate::wire::{
    decode_sensor_spec, empty_reading, fixed32_at, fixed32_run, key_at, sensor_field_at,
    sensor_fields_at, varint_at, varint_end, varint_value, SensorDataView,
};
use vstd::prelude::*;

verus! {

/// The base-128 varint of `v`: seven bits per byte, low bits first, the
/// high-order bit of every byte but the last set.
pub open spec fn enc_varint(v: nat) -> Seq<u8>
    decreases v,
{
    if v < 128 {
        seq![v as u8]
    } else {
        seq![(v % 128 + 128) as u8] + enc_varint(v / 128)
    }
}

/// The key of field `tag` with wire type `wt`.
pub open spec fn enc_key(tag: nat, wt: nat) -> Seq<u8> {
    enc_varint(tag * 8 + wt)
}

/// The four little-endian bytes of `w`.
pub open spec fn enc_fixed32(w: u32) -> Seq<u8> {
    seq![(w % 256) as u8, ((w / 256) % 256) as u8, ((w / 65536) % 256) as u8, (w / 16777216) as u8]
}

/// The little-endian bytes of each word, one word after another.
pub open spec fn enc_fixed32_run(ws: Seq<u32>) -> Seq<u8>
    decreases ws.len(),
{
    if ws.len() == 0 {
        Seq::empty()
    } else {
        enc_fixed32_run(ws.drop_last()) + enc_fixed32(ws.last())
    }
}

/// A 32-bit float field: its key and its four bytes.
pub open spec fn enc_float_field(tag: nat, w: u32) -> Seq<u8> {
    enc_key(tag, 5) + enc_fixed32(w)
}

/// The 64-bit two's-complement value of `v`, as protobuf writes an `int32`.
pub open spec fn int32_wire_value(v: i32) -> nat {
    if v >= 0 {
        v as nat
    } else {
        (v + 0x1_0000_0000_0000_0000) as nat
    }
}

/// The `co2` field: key and varint.
pub open spec fn enc_co2_field(v: i32) -> Seq<u8> {
    enc_key(2, 0) + enc_varint(int32_wire_value(v))
}

/// The thermal field (7) as a station writes it: the pixels as one packed
/// run, or nothing when there are none.
pub open spec fn enc_thermal(px: Seq<u32>) -> Seq<u8> {
    if px.len() == 0 {
        Seq::empty()
    } else {
        enc_key(7, 2) + enc_varint(4 * px.len()) + enc_fixed32_run(px)
    }
}

/// The thermal field written one pixel at a time, each with its own key.
pub open spec fn enc_thermal_unpacked(px: Seq<u32>) -> Seq<u8>
    decreases px.len(),
{
    if px.len() == 0 {
        Seq::empty()
    } else {
        enc_thermal_unpacked(px.drop_last()) + enc_float_field(7, px.last())
    }
}

/// A sensor packet payload: the six scalar fields in order, then the
/// thermal image.
pub open spec fn enc_reading(r: SensorDataView) -> Seq<u8> {
    enc_float_field(1, r.timestamp_bits) + enc_co2_field(r.co2) + enc_float_field(
        3,
        r.bme_temperature_bits,
    ) + enc_float_field(4, r.bme_pressure_bits) + enc_float_field(5, r.bme_altitude_bits)
        + enc_float_field(6, r.bme_humidity_bits) + enc_thermal(r.thermal)
}

/// Powers of 128.
pub open spec fn pow128(k: nat) -> nat
    decreases k,
{
    if k == 0 {
        1
    } else {
        128 * pow128((k - 1) as nat)
    }
}

// ---------------------------------------------------------------------
// Varints
// ---------------------------------------------------------------------

proof fn lemma_enc_varint_shape(v: nat)
    ensures
        enc_varint(v).len() >= 1,
        v < 128 ==> enc_varint(v).len() == 1,
    decreases v,
{
    if v >= 128 {
        lemma_enc_varint_shape(v / 128);
    }
}

/// The bytes of the varint of `v` at `s[pos + i ..]` read back as `v`,
/// when `v` is small enough to end within the ten bytes a varint may take.
proof fn lemma_varint_read_at(s: Seq<u8>, pos: int, end: int, i: nat, v: nat)
    requires
        i <= 9,
        v < 2 * pow128((9 - i) as nat),
        0 <= pos,
        pos + i + enc_varint(v).len() <= end <= s.len(),
        s.subrange(pos + i, pos + i + enc_varint(v).len()) == enc_varint(v),
    ensures
        varint_end(s, pos, end, i) == Some((i + enc_varint(v).len()) as nat),
        varint_value(s, pos, i, (i + enc_varint(v).len()) as nat) == v,
        i + enc_varint(v).len() <= 10,
        i + enc_varint(v).len() == 10 ==> s[pos + 9] < 2,
    decreases v,
{
    let e = enc_varint(v);
    lemma_enc_varint_shape(v);
    assert(s[pos + i] == s.subrange(pos + i, pos + i + e.len())[0]);
    if v < 128 {
        assert(s[pos + i] == v);
        let n = (i + 1) as nat;
        assert(varint_value(s, pos, n, n) == 0);
        if i == 9 {
            assert(pow128(0) == 1);
        }
    } else {
        if i == 9 {
            assert(pow128(0) == 1);
            assert(false);
        }
        let w = v / 128;
        let ew = enc_varint(w);
        assert(e == seq![(v % 128 + 128) as u8] + ew);
        assert(pow128((9 - i) as nat) == 128 * pow128((9 - (i + 1)) as nat));
        assert(w < 2 * pow128((9 - (i + 1)) as nat));
        assert(s.subrange(pos + i + 1, pos + i + 1 + ew.len()) =~= ew) by {
            assert forall|k: int| 0 <= k < ew.len() implies s.subrange(
                pos + i + 1,
                pos + i + 1 + ew.len(),
            )[k] == ew[k] by {
                assert(s.subrange(pos + i, pos + i + e.len())[k + 1] == e[k + 1]);
            }
        }
        lemma_varint_read_at(s, pos, end, i + 1, w);
        assert(s[pos + i] % 128 == v % 128);
    }
}

proof fn lemma_pow128_nine()
    ensures
        2 * pow128(9) == 0x1_0000_0000_0000_0000,
{
    reveal_with_fuel(pow128, 10);
}

/// The varint of any 64-bit value at `s[pos..]` reads back as that value.
pub proof fn lemma_varint_round_trip(s: Seq<u8>, pos: int, end: int, v: nat)
    requires
        v < 0x1_0000_0000_0000_0000,
        0 <= pos,
        pos + enc_varint(v).len() <= end <= s.len(),
        s.subrange(pos, pos + enc_varint(v).len()) == enc_varint(v),
    ensures
        varint_at(s, pos, end) == Some((v as int, enc_varint(v).len())),
{
    lemma_pow128_nine();
    lemma_varint_read_at(s, pos, end, 0, v);
}


/// A piece of a range that holds `a + b` holds `a`, then `b`.
proof fn lemma_split(s: Seq<u8>, p: int, a: Seq<u8>, b: Seq<u8>)
    requires
        0 <= p,
        p + a.len() + b.len() <= s.len(),
        s.subrange(p, p + a.len() + b.len()) == a + b,
    ensures
        s.subrange(p, p + a.len()) == a,
        s.subrange(p + a.len(), p + a.len() + b.len()) == b,
{
    assert forall|k: int| 0 <= k < a.len() implies s.subrange(p, p + a.len())[k] == a[k] by {
        assert(s.subrange(p, p + a.len() + b.len())[k] == (a + b)[k]);
    }
    assert forall|k: int| 0 <= k < b.len() implies s.subrange(
        p + a.len(),
        p + a.len() + b.len(),
    )[k] == b[k] by {
        assert(s.subrange(p, p + a.len() + b.len())[a.len() + k] == (a + b)[a.len() + k]);
        assert(s.subrange(p, p + a.len() + b.len())[a.len() + k] == s[p + a.len() + k]);
    }
    assert(s.subrange(p, p + a.len()) =~= a);
    assert(s.subrange(p + a.len(), p + a.len() + b.len()) =~= b);
}

/// The key of a field reads back as its number and wire type.
proof fn lemma_key_round_trip(s: Seq<u8>, pos: int, end: int, tag: nat, wt: nat)
    requires
        1 <= tag,
        wt <= 5,
        tag * 8 + wt <= u32::MAX,
        0 <= pos,
        pos + enc_key(tag, wt).len() <= end <= s.len(),
        s.subrange(pos, pos + enc_key(tag, wt).len()) == enc_key(tag, wt),
    ensures
        key_at(s, pos, end) == Some((tag as u32, wt as u8, enc_key(tag, wt).len())),
{
    lemma_varint_round_trip(s, pos, end, tag * 8 + wt);
    let k = tag * 8 + wt;
    assert(k / 8 == tag && k % 8 == wt);
}

/// Four little-endian bytes read back as their word.
proof fn lemma_fixed32_round_trip(s: Seq<u8>, pos: int, w: u32)
    requires
        0 <= pos,
        pos + 4 <= s.len(),
        s.subrange(pos, pos + 4) == enc_fixed32(w),
    ensures
        fixed32_at(s, pos) == w,
{
    assert(s[pos] == s.subrange(pos, pos + 4)[0]);
    assert(s[pos + 1] == s.subrange(pos, pos + 4)[1]);
    assert(s[pos + 2] == s.subrange(pos, pos + 4)[2]);
    assert(s[pos + 3] == s.subrange(pos, pos + 4)[3]);
    assert(s[pos] + 256 * s[pos + 1] + 65536 * s[pos + 2] + 16777216 * s[pos + 3] == w as int);
}

proof fn lemma_fixed32_run_len(ws: Seq<u32>)
    ensures
        enc_fixed32_run(ws).len() == 4 * ws.len(),
    decreases ws.len(),
{
    if ws.len() > 0 {
        lemma_fixed32_run_len(ws.drop_last());
    }
}

/// Packed words read back as the words.
proof fn lemma_fixed32_run_round_trip(s: Seq<u8>, pos: int, ws: Seq<u32>)
    requires
        0 <= pos,
        pos + 4 * ws.len() <= s.len(),
        s.subrange(pos, pos + 4 * ws.len()) == enc_fixed32_run(ws),
    ensures
        fixed32_run(s, pos, ws.len()) == ws,
    decreases ws.len(),
{
    lemma_fixed32_run_len(ws);
    if ws.len() > 0 {
        let n = ws.len() - 1;
        lemma_fixed32_run_len(ws.drop_last());
        lemma_split(s, pos, enc_fixed32_run(ws.drop_last()), enc_fixed32(ws.last()));
        lemma_fixed32_run_round_trip(s, pos, ws.drop_last());
        lemma_fixed32_round_trip(s, pos + 4 * n, ws.last());
        assert(fixed32_run(s, pos, ws.len()) =~= ws) by {
            assert forall|i: int| 0 <= i < ws.len() implies fixed32_run(s, pos, ws.len())[i]
                == ws[i] by {
                if i < n {
                    assert(fixed32_run(s, pos, ws.drop_last().len())[i] == ws.drop_last()[i]);
                }
            }
        }
    } else {
        assert(fixed32_run(s, pos, 0) =~= ws);
    }
}

// ---------------------------------------------------------------------
// Fields of SensorData
// ---------------------------------------------------------------------

/// The reading with float field `tag` set to `w`.
pub open spec fn with_float(tag: nat, w: u32, acc: SensorDataView) -> SensorDataView {
    if tag == 1 {
        SensorDataView { timestamp_bits: w, ..acc }
    } else if tag == 3 {
        SensorDataView { bme_temperature_bits: w, ..acc }
    } else if tag == 4 {
        SensorDataView { bme_pressure_bits: w, ..acc }
    } else if tag == 5 {
        SensorDataView { bme_altitude_bits: w, ..acc }
    } else {
        SensorDataView { bme_humidity_bits: w, ..acc }
    }
}

proof fn lemma_float_step(s: Seq<u8>, pos: int, end: int, tag: nat, w: u32, acc: SensorDataView)
    requires
        tag == 1 || tag == 3 || tag == 4 || tag == 5 || tag == 6,
        0 <= pos,
        pos + enc_float_field(tag, w).len() <= end <= s.len(),
        s.subrange(pos, pos + enc_float_field(tag, w).len()) == enc_float_field(tag, w),
    ensures
        sensor_fields_at(s, pos, end, acc) == sensor_fields_at(
            s,
            pos + enc_float_field(tag, w).len(),
            end,
            with_float(tag, w, acc),
        ),
{
    let k = enc_key(tag, 5);
    lemma_split(s, pos, k, enc_fixed32(w));
    lemma_key_round_trip(s, pos, end, tag, 5);
    lemma_fixed32_round_trip(s, pos + k.len(), w);
    lemma_enc_varint_shape(tag * 8 + 5);
    assert(sensor_field_at(tag as u32, 5, s, pos + k.len(), end, acc) == Some(
        (with_float(tag, w, acc), 4nat),
    ));
}

proof fn lemma_int32_wire_value(c: i32)
    ensures
        int32_wire_value(c) < 0x1_0000_0000_0000_0000,
        (int32_wire_value(c) as int) as i32 == c,
{
    if c < 0 {
        let x: u64 = #[verifier::truncate] ((c as i64) as u64);
        assert(x as i32 == c) by (bit_vector)
            requires
                x == #[verifier::truncate] ((c as i64) as u64),
        ;
        assert(x as int == c + 0x1_0000_0000_0000_0000) by (bit_vector)
            requires
                x == #[verifier::truncate] ((c as i64) as u64),
                c < 0,
        ;
    }
}

proof fn lemma_co2_step(s: Seq<u8>, pos: int, end: int, c: i32, acc: SensorDataView)
    requires
        0 <= pos,
        pos + enc_co2_field(c).len() <= end <= s.len(),
        s.subrange(pos, pos + enc_co2_field(c).len()) == enc_co2_field(c),
    ensures
        sensor_fields_at(s, pos, end, acc) == sensor_fields_at(
            s,
            pos + enc_co2_field(c).len(),
            end,
            SensorDataView { co2: c, ..acc },
        ),
{
    let k = enc_key(2, 0);
    let v = enc_varint(int32_wire_value(c));
    lemma_split(s, pos, k, v);
    lemma_key_round_trip(s, pos, end, 2, 0);
    lemma_int32_wire_value(c);
    lemma_varint_round_trip(s, pos + k.len(), end, int32_wire_value(c));
    lemma_enc_varint_shape(16);
    assert(sensor_field_at(2, 0, s, pos + k.len(), end, acc) == Some(
        (SensorDataView { co2: c, ..acc }, v.len()),
    ));
}

/// The reading with `px` added to its thermal image.
pub open spec fn with_pixels(px: Seq<u32>, acc: SensorDataView) -> SensorDataView {
    SensorDataView { thermal: acc.thermal + px, ..acc }
}

proof fn lemma_thermal_step(s: Seq<u8>, pos: int, end: int, px: Seq<u32>, acc: SensorDataView)
    requires
        0 <= pos,
        pos + enc_thermal(px).len() <= end <= s.len(),
        s.len() < 0x1_0000_0000_0000_0000,
        s.subrange(pos, pos + enc_thermal(px).len()) == enc_thermal(px),
    ensures
        sensor_fields_at(s, pos, end, acc) == sensor_fields_at(
            s,
            pos + enc_thermal(px).len(),
            end,
            with_pixels(px, acc),
        ),
{
    if px.len() == 0 {
        assert(acc.thermal + px =~= acc.thermal);
        assert(with_pixels(px, acc) == acc);
    } else {
        let k = enc_key(7, 2);
        let l = enc_varint(4 * px.len());
        let body = enc_fixed32_run(px);
        lemma_fixed32_run_len(px);
        assert(enc_thermal(px) == k + l + body);
        lemma_split(s, pos, k + l, body);
        lemma_split(s, pos, k, l);
        lemma_key_round_trip(s, pos, end, 7, 2);
        lemma_varint_round_trip(s, pos + k.len(), end, 4 * px.len());
        lemma_fixed32_run_round_trip(s, pos + k.len() + l.len(), px);
        lemma_enc_varint_shape(58);
        let len: int = (4 * px.len()) as int;
        assert(len % 4 == 0 && len / 4 == px.len());
        assert(sensor_field_at(7, 2, s, pos + k.len(), end, acc) == Some(
            (with_pixels(px, acc), (l.len() + body.len()) as nat),
        ));
    }
}

proof fn lemma_thermal_unpacked_steps(
    s: Seq<u8>,
    pos: int,
    end: int,
    px: Seq<u32>,
    acc: SensorDataView,
)
    requires
        0 <= pos,
        pos + enc_thermal_unpacked(px).len() <= end <= s.len(),
        s.subrange(pos, pos + enc_thermal_unpacked(px).len()) == enc_thermal_unpacked(px),
    ensures
        sensor_fields_at(s, pos, end, acc) == sensor_fields_at(
            s,
            pos + enc_thermal_unpacked(px).len(),
            end,
            with_pixels(px, acc),
        ),
    decreases px.len(),
{
    if px.len() == 0 {
        assert(acc.thermal + px =~= acc.thermal);
        assert(with_pixels(px, acc) == acc);
    } else {
        let front = enc_thermal_unpacked(px.drop_last());
        let f = enc_float_field(7, px.last());
        lemma_split(s, pos, front, f);
        lemma_thermal_unpacked_steps(s, pos, end, px.drop_last(), acc);
        let mid = with_pixels(px.drop_last(), acc);
        let p = pos + front.len();
        let k = enc_key(7, 5);
        lemma_split(s, p, k, enc_fixed32(px.last()));
        lemma_key_round_trip(s, p, end, 7, 5);
        lemma_fixed32_round_trip(s, p + k.len(), px.last());
        lemma_enc_varint_shape(61);
        assert(mid.thermal.push(px.last()) =~= acc.thermal + px);
        assert(sensor_field_at(7, 5, s, p + k.len(), end, mid) == Some(
            (with_pixels(px, acc), 4nat),
        ));
    }
}

/// Every sensor packet payload, encoded as a station encodes it, decodes
/// to the reading it encodes.
pub proof fn law_decode_encoded_reading(r: SensorDataView)
    requires
        enc_reading(r).len() <= usize::MAX,
    ensures
        decode_sensor_spec(enc_reading(r)) == Some(r),
{
    let s = enc_reading(r);
    let f1 = enc_float_field(1, r.timestamp_bits);
    let f2 = enc_co2_field(r.co2);
    let f3 = enc_float_field(3, r.bme_temperature_bits);
    let f4 = enc_float_field(4, r.bme_pressure_bits);
    let f5 = enc_float_field(5, r.bme_altitude_bits);
    let f6 = enc_float_field(6, r.bme_humidity_bits);
    let rs = enc_thermal(r.thermal);
    let end = s.len() as int;
    assert(s.subrange(0, end) =~= s);
    lemma_split(s, 0, f1 + f2 + f3 + f4 + f5 + f6, rs);
    lemma_split(s, 0, f1 + f2 + f3 + f4 + f5, f6);
    lemma_split(s, 0, f1 + f2 + f3 + f4, f5);
    lemma_split(s, 0, f1 + f2 + f3, f4);
    lemma_split(s, 0, f1 + f2, f3);
    lemma_split(s, 0, f1, f2);
    let a0 = empty_reading();
    lemma_float_step(s, 0, end, 1, r.timestamp_bits, a0);
    let a1 = with_float(1, r.timestamp_bits, a0);
    lemma_co2_step(s, f1.len() as int, end, r.co2, a1);
    let a2 = SensorDataView { co2: r.co2, ..a1 };
    let p2: int = (f1.len() + f2.len()) as int;
    lemma_float_step(s, p2, end, 3, r.bme_temperature_bits, a2);
    let a3 = with_float(3, r.bme_temperature_bits, a2);
    let p3: int = p2 + f3.len() as int;
    lemma_float_step(s, p3, end, 4, r.bme_pressure_bits, a3);
    let a4 = with_float(4, r.bme_pressure_bits, a3);
    let p4: int = p3 + f4.len() as int;
    lemma_float_step(s, p4, end, 5, r.bme_altitude_bits, a4);
    let a5 = with_float(5, r.bme_altitude_bits, a4);
    let p5: int = p4 + f5.len() as int;
    lemma_float_step(s, p5, end, 6, r.bme_humidity_bits, a5);
    let a6 = with_float(6, r.bme_humidity_bits, a5);
    let p6: int = p5 + f6.len() as int;
    lemma_thermal_step(s, p6, end, r.thermal, a6);
    let a7 = with_pixels(r.thermal, a6);
    assert(a6.thermal + r.thermal =~= r.thermal);
    assert(a7 == r);
    assert(sensor_fields_at(s, end, end, r) == Some(r));
}

/// A payload that holds nothing but the thermal field, packed as a station
/// writes it, decodes to a reading with every scalar at its default and
/// exactly those pixels, in order.
pub proof fn law_thermal_field_round_trip(px: Seq<u32>)
    requires
        enc_thermal(px).len() <= usize::MAX,
    ensures
        decode_sensor_spec(enc_thermal(px)) == Some(SensorDataView { thermal: px, ..empty_reading() }),
{
    let s = enc_thermal(px);
    let end = s.len() as int;
    assert(s.subrange(0, end) =~= s);
    lemma_thermal_step(s, 0, end, px, empty_reading());
    assert(Seq::<u32>::empty() + px =~= px);
    assert(sensor_fields_at(s, end, end, with_pixels(px, empty_reading())) == Some(
        with_pixels(px, empty_reading()),
    ));
}

/// The thermal field written one pixel at a time, each pixel under its own
/// key, decodes to the same pixels as the packed form.
pub proof fn law_thermal_unpacked_round_trip(px: Seq<u32>)
    ensures
        decode_sensor_spec(enc_thermal_unpacked(px)) == Some(
            SensorDataView { thermal: px, ..empty_reading() },
        ),
{
    let s = enc_thermal_unpacked(px);
    let end = s.len() as int;
    assert(s.subrange(0, end) =~= s);
    lemma_thermal_unpacked_steps(s, 0, end, px, empty_reading());
    assert(Seq::<u32>::empty() + px =~= px);
    assert(sensor_fields_at(s, end, end, with_pixels(px, empty_reading())) == Some(
        with_pixels(px, empty_reading()),
    ));
}

} // verus!
