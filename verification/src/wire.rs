//! The protobuf encoding of a sensor packet payload (message `SensorData`:
//! six scalar fields, then the thermal image as a repeated float, field 7),
//! decoded as prost decodes it.
//!
//! Floats are carried as their IEEE-754 bit patterns (`u32`); the
//! conversion to `f32` happens outside the verified library.
use prost::encoding::{DecodeContext, WireType};
use vstd::prelude::*;

verus! {

/// prost's decoding error, carried opaque: only whether a call failed is used.
#[verifier::external_type_specification]
#[verifier::external_body]
pub struct ExDecodeError(prost::DecodeError);

/// Recursion budget that prost hands to the message it decodes
/// (`DecodeContext::default`): the groups of an unknown field may nest this
/// deep.
pub const TOP_LEVEL_DEPTH: u32 = 100;

// ---------------------------------------------------------------------
// Specification of the wire format
// ---------------------------------------------------------------------

/// Length of the varint that starts at `s[pos]` and must end before `end`,
/// counting from the `i`-th byte on: the first byte below 0x80 among the
/// first ten ends it.
pub open spec fn varint_end(s: Seq<u8>, pos: int, end: int, i: nat) -> Option<nat>
    decreases 10 - i,
{
    if i >= 10 || pos + i >= end {
        None
    } else if s[pos + i] < 128 {
        Some(i + 1)
    } else {
        varint_end(s, pos, end, i + 1)
    }
}

/// Little-endian base-128 value of the bytes `s[pos + i .. pos + n]`.
pub open spec fn varint_value(s: Seq<u8>, pos: int, i: nat, n: nat) -> int
    decreases n - i,
{
    if i >= n {
        0
    } else {
        (s[pos + i] % 128) as int + 128 * varint_value(s, pos, i + 1, n)
    }
}

/// The varint at `s[pos..end]`: its value and the number of bytes it takes.
/// A tenth byte may only be 0 or 1 (the value must fit in 64 bits).
pub open spec fn varint_at(s: Seq<u8>, pos: int, end: int) -> Option<(int, nat)> {
    match varint_end(s, pos, end, 0) {
        None => None,
        Some(n) => if n == 10 && s[pos + 9] >= 2 {
            None
        } else {
            Some((varint_value(s, pos, 0, n), n))
        },
    }
}

/// A field key at `s[pos..end]`: field number, wire type and length.
/// The key must fit in 32 bits, its wire type must be at most 5 and its
/// field number at least 1.
pub open spec fn key_at(s: Seq<u8>, pos: int, end: int) -> Option<(u32, u8, nat)> {
    match varint_at(s, pos, end) {
        None => None,
        Some((k, n)) => if k > u32::MAX || k % 8 > 5 || k / 8 < 1 {
            None
        } else {
            Some(((k / 8) as u32, (k % 8) as u8, n))
        },
    }
}

/// The little-endian 32-bit word at `s[pos..pos + 4]`.
pub open spec fn fixed32_at(s: Seq<u8>, pos: int) -> u32 {
    (s[pos] + 256 * s[pos + 1] + 65536 * s[pos + 2] + 16777216 * s[pos + 3]) as u32
}

/// `count` consecutive little-endian 32-bit words starting at `s[pos]`.
pub open spec fn fixed32_run(s: Seq<u8>, pos: int, count: nat) -> Seq<u32> {
    Seq::new(count, |i: int| fixed32_at(s, pos + 4 * i))
}

/// Number of bytes that skipping a field of wire type `wt` and number `tag`
/// takes at `s[pos..end]`, with `depth` levels of group nesting left.
pub open spec fn skip_at(wt: u8, tag: u32, s: Seq<u8>, pos: int, end: int, depth: nat) -> Option<
    nat,
>
    decreases depth, end - pos, 1nat,
{
    if depth == 0 {
        None
    } else if wt == 0 {
        match varint_at(s, pos, end) {
            None => None,
            Some((_, n)) => Some(n),
        }
    } else if wt == 1 {
        if pos + 8 <= end {
            Some(8)
        } else {
            None
        }
    } else if wt == 2 {
        match varint_at(s, pos, end) {
            None => None,
            Some((len, n)) => if len <= end - pos - n {
                Some((n + len) as nat)
            } else {
                None
            },
        }
    } else if wt == 3 {
        group_at(tag, s, pos, end, depth)
    } else if wt == 5 {
        if pos + 4 <= end {
            Some(4)
        } else {
            None
        }
    } else {
        None
    }
}

/// Number of bytes of the body of group `tag` at `s[pos..end]`, up to and
/// including its end-group key. (The test that a skipped field ends inside
/// the range never fails; it shows that the recursion shrinks.)
pub open spec fn group_at(tag: u32, s: Seq<u8>, pos: int, end: int, depth: nat) -> Option<nat>
    decreases depth, end - pos, 0nat,
{
    if depth == 0 {
        None
    } else {
    match key_at(s, pos, end) {
        None => None,
        Some((t, w, kn)) => {
            proof {
                lemma_key_bounds(s, pos, end);
            }
            if w == 4 {
            if t == tag {
                Some(kn)
            } else {
                None
            }
        } else {
            match skip_at(w, t, s, pos + kn, end, (depth - 1) as nat) {
                None => None,
                Some(m) => if pos + kn + m > end {
                    None
                } else {
                    match group_at(tag, s, pos + kn + m, end, depth) {
                        None => None,
                        Some(r) => Some(kn + m + r),
                    }
                },
            }
        }
        },
    }
    }
}

/// A decoded sensor packet, floats as bit patterns.
pub struct SensorDataView {
    pub timestamp_bits: u32,
    pub co2: i32,
    pub bme_temperature_bits: u32,
    pub bme_pressure_bits: u32,
    pub bme_altitude_bits: u32,
    pub bme_humidity_bits: u32,
    /// The thermal image, pixel after pixel.
    pub thermal: Seq<u32>,
}

/// The message before any field is read: every field at its default.
pub open spec fn empty_reading() -> SensorDataView {
    SensorDataView {
        timestamp_bits: 0,
        co2: 0,
        bme_temperature_bits: 0,
        bme_pressure_bits: 0,
        bme_altitude_bits: 0,
        bme_humidity_bits: 0,
        thermal: Seq::empty(),
    }
}

/// One field of `SensorData` at `s[pos..end]`: the message after it and the
/// number of bytes it takes. A scalar field read again replaces the value;
/// the thermal field (7) adds its pixels, packed (wire type 2) or one by
/// one (wire type 5).
pub open spec fn sensor_field_at(
    tag: u32,
    wt: u8,
    s: Seq<u8>,
    pos: int,
    end: int,
    acc: SensorDataView,
) -> Option<(SensorDataView, nat)> {
    if tag == 1 || tag == 3 || tag == 4 || tag == 5 || tag == 6 {
        if wt == 5 && pos + 4 <= end {
            let w = fixed32_at(s, pos);
            let next = if tag == 1 {
                SensorDataView { timestamp_bits: w, ..acc }
            } else if tag == 3 {
                SensorDataView { bme_temperature_bits: w, ..acc }
            } else if tag == 4 {
                SensorDataView { bme_pressure_bits: w, ..acc }
            } else if tag == 5 {
                SensorDataView { bme_altitude_bits: w, ..acc }
            } else {
                SensorDataView { bme_humidity_bits: w, ..acc }
            };
            Some((next, 4))
        } else {
            None
        }
    } else if tag == 2 {
        if wt == 0 {
            match varint_at(s, pos, end) {
                None => None,
                Some((v, n)) => Some((SensorDataView { co2: v as i32, ..acc }, n)),
            }
        } else {
            None
        }
    } else if tag == 7 {
        if wt == 2 {
            match varint_at(s, pos, end) {
                None => None,
                Some((len, n)) => if len > end - pos - n || len % 4 != 0 {
                    None
                } else {
                    Some(
                        (
                            SensorDataView {
                                thermal: acc.thermal + fixed32_run(s, pos + n, (len / 4) as nat),
                                ..acc
                            },
                            (n + len) as nat,
                        ),
                    )
                },
            }
        } else if wt == 5 {
            if pos + 4 <= end {
                Some((SensorDataView { thermal: acc.thermal.push(fixed32_at(s, pos)), ..acc }, 4))
            } else {
                None
            }
        } else {
            None
        }
    } else {
        match skip_at(wt, tag, s, pos, end, TOP_LEVEL_DEPTH as nat) {
            None => None,
            Some(m) => Some((acc, m)),
        }
    }
}

/// The fields of `SensorData` at `s[pos..end]`, read into `acc`. (As in
/// `group_at`, the test that a field ends inside the range never fails.)
pub open spec fn sensor_fields_at(s: Seq<u8>, pos: int, end: int, acc: SensorDataView) -> Option<
    SensorDataView,
>
    decreases end - pos,
{
    if pos >= end {
        Some(acc)
    } else {
        match key_at(s, pos, end) {
            None => None,
            Some((t, w, kn)) => match sensor_field_at(t, w, s, pos + kn, end, acc) {
                None => None,
                Some((acc2, m)) => if pos + kn + m > end {
                    None
                } else {
                    proof {
                        lemma_key_bounds(s, pos, end);
                    }
                    sensor_fields_at(s, pos + kn + m, end, acc2)
                },
            },
        }
    }
}

/// The message that the payload `s` encodes, or `None` where prost refuses it.
pub open spec fn decode_sensor_spec(s: Seq<u8>) -> Option<SensorDataView> {
    sensor_fields_at(s, 0, s.len() as int, empty_reading())
}


// ---------------------------------------------------------------------
// Calls into prost
// ---------------------------------------------------------------------

/// Calls `prost::encoding::decode_varint` on `buf[start..end]`.
/// prost reads the bytes up to and including the first one below 0x80,
/// at most ten of them, as a little-endian base-128 number, and refuses a
/// tenth byte above 1; the result is that value and the number of bytes
/// left after it.
#[verifier::external_body]
fn read_varint(buf: &[u8], start: usize, end: usize) -> (res: Result<(u64, usize), prost::DecodeError>)
    requires
        start <= end <= buf@.len(),
    ensures
        match varint_at(buf@, start as int, end as int) {
            Some((v, n)) => res matches Ok((x, rest)) && x as int == v && rest == end - start - n,
            None => res is Err,
        },
{
    let mut rest = &buf[start..end];
    match prost::encoding::decode_varint(&mut rest) {
        Ok(v) => Ok((v, rest.len())),
        Err(e) => Err(e),
    }
}

/// Calls `prost::encoding::decode_key` on `buf[start..end]`.
/// prost reads a varint, refuses it above `u32::MAX`, with a wire type
/// (its low three bits) above 5, or with field number (the rest) 0; the
/// result is the field number, the wire type as its number, and the number
/// of bytes left after the key.
#[verifier::external_body]
fn read_key(buf: &[u8], start: usize, end: usize) -> (res: Result<(u32, u8, usize), prost::DecodeError>)
    requires
        start <= end <= buf@.len(),
    ensures
        match key_at(buf@, start as int, end as int) {
            Some((t, w, n)) => res matches Ok((t2, w2, rest)) && t2 == t && w2 == w && rest == end
                - start - n,
            None => res is Err,
        },
{
    let mut rest = &buf[start..end];
    match prost::encoding::decode_key(&mut rest) {
        Ok((tag, WireType::Varint)) => Ok((tag, 0, rest.len())),
        Ok((tag, WireType::SixtyFourBit)) => Ok((tag, 1, rest.len())),
        Ok((tag, WireType::LengthDelimited)) => Ok((tag, 2, rest.len())),
        Ok((tag, WireType::StartGroup)) => Ok((tag, 3, rest.len())),
        Ok((tag, WireType::EndGroup)) => Ok((tag, 4, rest.len())),
        Ok((tag, WireType::ThirtyTwoBit)) => Ok((tag, 5, rest.len())),
        Err(e) => Err(e),
    }
}

/// Calls `prost::encoding::skip_field` on `buf[start..end]` with prost's
/// default recursion budget, for a field of wire type `wt` and number
/// `tag` whose key was just read. prost skips a varint, 8 bytes, a
/// length-delimited run, a group up to its matching end-group key (the
/// fields inside it skipped in turn, one level deeper), or 4 bytes; it
/// refuses an end-group key, anything that runs past the range, and groups
/// nested deeper than the budget. The result is the number of bytes left.
#[verifier::external_body]
fn skip_unknown(wt: u8, tag: u32, buf: &[u8], start: usize, end: usize) -> (res: Result<
    usize,
    prost::DecodeError,
>)
    requires
        start <= end <= buf@.len(),
        wt <= 5,
    ensures
        match skip_at(wt, tag, buf@, start as int, end as int, TOP_LEVEL_DEPTH as nat) {
            Some(n) => res == Ok::<usize, prost::DecodeError>((end - start - n) as usize),
            None => res is Err,
        },
{
    let wire_type = match wt {
        0 => WireType::Varint,
        1 => WireType::SixtyFourBit,
        2 => WireType::LengthDelimited,
        3 => WireType::StartGroup,
        4 => WireType::EndGroup,
        _ => WireType::ThirtyTwoBit,
    };
    let mut rest = &buf[start..end];
    match prost::encoding::skip_field(wire_type, tag, &mut rest, DecodeContext::default()) {
        Ok(()) => Ok(rest.len()),
        Err(e) => Err(e),
    }
}

// ---------------------------------------------------------------------
// Decoding
// ---------------------------------------------------------------------

/// The key at `buf[pos..end]`, with the number of bytes it takes.
fn next_key(buf: &[u8], pos: usize, end: usize) -> (res: Option<(u32, u8, usize)>)
    requires
        pos <= end <= buf@.len(),
    ensures
        match key_at(buf@, pos as int, end as int) {
            Some((t, w, n)) => res == Some((t, w, n as usize)) && pos + n <= end && n >= 1,
            None => res is None,
        },
{
    proof {
        lemma_key_bounds(buf@, pos as int, end as int);
    }
    match read_key(buf, pos, end) {
        Ok((t, w, rest)) => Some((t, w, end - pos - rest)),
        Err(_) => None,
    }
}

/// The varint at `buf[pos..end]`, with the number of bytes it takes.
fn next_varint(buf: &[u8], pos: usize, end: usize) -> (res: Option<(u64, usize)>)
    requires
        pos <= end <= buf@.len(),
    ensures
        match varint_at(buf@, pos as int, end as int) {
            Some((v, n)) => res matches Some((x, m)) && x as int == v && m == n && pos + n <= end
                && n >= 1,
            None => res is None,
        },
{
    proof {
        lemma_varint_bounds(buf@, pos as int, end as int);
    }
    match read_varint(buf, pos, end) {
        Ok((v, rest)) => Some((v, end - pos - rest)),
        Err(_) => None,
    }
}

/// The little-endian 32-bit word at `buf[pos..pos + 4]`.
fn read_fixed32(buf: &[u8], pos: usize) -> (w: u32)
    requires
        pos + 4 <= buf@.len(),
    ensures
        w == fixed32_at(buf@, pos as int),
{
    let b0 = buf[pos] as u32;
    let b1 = buf[pos + 1] as u32;
    let b2 = buf[pos + 2] as u32;
    let b3 = buf[pos + 3] as u32;
    b0 + 256 * b1 + 65536 * b2 + 16777216 * b3
}

/// Skips an unknown field of wire type `wt` and number `tag` at
/// `buf[pos..end]`; returns the number of bytes it takes.
fn skip_field(wt: u8, tag: u32, buf: &[u8], pos: usize, end: usize) -> (res: Option<usize>)
    requires
        pos <= end <= buf@.len(),
        wt <= 5,
    ensures
        match skip_at(wt, tag, buf@, pos as int, end as int, TOP_LEVEL_DEPTH as nat) {
            Some(n) => res == Some(n as usize) && pos + n <= end,
            None => res is None,
        },
{
    match skip_unknown(wt, tag, buf, pos, end) {
        Ok(rest) => {
            proof {
                lemma_skip_bound(wt, tag, buf@, pos as int, end as int, TOP_LEVEL_DEPTH as nat);
            }
            Some(end - pos - rest)
        },
        Err(_) => None,
    }
}

/// Appends the packed 32-bit words at `buf[start..start + 4 * count]`.
fn push_fixed32_run(buf: &[u8], start: usize, count: usize, acc: &mut Vec<u32>)
    requires
        start + 4 * count <= buf@.len(),
    ensures
        final(acc)@ == old(acc)@ + fixed32_run(buf@, start as int, count as nat),
{
    let ghost before = acc@;
    let blen = buf.len();
    let mut i: usize = 0;
    let mut p: usize = start;
    while i < count
        invariant
            i <= count,
            blen == buf@.len(),
            start + 4 * count <= blen,
            p == start + 4 * i,
            acc@ == before + fixed32_run(buf@, start as int, i as nat),
        decreases count - i,
    {
        assert(4 * i + 4 <= 4 * count) by (nonlinear_arith)
            requires
                i < count,
        ;
        let w32 = read_fixed32(buf, p);
        acc.push(w32);
        i = i + 1;
        p = p + 4;
        proof {
            assert(acc@ =~= before + fixed32_run(buf@, start as int, i as nat));
        }
    }
}

/// A decoded sensor packet. Floats are held as their IEEE-754 bit patterns.
pub struct SensorData {
    pub timestamp_bits: u32,
    pub co2: i32,
    pub bme_temperature_bits: u32,
    pub bme_pressure_bits: u32,
    pub bme_altitude_bits: u32,
    pub bme_humidity_bits: u32,
    /// The thermal camera image, pixel after pixel.
    pub thermal_bits: Vec<u32>,
}

impl View for SensorData {
    type V = SensorDataView;

    open spec fn view(&self) -> SensorDataView {
        SensorDataView {
            timestamp_bits: self.timestamp_bits,
            co2: self.co2,
            bme_temperature_bits: self.bme_temperature_bits,
            bme_pressure_bits: self.bme_pressure_bits,
            bme_altitude_bits: self.bme_altitude_bits,
            bme_humidity_bits: self.bme_humidity_bits,
            thermal: self.thermal_bits@,
        }
    }
}

/// Reads one field of `SensorData` at `buf[pos..end]` into `acc`; returns
/// the number of bytes it takes.
fn merge_sensor_field(tag: u32, wt: u8, buf: &[u8], pos: usize, end: usize, acc: &mut SensorData) -> (res:
    Option<usize>)
    requires
        pos <= end <= buf@.len(),
    ensures
        match sensor_field_at(tag, wt, buf@, pos as int, end as int, old(acc)@) {
            Some((r, m)) => res == Some(m as usize) && final(acc)@ == r && pos + m <= end,
            None => res is None,
        },
{
    if tag == 1 || tag == 3 || tag == 4 || tag == 5 || tag == 6 {
        if wt != 5 || end - pos < 4 {
            return None;
        }
        let w32 = read_fixed32(buf, pos);
        if tag == 1 {
            acc.timestamp_bits = w32;
        } else if tag == 3 {
            acc.bme_temperature_bits = w32;
        } else if tag == 4 {
            acc.bme_pressure_bits = w32;
        } else if tag == 5 {
            acc.bme_altitude_bits = w32;
        } else {
            acc.bme_humidity_bits = w32;
        }
        Some(4)
    } else if tag == 2 {
        if wt != 0 {
            return None;
        }
        let (v, n) = match next_varint(buf, pos, end) {
            Some(x) => x,
            None => return None,
        };
        acc.co2 = #[verifier::truncate] (v as i32);
        Some(n)
    } else if tag == 7 {
        if wt == 2 {
            let (len, n) = match next_varint(buf, pos, end) {
                Some(x) => x,
                None => return None,
            };
            if len > (end - pos - n) as u64 || len % 4 != 0 {
                return None;
            }
            push_fixed32_run(buf, pos + n, (len / 4) as usize, &mut acc.thermal_bits);
            Some(n + len as usize)
        } else if wt == 5 {
            if end - pos < 4 {
                return None;
            }
            let w32 = read_fixed32(buf, pos);
            acc.thermal_bits.push(w32);
            Some(4)
        } else {
            None
        }
    } else if wt > 5 {
        None
    } else {
        skip_field(wt, tag, buf, pos, end)
    }
}

/// Decodes the protobuf payload of a sensor packet as prost decodes the
/// message `SensorData`; `None` where prost refuses the bytes.
pub fn decode_sensor_data(buf: &[u8]) -> (res: Option<SensorData>)
    ensures
        match decode_sensor_spec(buf@) {
            Some(r) => res matches Some(x) && x@ == r,
            None => res is None,
        },
{
    let ghost s = buf@;
    let end = buf.len();
    let mut acc = SensorData {
        timestamp_bits: 0,
        co2: 0,
        bme_temperature_bits: 0,
        bme_pressure_bits: 0,
        bme_altitude_bits: 0,
        bme_humidity_bits: 0,
        thermal_bits: Vec::new(),
    };
    proof {
        assert(acc.thermal_bits@ =~= Seq::<u32>::empty());
        assert(acc@ == empty_reading());
    }
    let mut cur: usize = 0;
    while cur < end
        invariant
            cur <= end == buf@.len(),
            s == buf@,
            decode_sensor_spec(s) == sensor_fields_at(s, cur as int, end as int, acc@),
        decreases end - cur,
    {
        let (t, w, kn) = match next_key(buf, cur, end) {
            Some(k) => k,
            None => return None,
        };
        let m = match merge_sensor_field(t, w, buf, cur + kn, end, &mut acc) {
            Some(m) => m,
            None => return None,
        };
        cur = cur + kn + m;
    }
    Some(acc)
}

// ---------------------------------------------------------------------
// Lemmas
// ---------------------------------------------------------------------

proof fn lemma_varint_end_bounds(s: Seq<u8>, pos: int, end: int, i: nat)
    ensures
        varint_end(s, pos, end, i) matches Some(n) ==> i < n <= 10 && pos + n <= end && s[pos + n
            - 1] < 128,
    decreases 10 - i,
{
    if i < 10 && pos + i < end && s[pos + i] >= 128 {
        lemma_varint_end_bounds(s, pos, end, i + 1);
    }
}

proof fn lemma_varint_value_nonneg(s: Seq<u8>, pos: int, i: nat, n: nat)
    ensures
        varint_value(s, pos, i, n) >= 0,
    decreases n - i,
{
    if i < n {
        lemma_varint_value_nonneg(s, pos, i + 1, n);
    }
}

/// A varint takes between one and ten bytes, all inside the range, and its
/// value is not negative.
pub proof fn lemma_varint_bounds(s: Seq<u8>, pos: int, end: int)
    ensures
        varint_at(s, pos, end) matches Some((v, n)) ==> 1 <= n <= 10 && pos + n <= end && pos
            < end && v >= 0,
{
    lemma_varint_end_bounds(s, pos, end, 0);
    if varint_end(s, pos, end, 0) is Some {
        lemma_varint_value_nonneg(s, pos, 0, varint_end(s, pos, end, 0).unwrap());
    }
}

/// A key takes between one and ten bytes, all inside the range.
pub proof fn lemma_key_bounds(s: Seq<u8>, pos: int, end: int)
    ensures
        key_at(s, pos, end) matches Some((_, _, n)) ==> 1 <= n <= 10 && pos + n <= end && pos
            < end,
{
    lemma_varint_bounds(s, pos, end);
}


/// A skipped field lies inside the range.
pub proof fn lemma_skip_bound(wt: u8, tag: u32, s: Seq<u8>, pos: int, end: int, depth: nat)
    ensures
        skip_at(wt, tag, s, pos, end, depth) matches Some(n) ==> pos + n <= end,
    decreases depth, end - pos, 1nat,
{
    lemma_varint_bounds(s, pos, end);
    if depth > 0 && wt == 3 {
        lemma_group_bound(tag, s, pos, end, depth);
    }
}

/// A skipped group lies inside the range.
pub proof fn lemma_group_bound(tag: u32, s: Seq<u8>, pos: int, end: int, depth: nat)
    ensures
        group_at(tag, s, pos, end, depth) matches Some(n) ==> pos + n <= end,
    decreases depth, end - pos, 0nat,
{
    lemma_key_bounds(s, pos, end);
    if depth > 0 {
        if let Some((t, w, kn)) = key_at(s, pos, end) {
            if w != 4 {
                lemma_skip_bound(w, t, s, pos + kn, end, (depth - 1) as nat);
                if let Some(m) = skip_at(w, t, s, pos + kn, end, (depth - 1) as nat) {
                    if pos + kn + m <= end {
                        lemma_group_bound(tag, s, pos + kn + m, end, depth);
                    }
                }
            }
        }
    }
}

} // verus!
