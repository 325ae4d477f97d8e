//! Payloads one after another: decoding them together reads the second
//! into what the first gave, as protobuf merges messages.
use crate::wire::{
    fixed32_at, fixed32_run, group_at, key_at, sensor_field_at, sensor_fields_at, skip_at,
    varint_at, varint_end, varint_value, SensorDataView,
};
use vstd::prelude::*;

verus! {

/// `s1[p1..p1 + len]` and `s2[p2..p2 + len]` hold the same bytes.
pub open spec fn agree(s1: Seq<u8>, p1: int, s2: Seq<u8>, p2: int, len: int) -> bool {
    forall|k: int| 0 <= k < len ==> #[trigger] s1[p1 + k] == s2[p2 + k]
}

/// The common conditions of the transfer lemmas: a window `s1[p1..e1]`, and
/// a window `s2[p2..e2]` at least as long that starts with the same bytes.
pub open spec fn windows(s1: Seq<u8>, p1: int, e1: int, s2: Seq<u8>, p2: int, e2: int) -> bool {
    &&& 0 <= p1 <= e1 <= s1.len()
    &&& 0 <= p2 <= e2 <= s2.len()
    &&& e1 - p1 <= e2 - p2
    &&& agree(s1, p1, s2, p2, e1 - p1)
}

proof fn lemma_varint_end_transfer(
    s1: Seq<u8>,
    p1: int,
    e1: int,
    s2: Seq<u8>,
    p2: int,
    e2: int,
    i: nat,
)
    requires
        windows(s1, p1, e1, s2, p2, e2),
        varint_end(s1, p1, e1, i) is Some,
    ensures
        varint_end(s2, p2, e2, i) == varint_end(s1, p1, e1, i),
    decreases 10 - i,
{
    assert(s1[p1 + i] == s2[p2 + i]);
    if s1[p1 + i] >= 128 {
        lemma_varint_end_transfer(s1, p1, e1, s2, p2, e2, i + 1);
    }
}

proof fn lemma_varint_value_transfer(s1: Seq<u8>, p1: int, s2: Seq<u8>, p2: int, i: nat, n: nat)
    requires
        agree(s1, p1, s2, p2, n as int),
    ensures
        varint_value(s1, p1, i, n) == varint_value(s2, p2, i, n),
    decreases n - i,
{
    if i < n {
        assert(s1[p1 + i] == s2[p2 + i]);
        lemma_varint_value_transfer(s1, p1, s2, p2, i + 1, n);
    }
}

proof fn lemma_varint_transfer(s1: Seq<u8>, p1: int, e1: int, s2: Seq<u8>, p2: int, e2: int)
    requires
        windows(s1, p1, e1, s2, p2, e2),
        varint_at(s1, p1, e1) is Some,
    ensures
        varint_at(s2, p2, e2) == varint_at(s1, p1, e1),
{
    lemma_varint_end_transfer(s1, p1, e1, s2, p2, e2, 0);
    crate::wire::lemma_varint_bounds(s1, p1, e1);
    let n = varint_end(s1, p1, e1, 0).unwrap();
    lemma_varint_value_transfer(s1, p1, s2, p2, 0, n);
    if n == 10 {
        assert(s1[p1 + 9] == s2[p2 + 9]);
    }
}

proof fn lemma_key_transfer(s1: Seq<u8>, p1: int, e1: int, s2: Seq<u8>, p2: int, e2: int)
    requires
        windows(s1, p1, e1, s2, p2, e2),
        key_at(s1, p1, e1) is Some,
    ensures
        key_at(s2, p2, e2) == key_at(s1, p1, e1),
{
    lemma_varint_transfer(s1, p1, e1, s2, p2, e2);
}

/// A window shrunk from the front, and grown at the back, still agrees.
proof fn lemma_windows_advance(
    s1: Seq<u8>,
    p1: int,
    e1: int,
    s2: Seq<u8>,
    p2: int,
    e2: int,
    k: int,
)
    requires
        windows(s1, p1, e1, s2, p2, e2),
        0 <= k <= e1 - p1,
    ensures
        windows(s1, p1 + k, e1, s2, p2 + k, e2),
{
    assert forall|j: int| 0 <= j < e1 - (p1 + k) implies #[trigger] s1[p1 + k + j] == s2[p2 + k
        + j] by {
        assert(s1[p1 + (k + j)] == s2[p2 + (k + j)]);
    }
}

proof fn lemma_fixed32_transfer(s1: Seq<u8>, p1: int, e1: int, s2: Seq<u8>, p2: int, e2: int)
    requires
        windows(s1, p1, e1, s2, p2, e2),
        p1 + 4 <= e1,
    ensures
        fixed32_at(s2, p2) == fixed32_at(s1, p1),
{
    assert(s1[p1 + 0] == s2[p2 + 0]);
    assert(s1[p1 + 1] == s2[p2 + 1]);
    assert(s1[p1 + 2] == s2[p2 + 2]);
    assert(s1[p1 + 3] == s2[p2 + 3]);
}

proof fn lemma_fixed32_run_transfer(
    s1: Seq<u8>,
    p1: int,
    e1: int,
    s2: Seq<u8>,
    p2: int,
    e2: int,
    count: nat,
)
    requires
        windows(s1, p1, e1, s2, p2, e2),
        p1 + 4 * count <= e1,
    ensures
        fixed32_run(s2, p2, count) == fixed32_run(s1, p1, count),
{
    assert forall|i: int| 0 <= i < count implies fixed32_run(s2, p2, count)[i] == fixed32_run(
        s1,
        p1,
        count,
    )[i] by {
        lemma_windows_advance(s1, p1, e1, s2, p2, e2, 4 * i);
        lemma_fixed32_transfer(s1, p1 + 4 * i, e1, s2, p2 + 4 * i, e2);
    }
    assert(fixed32_run(s2, p2, count) =~= fixed32_run(s1, p1, count));
}

proof fn lemma_skip_transfer(
    wt: u8,
    tag: u32,
    s1: Seq<u8>,
    p1: int,
    e1: int,
    s2: Seq<u8>,
    p2: int,
    e2: int,
    depth: nat,
)
    requires
        windows(s1, p1, e1, s2, p2, e2),
        skip_at(wt, tag, s1, p1, e1, depth) is Some,
    ensures
        skip_at(wt, tag, s2, p2, e2, depth) == skip_at(wt, tag, s1, p1, e1, depth),
        p1 + skip_at(wt, tag, s1, p1, e1, depth).unwrap() <= e1,
    decreases depth, e1 - p1, 1nat,
{
    if wt == 0 || wt == 2 {
        lemma_varint_transfer(s1, p1, e1, s2, p2, e2);
        crate::wire::lemma_varint_bounds(s1, p1, e1);
    } else if wt == 3 {
        lemma_group_transfer(tag, s1, p1, e1, s2, p2, e2, depth);
    }
}

proof fn lemma_group_transfer(
    tag: u32,
    s1: Seq<u8>,
    p1: int,
    e1: int,
    s2: Seq<u8>,
    p2: int,
    e2: int,
    depth: nat,
)
    requires
        windows(s1, p1, e1, s2, p2, e2),
        group_at(tag, s1, p1, e1, depth) is Some,
    ensures
        group_at(tag, s2, p2, e2, depth) == group_at(tag, s1, p1, e1, depth),
        p1 + group_at(tag, s1, p1, e1, depth).unwrap() <= e1,
    decreases depth, e1 - p1, 0nat,
{
    lemma_key_transfer(s1, p1, e1, s2, p2, e2);
    crate::wire::lemma_key_bounds(s1, p1, e1);
    let (t, w, kn) = key_at(s1, p1, e1).unwrap();
    if w != 4 {
        lemma_windows_advance(s1, p1, e1, s2, p2, e2, kn as int);
        lemma_skip_transfer(w, t, s1, p1 + kn, e1, s2, p2 + kn, e2, (depth - 1) as nat);
        let m = skip_at(w, t, s1, p1 + kn, e1, (depth - 1) as nat).unwrap();
        lemma_windows_advance(s1, p1, e1, s2, p2, e2, (kn + m) as int);
        lemma_group_transfer(tag, s1, p1 + kn + m, e1, s2, p2 + kn + m, e2, depth);
    }
}

proof fn lemma_sensor_field_transfer(
    tag: u32,
    wt: u8,
    s1: Seq<u8>,
    p1: int,
    e1: int,
    s2: Seq<u8>,
    p2: int,
    e2: int,
    acc: SensorDataView,
)
    requires
        windows(s1, p1, e1, s2, p2, e2),
        sensor_field_at(tag, wt, s1, p1, e1, acc) is Some,
    ensures
        sensor_field_at(tag, wt, s2, p2, e2, acc) == sensor_field_at(tag, wt, s1, p1, e1, acc),
        p1 + sensor_field_at(tag, wt, s1, p1, e1, acc).unwrap().1 <= e1,
{
    if tag == 1 || tag == 3 || tag == 4 || tag == 5 || tag == 6 {
        lemma_fixed32_transfer(s1, p1, e1, s2, p2, e2);
    } else if tag == 2 {
        lemma_varint_transfer(s1, p1, e1, s2, p2, e2);
        crate::wire::lemma_varint_bounds(s1, p1, e1);
    } else if tag == 7 {
        if wt == 2 {
            lemma_varint_transfer(s1, p1, e1, s2, p2, e2);
            crate::wire::lemma_varint_bounds(s1, p1, e1);
            let (len, n) = varint_at(s1, p1, e1).unwrap();
            assert(len <= e1 - p1 - n && len % 4 == 0);
            assert(4 * (len / 4) == len);
            lemma_windows_advance(s1, p1, e1, s2, p2, e2, n as int);
            lemma_fixed32_run_transfer(s1, p1 + n, e1, s2, p2 + n, e2, (len / 4) as nat);
        } else {
            lemma_fixed32_transfer(s1, p1, e1, s2, p2, e2);
        }
    } else {
        lemma_skip_transfer(wt, tag, s1, p1, e1, s2, p2, e2, 100);
    }
}

proof fn lemma_sensor_fields_transfer(
    s1: Seq<u8>,
    p1: int,
    e1: int,
    s2: Seq<u8>,
    p2: int,
    e2: int,
    acc: SensorDataView,
)
    requires
        windows(s1, p1, e1, s2, p2, e2),
        e1 - p1 == e2 - p2,
        sensor_fields_at(s1, p1, e1, acc) is Some,
    ensures
        sensor_fields_at(s2, p2, e2, acc) == sensor_fields_at(s1, p1, e1, acc),
    decreases e1 - p1,
{
    if p1 < e1 {
        lemma_key_transfer(s1, p1, e1, s2, p2, e2);
        crate::wire::lemma_key_bounds(s1, p1, e1);
        let (t, w, kn) = key_at(s1, p1, e1).unwrap();
        lemma_windows_advance(s1, p1, e1, s2, p2, e2, kn as int);
        lemma_sensor_field_transfer(t, w, s1, p1 + kn, e1, s2, p2 + kn, e2, acc);
        let (acc2, m) = sensor_field_at(t, w, s1, p1 + kn, e1, acc).unwrap();
        lemma_windows_advance(s1, p1, e1, s2, p2, e2, (kn + m) as int);
        lemma_sensor_fields_transfer(s1, p1 + kn + m, e1, s2, p2 + kn + m, e2, acc2);
    }
}

/// Reading the fields of `a` from `pos` on, inside `a + b`, stops where `a`
/// ends with what reading `a` alone gives.
proof fn lemma_read_prefix(a: Seq<u8>, b: Seq<u8>, pos: int, acc: SensorDataView)
    requires
        0 <= pos <= a.len(),
        sensor_fields_at(a, pos, a.len() as int, acc) is Some,
    ensures
        sensor_fields_at(a + b, pos, (a + b).len() as int, acc) == sensor_fields_at(
            a + b,
            a.len() as int,
            (a + b).len() as int,
            sensor_fields_at(a, pos, a.len() as int, acc).unwrap(),
        ),
    decreases a.len() - pos,
{
    let ab = a + b;
    let e1 = a.len() as int;
    let e2 = ab.len() as int;
    if pos < e1 {
        assert(windows(a, pos, e1, ab, pos, e2)) by {
            assert forall|k: int| 0 <= k < e1 - pos implies #[trigger] a[pos + k] == ab[pos + k] by {
            }
        }
        lemma_key_transfer(a, pos, e1, ab, pos, e2);
        crate::wire::lemma_key_bounds(a, pos, e1);
        let (t, w, kn) = key_at(a, pos, e1).unwrap();
        lemma_windows_advance(a, pos, e1, ab, pos, e2, kn as int);
        lemma_sensor_field_transfer(t, w, a, pos + kn, e1, ab, pos + kn, e2, acc);
        let (acc2, m) = sensor_field_at(t, w, a, pos + kn, e1, acc).unwrap();
        lemma_read_prefix(a, b, pos + kn + m, acc2);
    }
}

/// Decoding two payloads one after the other reads the second on top of
/// what the first gives: its scalar fields replace those of the first, its
/// thermal pixels follow the pixels of the first.
pub proof fn law_concatenation_merges(a: Seq<u8>, b: Seq<u8>, acc: SensorDataView)
    requires
        sensor_fields_at(a, 0, a.len() as int, acc) is Some,
    ensures
        sensor_fields_at(a + b, 0, (a + b).len() as int, acc) == sensor_fields_at(
            b,
            0,
            b.len() as int,
            sensor_fields_at(a, 0, a.len() as int, acc).unwrap(),
        ),
{
    let ab = a + b;
    let r = sensor_fields_at(a, 0, a.len() as int, acc).unwrap();
    lemma_read_prefix(a, b, 0, acc);
    let la = a.len() as int;
    let le = ab.len() as int;
    let lb = b.len() as int;
    assert(windows(ab, la, le, b, 0, lb)) by {
        assert forall|k: int| 0 <= k < le - la implies #[trigger] ab[la + k] == b[0 + k] by {}
    }
    assert(windows(b, 0, lb, ab, la, le)) by {
        assert forall|k: int| 0 <= k < lb implies #[trigger] b[0 + k] == ab[la + k] by {}
    }
    if sensor_fields_at(ab, la, le, r) is Some {
        lemma_sensor_fields_transfer(ab, la, le, b, 0, lb, r);
    } else if sensor_fields_at(b, 0, lb, r) is Some {
        lemma_sensor_fields_transfer(b, 0, lb, ab, la, le, r);
    }
}

} // verus!
