use bit_vec::BitVec;
use vstd::string::StringSliceAdditionalSpecFns;
use vstd::prelude::*;

verus! {

/// Number of pixels of the thermal camera, and of bits of a station bitmap.
pub const PIXEL_COUNT: usize = 768;

/// The characters a bitmap string may contain.
pub open spec fn is_bit_char(c: char) -> bool {
    c == '0' || c == '1'
}

/// Every character of `s` is '0' or '1'.
pub open spec fn all_bit_chars(s: Seq<char>) -> bool {
    forall|i: int| 0 <= i < s.len() ==> is_bit_char(#[trigger] s[i])
}

/// Checks a bitmap sent by a client: it must be exactly 768 bytes long
/// and consist of the characters '0' and '1' only.
pub fn validate_bitmap(bitmap: &str) -> (res: Result<(), String>)
    ensures
        bitmap.len() != PIXEL_COUNT ==> (res matches Err(e)
            && e@ == "bitmap must be exactly 768 bits long"@),
        bitmap.len() == PIXEL_COUNT && !all_bit_chars(bitmap@) ==> (res matches Err(e)
            && e@ == "bitmap must contain only '0' and '1'"@),
        res is Ok <==> bitmap.len() == PIXEL_COUNT && all_bit_chars(bitmap@),
{
    if bitmap.len() != PIXEL_COUNT {
        return Err("bitmap must be exactly 768 bits long".to_owned());
    }
    let mut ok = true;
    for c in it: bitmap.chars()
        invariant
            it.seq() == bitmap@,
            ok <==> forall|i: int| 0 <= i < it.index() ==> is_bit_char(#[trigger] bitmap@[i]),
    {
        if c != '0' && c != '1' {
            ok = false;
        }
    }
    if !ok {
        return Err("bitmap must contain only '0' and '1'".to_owned());
    }
    Ok(())
}


// ---------------------------------------------------------------------
// Bit vectors of the `bit_vec` crate
// ---------------------------------------------------------------------

/// The bit vector of the `bit_vec` crate, as the database hands bitmaps over.
#[verifier::external_type_specification]
#[verifier::external_body]
#[verifier::reject_recursive_types(B)]
pub struct ExBitVec<B>(bit_vec::BitVec<B>);

/// The bits that a `BitVec` holds, in order (the contents that its
/// methods' contracts speak of).
pub uninterp spec fn bitvec_bits(b: BitVec) -> Seq<bool>;

/// Calls `BitVec::len`: the number of bits held.
#[verifier::external_body]
fn bitvec_len(b: &BitVec) -> (n: usize)
    ensures
        n == bitvec_bits(*b).len(),
{
    b.len()
}

/// Calls `BitVec::get`: the bit at index `i`, `None` past the end.
#[verifier::external_body]
fn bitvec_get(b: &BitVec, i: usize) -> (r: Option<bool>)
    ensures
        i < bitvec_bits(*b).len() ==> r == Some(bitvec_bits(*b)[i as int]),
        i >= bitvec_bits(*b).len() ==> r is None,
{
    b.get(i)
}

/// Calls `BitVec::to_bytes`: the bits packed eight to a byte, the first
/// bit in the high-order position, the last byte padded with zero bits.
#[verifier::external_body]
fn bitvec_to_bytes(b: &BitVec) -> (r: Vec<u8>)
    ensures
        r@ == packed_bytes(bitvec_bits(*b)),
{
    b.to_bytes()
}

/// The bit at index `i`, zero past the end.
pub open spec fn bit_or_zero(bits: Seq<bool>, i: int) -> int {
    if 0 <= i < bits.len() && bits[i] {
        1
    } else {
        0
    }
}

/// Byte `j` of the packing of `bits`: bits `8j .. 8j + 8`, the first one
/// the most significant.
pub open spec fn packed_byte(bits: Seq<bool>, j: int) -> u8 {
    (128 * bit_or_zero(bits, 8 * j) + 64 * bit_or_zero(bits, 8 * j + 1) + 32 * bit_or_zero(
        bits,
        8 * j + 2,
    ) + 16 * bit_or_zero(bits, 8 * j + 3) + 8 * bit_or_zero(bits, 8 * j + 4) + 4 * bit_or_zero(
        bits,
        8 * j + 5,
    ) + 2 * bit_or_zero(bits, 8 * j + 6) + bit_or_zero(bits, 8 * j + 7)) as u8
}

/// The packing of `bits` into bytes, as many as it takes.
pub open spec fn packed_bytes(bits: Seq<bool>) -> Seq<u8> {
    Seq::new(((bits.len() + 7) / 8) as nat, |j: int| packed_byte(bits, j))
}

/// The text form of a bitmap: '1' for each set bit, '0' for each clear one.
pub open spec fn bitmap_text(bits: Seq<bool>) -> Seq<char> {
    Seq::new(bits.len(), |i: int| if bits[i] { '1' } else { '0' })
}

/// Writes a bitmap as text, one character per bit.
pub fn bitvec_to_bitmap_string(bits: &BitVec) -> (res: String)
    ensures
        res@ == bitmap_text(bitvec_bits(*bits)),
{
    let n = bitvec_len(bits);
    let mut out = String::new();
    let mut i: usize = 0;
    while i < n
        invariant
            i <= n == bitvec_bits(*bits).len(),
            out@ =~= bitmap_text(bitvec_bits(*bits)).take(i as int),
        decreases n - i,
    {
        proof {
            reveal_strlit("1");
            reveal_strlit("0");
        }
        let bit = bitvec_get(bits, i);
        if bit == Some(true) {
            out.append("1");
        } else {
            out.append("0");
        }
        i = i + 1;
        proof {
            assert(out@ =~= bitmap_text(bitvec_bits(*bits)).take(i as int));
        }
    }
    out
}

// ---------------------------------------------------------------------
// Pixels that a bitmap selects
// ---------------------------------------------------------------------

/// Pixel `i` is selected by the packed bitmap `bytes`: bit `7 - i % 8` of
/// byte `i / 8` is set.
pub open spec fn byte_selects(bytes: Seq<u8>, i: int) -> bool {
    bytes[i / 8] & (0x80u8 >> ((i % 8) as u8)) != 0
}

/// The pixels below `k` that `bytes` selects, in increasing order.
pub open spec fn selected_below(bytes: Seq<u8>, k: int) -> Seq<usize>
    decreases k,
{
    if k <= 0 {
        Seq::empty()
    } else if byte_selects(bytes, k - 1) {
        selected_below(bytes, k - 1).push((k - 1) as usize)
    } else {
        selected_below(bytes, k - 1)
    }
}

/// The pixels that the packed bitmap `bytes` selects, in increasing order.
pub open spec fn selected_pixels_spec(bytes: Seq<u8>) -> Seq<usize> {
    selected_below(bytes, 8 * bytes.len() as int)
}

/// Lists the pixels that a packed bitmap selects: for byte `n` and bit
/// position `i` (from the high-order bit), pixel `8n + i`.
pub fn selected_pixels(bitmap: &[u8]) -> (res: Vec<usize>)
    requires
        8 * bitmap@.len() <= usize::MAX,
    ensures
        res@ == selected_pixels_spec(bitmap@),
{
    let mut out: Vec<usize> = Vec::new();
    let mut n: usize = 0;
    while n < bitmap.len()
        invariant
            n <= bitmap@.len(),
            8 * bitmap@.len() <= usize::MAX,
            out@ == selected_below(bitmap@, 8 * n),
        decreases bitmap@.len() - n,
    {
        let b = bitmap[n];
        let mut i: u8 = 0;
        while i < 8
            invariant
                n < bitmap@.len(),
                8 * bitmap@.len() <= usize::MAX,
                i <= 8,
                b == bitmap@[n as int],
                out@ == selected_below(bitmap@, 8 * n + i),
            decreases 8 - i,
        {
            let idx = n * 8 + i as usize;
            proof {
                assert(idx / 8 == n as int && idx % 8 == i as int);
            }
            if b & (0x80u8 >> i) != 0 {
                out.push(idx);
            }
            i = i + 1;
        }
        n = n + 1;
    }
    out
}

/// Lists the pixels that a station bitmap selects, through its packing
/// into bytes.
pub fn area_pixels(bitmap: &BitVec) -> (res: Vec<usize>)
    requires
        bitvec_bits(*bitmap).len() + 8 <= usize::MAX,
    ensures
        res@ == set_bits(bitvec_bits(*bitmap)),
{
    let bytes = bitvec_to_bytes(bitmap);
    proof {
        law_area_pixels_are_set_bits(bitvec_bits(*bitmap));
    }
    selected_pixels(&bytes)
}

/// Lists the pixels that a station bitmap selects, after checking that the
/// bitmap is short enough for its indices to be counted; `None` for a
/// bitmap of more than `usize::MAX - 8` bits.
pub fn selected_area(bitmap: &BitVec) -> (res: Option<Vec<usize>>)
    ensures
        bitvec_bits(*bitmap).len() + 8 <= usize::MAX ==> (res matches Some(v) && v@ == set_bits(
            bitvec_bits(*bitmap),
        )),
        bitvec_bits(*bitmap).len() + 8 > usize::MAX ==> res is None,
{
    let n = bitvec_len(bitmap);
    if n > usize::MAX - 8 {
        None
    } else {
        Some(area_pixels(bitmap))
    }
}


// ---------------------------------------------------------------------
// Laws
// ---------------------------------------------------------------------

/// The indices below `k` of the set bits of `bits`, in increasing order.
pub open spec fn set_bits_below(bits: Seq<bool>, k: int) -> Seq<usize>
    decreases k,
{
    if k <= 0 {
        Seq::empty()
    } else if bit_or_zero(bits, k - 1) == 1 {
        set_bits_below(bits, k - 1).push((k - 1) as usize)
    } else {
        set_bits_below(bits, k - 1)
    }
}

/// The indices of the set bits of `bits`, in increasing order.
pub open spec fn set_bits(bits: Seq<bool>) -> Seq<usize> {
    set_bits_below(bits, bits.len() as int)
}

proof fn lemma_packed_bit(x0: u8, x1: u8, x2: u8, x3: u8, x4: u8, x5: u8, x6: u8, x7: u8, k: u8)
    by (bit_vector)
    requires
        x0 <= 1,
        x1 <= 1,
        x2 <= 1,
        x3 <= 1,
        x4 <= 1,
        x5 <= 1,
        x6 <= 1,
        x7 <= 1,
        k < 8,
    ensures
        ((128 * x0 + 64 * x1 + 32 * x2 + 16 * x3 + 8 * x4 + 4 * x5 + 2 * x6 + x7) as u8 & (0x80u8
            >> k) != 0) <==> ((k == 0 && x0 == 1) || (k == 1 && x1 == 1) || (k == 2 && x2 == 1) || (
        k == 3 && x3 == 1) || (k == 4 && x4 == 1) || (k == 5 && x5 == 1) || (k == 6 && x6 == 1) || (
        k == 7 && x7 == 1)),
{
}

/// In the packing of `bits`, pixel `i` is selected exactly where bit `i`
/// is set (and past the end, never).
proof fn lemma_packed_selects(bits: Seq<bool>, i: int)
    requires
        0 <= i < 8 * packed_bytes(bits).len(),
    ensures
        byte_selects(packed_bytes(bits), i) <==> bit_or_zero(bits, i) == 1,
{
    let j = i / 8;
    let k = i % 8;
    assert(0 <= j < packed_bytes(bits).len());
    lemma_packed_bit(
        bit_or_zero(bits, 8 * j) as u8,
        bit_or_zero(bits, 8 * j + 1) as u8,
        bit_or_zero(bits, 8 * j + 2) as u8,
        bit_or_zero(bits, 8 * j + 3) as u8,
        bit_or_zero(bits, 8 * j + 4) as u8,
        bit_or_zero(bits, 8 * j + 5) as u8,
        bit_or_zero(bits, 8 * j + 6) as u8,
        bit_or_zero(bits, 8 * j + 7) as u8,
        k as u8,
    );
    assert(i == 8 * j + k);
}

proof fn lemma_selected_below(bits: Seq<bool>, k: int)
    requires
        0 <= k <= 8 * packed_bytes(bits).len(),
    ensures
        selected_below(packed_bytes(bits), k) == set_bits_below(bits, k),
    decreases k,
{
    if k > 0 {
        lemma_selected_below(bits, k - 1);
        lemma_packed_selects(bits, k - 1);
    }
}

proof fn lemma_set_bits_past_end(bits: Seq<bool>, k: int)
    requires
        bits.len() <= k,
    ensures
        set_bits_below(bits, k) == set_bits(bits),
    decreases k,
{
    if k > bits.len() {
        lemma_set_bits_past_end(bits, k - 1);
    }
}

/// Packing a bitmap into bytes and reading the selected pixels back from
/// the bytes gives exactly the indices of its set bits, in increasing order.
pub proof fn law_area_pixels_are_set_bits(bits: Seq<bool>)
    ensures
        selected_pixels_spec(packed_bytes(bits)) == set_bits(bits),
{
    let k = 8 * packed_bytes(bits).len();
    lemma_selected_below(bits, k as int);
    lemma_set_bits_past_end(bits, k as int);
}


/// The bits that a bitmap text stands for: bit `i` is set where character
/// `i` is '1'.
pub open spec fn bits_of_text(s: Seq<char>) -> Seq<bool> {
    Seq::new(s.len(), |i: int| s[i] == '1')
}

/// A bitmap accepted by `validate_bitmap`, stored as bits and written back
/// as text, reads as it was sent.
pub proof fn law_bitmap_text_round_trip(s: Seq<char>)
    requires
        all_bit_chars(s),
    ensures
        bitmap_text(bits_of_text(s)) == s,
{
    assert forall|i: int| 0 <= i < s.len() implies bitmap_text(bits_of_text(s))[i] == s[i] by {
        assert(is_bit_char(s[i]));
    }
    assert(bitmap_text(bits_of_text(s)) =~= s);
}

/// The text of any bitmap holds only '0' and '1', one per bit.
pub proof fn law_bitmap_text_is_bits(bits: Seq<bool>)
    ensures
        all_bit_chars(bitmap_text(bits)),
        bitmap_text(bits).len() == bits.len(),
        bits_of_text(bitmap_text(bits)) == bits,
{
    assert(bits_of_text(bitmap_text(bits)) =~= bits);
}

/// A bitmap of 768 bytes, all of them '0' or '1' (as `validate_bitmap`
/// accepts), has exactly 768 characters.
pub proof fn law_valid_bitmap_has_pixel_count_chars(bitmap: &str)
    requires
        bitmap.spec_bytes().len() == PIXEL_COUNT,
        all_bit_chars(bitmap@),
    ensures
        bitmap@.len() == PIXEL_COUNT,
{
    broadcast use vstd::string::is_ascii_spec_bytes;
    assert(vstd::string::is_ascii(bitmap)) by {
        assert forall|i: int| 0 <= i < bitmap@.len() implies '\0' <= #[trigger] bitmap@[i]
            <= '\u{7f}' by {
            assert(is_bit_char(bitmap@[i]));
        }
    }
    assert(bitmap.spec_bytes().len() == bitmap@.len());
}

} // verus!
