//! Decoding of the data bytes of Mode 01 responses.
use vstd::prelude::*;

use crate::command::{hex_pair, push_hex_pair};
use crate::error::ObdError;
use crate::response::extract_data_bytes;

verus! {

/// The 32-bit word that four data bytes form, most significant byte first.
pub open spec fn be_word(d: Seq<u8>) -> u32 {
    ((d[0] as u32) << 24u32) | ((d[1] as u32) << 16u32) | ((d[2] as u32) << 8u32) | (d[3] as u32)
}

/// Bit `31 - i` of the mask is set: PID `base + i + 1` is supported.
pub open spec fn mask_bit(mask: u32, i: int) -> bool {
    mask & (1u32 << ((31 - i) as u32)) != 0
}

/// The supported PIDs among `base + 1 ..= base + n`, in increasing order.
pub open spec fn supported_pids_upto(mask: u32, base: u8, n: int) -> Seq<u8>
    decreases n,
{
    if n <= 0 {
        seq![]
    } else {
        let prev = supported_pids_upto(mask, base, n - 1);
        if mask_bit(mask, n - 1) {
            prev.push((base + n) as u8)
        } else {
            prev
        }
    }
}

/// The PIDs of the range after `base` that a 32-bit support mask lists.
pub open spec fn supported_pids(mask: u32, base: u8) -> Seq<u8> {
    supported_pids_upto(mask, base, 32)
}

/// Every PID that the mask lists fits in a byte.
pub open spec fn pids_fit(mask: u32, base: u8) -> bool {
    forall|i: int| 0 <= i < 32 && mask_bit(mask, i) ==> base + i + 1 <= 255
}

/// The listed PIDs are exactly `base + i + 1` for the set bits `i`, and they
/// come in strictly increasing order.
pub proof fn lemma_supported_pids_upto(mask: u32, base: u8, n: int)
    requires
        0 <= n <= 32,
        pids_fit(mask, base),
    ensures
        forall|j: int, k: int|
            0 <= j < k < supported_pids_upto(mask, base, n).len() ==> supported_pids_upto(
                mask,
                base,
                n,
            )[j] < supported_pids_upto(mask, base, n)[k],
        forall|j: int|
            0 <= j < supported_pids_upto(mask, base, n).len() ==> base < #[trigger] supported_pids_upto(
                mask,
                base,
                n,
            )[j] <= base + n,
        forall|i: int|
            0 <= i < n && base + i + 1 <= 255 ==> (mask_bit(mask, i)
                <==> supported_pids_upto(mask, base, n).contains((base + i + 1) as u8)),
    decreases n,
{
    if n > 0 {
        lemma_supported_pids_upto(mask, base, n - 1);
        let prev = supported_pids_upto(mask, base, n - 1);
        let cur = supported_pids_upto(mask, base, n);
        assert forall|i: int| 0 <= i < n && base + i + 1 <= 255 implies (mask_bit(mask, i)
            <==> cur.contains((base + i + 1) as u8)) by {
            let e = (base + i + 1) as u8;
            assert(e == base + i + 1);
            if mask_bit(mask, n - 1) {
                assert(cur == prev.push((base + n) as u8));
                assert(cur[cur.len() - 1] == (base + n) as u8);
                if i < n - 1 {
                    if cur.contains(e) {
                        let k = choose|k: int| 0 <= k < cur.len() && cur[k] == e;
                        if k < prev.len() {
                            assert(prev[k] == cur[k]);
                        } else {
                            assert(cur[k] == base + n);
                        }
                    }
                    if prev.contains(e) {
                        let k = choose|k: int| 0 <= k < prev.len() && prev[k] == e;
                        assert(cur[k] == prev[k]);
                    }
                }
            } else {
                assert(cur == prev);
                if i == n - 1 && prev.contains(e) {
                    let k = choose|k: int| 0 <= k < prev.len() && prev[k] == e;
                    assert(prev[k] <= base + n - 1);
                }
            }
        }
    }
}

/// Query which PIDs of the range after `base_pid` the vehicle supports.
/// Returns a Vec of supported PID numbers.
///
/// The four data bytes form a 32-bit bitmask: bit 31 (MSB) stands for PID
/// `base_pid + 1`, bit 0 (LSB) for PID `base_pid + 32`.
pub fn decode_supported_pids(raw: &[u8], base_pid: u8) -> (res: Result<Vec<u8>, ObdError>)
    requires
        raw@.len() >= 6 ==> pids_fit(be_word(raw@.skip(2)), base_pid),
    ensures
        match res {
            Ok(v) => raw@.len() >= 6 && v@ == supported_pids(be_word(raw@.skip(2)), base_pid),
            Err(ObdError::InsufficientData { expected, got }) => raw@.len() < 6 && expected == 6
                && got == raw@.len(),
            Err(_) => false,
        },
{
    let data = match extract_data_bytes(raw, 4) {
        Ok(d) => d,
        Err(e) => {
            return Err(e);
        },
    };
    let bitmask: u32 = ((data[0] as u32) << 24u32) | ((data[1] as u32) << 16u32) | ((
    data[2] as u32) << 8u32) | (data[3] as u32);
    let ghost mask = be_word(raw@.skip(2));
    assert(bitmask == mask);
    let mut supported: Vec<u8> = Vec::new();
    let mut bit: u8 = 0;
    while bit < 32
        invariant
            bit <= 32,
            bitmask == mask,
            pids_fit(mask, base_pid),
            supported@ == supported_pids_upto(mask, base_pid, bit as int),
        decreases 32 - bit,
    {
        let shift: u32 = 31 - bit as u32;
        if bitmask & (1u32 << shift) != 0 {
            assert(mask_bit(mask, bit as int));
            supported.push(base_pid + bit + 1);
        }
        bit = bit + 1;
    }
    Ok(supported)
}

/// Decode vehicle speed from one raw data byte.
///
/// Formula: `A` (the value is already km/h).
pub fn decode_vehicle_speed(raw: &[u8]) -> (res: Result<u8, ObdError>)
    ensures
        match res {
            Ok(speed) => raw@.len() >= 3 && speed == raw@[2],
            Err(ObdError::InsufficientData { expected, got }) => raw@.len() < 3 && expected == 3
                && got == raw@.len(),
            Err(_) => false,
        },
{
    let data = match extract_data_bytes(raw, 1) {
        Ok(d) => d,
        Err(e) => {
            return Err(e);
        },
    };
    Ok(data[0])
}

/// Decode engine coolant temperature from one raw data byte.
///
/// Formula: `A - 40`, in °C (negative at cold start): from -40 to 215.
pub fn decode_coolant_temp(raw: &[u8]) -> (res: Result<i16, ObdError>)
    ensures
        match res {
            Ok(temp) => raw@.len() >= 3 && temp == raw@[2] - 40 && -40 <= temp <= 215,
            Err(ObdError::InsufficientData { expected, got }) => raw@.len() < 3 && expected == 3
                && got == raw@.len(),
            Err(_) => false,
        },
{
    let data = match extract_data_bytes(raw, 1) {
        Ok(d) => d,
        Err(e) => {
            return Err(e);
        },
    };
    Ok(data[0] as i16 - 40)
}

} // verus!

verus! {

/// The message of the error for a PID that has no decoder to the requested
/// type: `kind` names the type, the PID is written as `0x` and two upper-case
/// hex digits.
pub open spec fn no_decoder_message(kind: Seq<char>, pid: u8) -> Seq<char> {
    "No "@ + kind + " decoder for PID 0x"@ + hex_pair(pid)
}

/// Decodes the PIDs whose value is a `u8`: vehicle speed (0x0D). Any other
/// PID is a parse error.
pub fn decode_u8_pid(pid: u8, raw: &[u8]) -> (res: Result<u8, ObdError>)
    ensures
        pid == 0x0D ==> match res {
            Ok(speed) => raw@.len() >= 3 && speed == raw@[2],
            Err(ObdError::InsufficientData { expected, got }) => raw@.len() < 3 && expected == 3
                && got == raw@.len(),
            Err(_) => false,
        },
        pid != 0x0D ==> (res matches Err(ObdError::Parse(m)) && m@ == no_decoder_message(
            "u8"@,
            pid,
        )),
{
    if pid == 0x0D {
        decode_vehicle_speed(raw)
    } else {
        let mut msg = String::from_str("No u8 decoder for PID 0x");
        push_hex_pair(&mut msg, pid);
        proof {
            reveal_strlit("No u8 decoder for PID 0x");
            reveal_strlit("No ");
            reveal_strlit("u8");
            reveal_strlit(" decoder for PID 0x");
        }
        assert(msg@ == no_decoder_message("u8"@, pid));
        Err(ObdError::Parse(msg))
    }
}

/// Decodes the PIDs whose value is an `i16`: coolant temperature (0x05). Any
/// other PID is a parse error.
pub fn decode_i16_pid(pid: u8, raw: &[u8]) -> (res: Result<i16, ObdError>)
    ensures
        pid == 0x05 ==> match res {
            Ok(temp) => raw@.len() >= 3 && temp == raw@[2] - 40 && -40 <= temp <= 215,
            Err(ObdError::InsufficientData { expected, got }) => raw@.len() < 3 && expected == 3
                && got == raw@.len(),
            Err(_) => false,
        },
        pid != 0x05 ==> (res matches Err(ObdError::Parse(m)) && m@ == no_decoder_message(
            "i16"@,
            pid,
        )),
{
    if pid == 0x05 {
        decode_coolant_temp(raw)
    } else {
        let mut msg = String::from_str("No i16 decoder for PID 0x");
        push_hex_pair(&mut msg, pid);
        proof {
            reveal_strlit("No i16 decoder for PID 0x");
            reveal_strlit("No ");
            reveal_strlit("i16");
            reveal_strlit(" decoder for PID 0x");
        }
        assert(msg@ == no_decoder_message("i16"@, pid));
        Err(ObdError::Parse(msg))
    }
}

} // verus!

verus! {

// ---------------------------------------------------------------------------
// The mask read bit by bit
// ---------------------------------------------------------------------------

proof fn lemma_word_bits(a: u8, b: u8, c: u8, d: u8, j: u32)
    by (bit_vector)
    requires
        j < 8,
    ensures
        ((((a as u32) << 24u32) | ((b as u32) << 16u32) | ((c as u32) << 8u32) | (d as u32)) & (1u32
            << ((31u32 - j) as u32)) != 0) == ((a >> ((7u32 - j) as u8)) & 1u8 == 1u8),
        ((((a as u32) << 24u32) | ((b as u32) << 16u32) | ((c as u32) << 8u32) | (d as u32)) & (1u32
            << ((23u32 - j) as u32)) != 0) == ((b >> ((7u32 - j) as u8)) & 1u8 == 1u8),
        ((((a as u32) << 24u32) | ((b as u32) << 16u32) | ((c as u32) << 8u32) | (d as u32)) & (1u32
            << ((15u32 - j) as u32)) != 0) == ((c >> ((7u32 - j) as u8)) & 1u8 == 1u8),
        ((((a as u32) << 24u32) | ((b as u32) << 16u32) | ((c as u32) << 8u32) | (d as u32)) & (1u32
            << ((7u32 - j) as u32)) != 0) == ((d >> ((7u32 - j) as u8)) & 1u8 == 1u8),
{
}

proof fn lemma_word_value(a: u8, b: u8, c: u8, d: u8)
    by (bit_vector)
    ensures
        (((a as u32) << 24u32) | ((b as u32) << 16u32) | ((c as u32) << 8u32) | (d as u32)) == a
            * 16777216u32 + b * 65536u32 + c * 256u32 + d,
{
}

/// The mask is the four data bytes read big-endian, nothing dropped.
pub proof fn lemma_mask_value(data: Seq<u8>)
    requires
        data.len() >= 4,
    ensures
        be_word(data) as int == data[0] * 16777216 + data[1] * 65536 + data[2] * 256 + data[3],
{
    lemma_word_value(data[0], data[1], data[2], data[3]);
}

/// Bit `i` of the support list, counted from the first data byte's most
/// significant bit, is bit `7 - i % 8` of data byte `i / 8`.
pub proof fn lemma_mask_bit_of_bytes(data: Seq<u8>, k: int, j: int)
    requires
        data.len() >= 4,
        0 <= k < 4,
        0 <= j < 8,
    ensures
        mask_bit(be_word(data), 8 * k + j) <==> (data[k] >> ((7 - j) as u8)) & 1u8 == 1u8,
{
    lemma_word_bits(data[0], data[1], data[2], data[3], j as u32);
    assert(((31 - (8 * k + j)) as u32) == (31 - 8 * k) as u32 - j as u32);
    assert(((7 - j) as u8) == (7u32 - j as u32) as u8);
}

/// PID `base + 8k + j + 1` is listed exactly when bit `7 - j` of data byte
/// `k` (the reply's byte `2 + k`) is set, for every such PID that fits in a
/// byte. In particular the next range's base, `base + 32`, is listed exactly
/// when the lowest bit of the last data byte is set.
pub proof fn lemma_supported_pid_bits(raw: Seq<u8>, base: u8, k: int, j: int)
    requires
        raw.len() >= 6,
        pids_fit(be_word(raw.skip(2)), base),
        0 <= k < 4,
        0 <= j < 8,
        base + 8 * k + j + 1 <= 255,
    ensures
        supported_pids(be_word(raw.skip(2)), base).contains((base + 8 * k + j + 1) as u8) <==> (raw[2
            + k] >> ((7 - j) as u8)) & 1u8 == 1u8,
{
    let data = raw.skip(2);
    lemma_mask_bit_of_bytes(data, k, j);
    assert(data[k] == raw[2 + k]);
    lemma_supported_pids_upto(be_word(data), base, 32);
}

} // verus!
