//! The heartbeat wire format: a datagram whose payload is the decimal text
//! of the sender's counter.

use crate::encoding::{
    lemma_ascii_scalar, lemma_decode_concat, lemma_read_scalar, lemma_scalar_is_char,
    lemma_single_scalar, lemma_text_around, lemma_whitespace_pattern_is_scalar,
    lemma_whitespace_scalar, lemma_wide_scalar_is_not_ascii, whitespace_width_at,
};
use crate::text::{
    all_digits, breaks_shape, decimal_value, lemma_broken_shape_has_no_value, lemma_shape_value,
    parse_counter, trim, well_shaped,
};
use vstd::prelude::*;
use vstd::utf8::*;

verus! {

/// The counter value that a received payload carries: the payload is read
/// as UTF-8 text, whitespace around the text is dropped, and what is left
/// must be a decimal number that fits in 64 bits. A payload that is not
/// UTF-8, or whose text is no such number, carries no value.
pub open spec fn heartbeat_value(payload: Seq<u8>) -> Option<u64> {
    if valid_utf8(payload) {
        parse_counter(trim(decode_utf8(payload)))
    } else {
        None
    }
}

/// A payload whose well-shaped prefix is followed by a character that
/// breaks the shape, or by bytes that are no character, carries no value.
proof fn lemma_payload_rejected(
    payload: Seq<u8>,
    at: int,
    lead: Seq<char>,
    sign: Seq<char>,
    digits: Seq<char>,
    trail: Seq<char>,
)
    requires
        0 <= at < payload.len(),
        valid_utf8(payload.subrange(0, at)),
        decode_utf8(payload.subrange(0, at)) == lead + sign + digits + trail,
        well_shaped(lead, sign, digits, trail),
        valid_first_scalar(payload.subrange(at, payload.len() as int)) ==> breaks_shape(
            sign,
            digits,
            trail,
            decode_first_scalar(payload.subrange(at, payload.len() as int)) as char,
        ),
    ensures
        heartbeat_value(payload) is None,
{
    if valid_utf8(payload) {
        let rest = payload.subrange(at, payload.len() as int);
        lemma_text_around(payload, at);
        lemma_broken_shape_has_no_value(
            lead,
            sign,
            digits,
            trail,
            decode_first_scalar(rest) as char,
            decode_utf8(pop_first_scalar(rest)),
        );
    }
}

/// Reads the counter value out of a received payload.
pub fn decode_heartbeat(payload: &[u8]) -> (value: Option<u64>)
    ensures
        value == heartbeat_value(payload@),
{
    let len: usize = payload.len();
    let mut at: usize = 0;
    let mut signed: bool = false;
    let mut numbered: bool = false;
    let mut trailed: bool = false;
    let mut number: u64 = 0;
    let mut too_large: bool = false;
    let ghost mut lead: Seq<char> = Seq::empty();
    let ghost mut sign: Seq<char> = Seq::empty();
    let ghost mut digits: Seq<char> = Seq::empty();
    let ghost mut trail: Seq<char> = Seq::empty();
    proof {
        assert(payload@.subrange(0, 0) =~= Seq::<u8>::empty());
        assert(decode_utf8(Seq::<u8>::empty()) =~= Seq::<char>::empty());
        assert(lead + sign + digits + trail =~= Seq::<char>::empty());
    }
    while at < len
        invariant
            len == payload@.len(),
            at <= len,
            valid_utf8(payload@.subrange(0, at as int)),
            decode_utf8(payload@.subrange(0, at as int)) == lead + sign + digits + trail,
            well_shaped(lead, sign, digits, trail),
            signed <==> sign.len() > 0,
            numbered <==> digits.len() > 0,
            trailed <==> trail.len() > 0,
            !too_large ==> number == decimal_value(digits),
            too_large ==> decimal_value(digits) > u64::MAX,
        decreases len - at,
    {
        let byte: u8 = payload[at];
        let width: usize = whitespace_width_at(payload, at);
        let ghost rest = payload@.subrange(at as int, len as int);
        let ghost c: char = decode_first_scalar(rest) as char;
        let ghost before = lead + sign + digits + trail;
        proof {
            assert(rest[0] == byte);
            if width > 0 {
                lemma_whitespace_pattern_is_scalar(rest);
            }
            if byte < 0x80 {
                lemma_ascii_scalar(rest);
            }
            if valid_first_scalar(rest) {
                lemma_whitespace_scalar(rest);
                lemma_scalar_is_char(rest);
                if byte >= 0x80 {
                    lemma_wide_scalar_is_not_ascii(rest);
                }
            }
        }
        if width > 0 {
            if signed && !numbered {
                proof {
                    lemma_payload_rejected(payload@, at as int, lead, sign, digits, trail);
                }
                return None;
            }
            proof {
                lemma_read_scalar(payload@, at as int);
                if numbered {
                    trail = trail.push(c);
                    assert(lead + sign + digits + trail =~= before.push(c));
                } else {
                    lead = lead.push(c);
                    assert(lead + sign + digits + trail =~= before.push(c));
                }
            }
            trailed = numbered;
            at = at + width;
        } else if byte == 0x2B {
            if signed || numbered {
                proof {
                    lemma_payload_rejected(payload@, at as int, lead, sign, digits, trail);
                }
                return None;
            }
            proof {
                lemma_read_scalar(payload@, at as int);
                sign = seq![c];
                assert(lead + sign + digits + trail =~= before.push(c));
            }
            signed = true;
            at = at + 1;
        } else if 0x30 <= byte && byte <= 0x39 {
            if trailed {
                proof {
                    lemma_payload_rejected(payload@, at as int, lead, sign, digits, trail);
                }
                return None;
            }
            let digit: u64 = (byte - 0x30) as u64;
            proof {
                lemma_read_scalar(payload@, at as int);
                assert(digits.push(c).drop_last() =~= digits);
                assert(decimal_value(digits.push(c)) == 10 * decimal_value(digits) + digit);
                digits = digits.push(c);
                assert(lead + sign + digits + trail =~= before.push(c));
            }
            if !too_large {
                match number.checked_mul(10) {
                    Some(shifted) => match shifted.checked_add(digit) {
                        Some(next) => {
                            number = next;
                        },
                        None => {
                            too_large = true;
                        },
                    },
                    None => {
                        too_large = true;
                    },
                }
            }
            numbered = true;
            at = at + 1;
        } else {
            proof {
                lemma_payload_rejected(payload@, at as int, lead, sign, digits, trail);
            }
            return None;
        }
    }
    proof {
        assert(payload@.subrange(0, at as int) =~= payload@);
        lemma_shape_value(lead, sign, digits, trail);
    }
    if numbered && !too_large {
        Some(number)
    } else {
        None
    }
}

/// The payload of the heartbeat that announces `counter`: its digits in
/// base ten as ASCII, most significant first, with no sign, no padding and
/// no framing.
pub open spec fn heartbeat_payload(counter: nat) -> Seq<u8>
    decreases counter,
{
    if counter < 10 {
        seq![(0x30 + counter) as u8]
    } else {
        heartbeat_payload(counter / 10).push((0x30 + counter % 10) as u8)
    }
}

/// The largest payload that a receiver has to take in one datagram.
pub const MAX_HEARTBEAT_LEN: usize = 32;

/// The rendezvous address: the loopback endpoint that a backup binds and
/// that a primary sends its heartbeats to.
pub const RENDEZVOUS_ADDRESS: &'static str = "127.0.0.1:34254";

/// The address that a primary binds to send from: any free loopback port.
pub const SENDER_ADDRESS: &'static str = "127.0.0.1:0";

/// Appends the decimal digits of `counter` to `out`.
fn push_decimal(counter: u64, out: &mut Vec<u8>)
    ensures
        final(out)@ == old(out)@ + heartbeat_payload(counter as nat),
    decreases counter,
{
    if counter >= 10 {
        push_decimal(counter / 10, out);
    }
    let digit: u8 = (counter % 10) as u8;
    out.push(0x30 + digit);
    proof {
        if counter >= 10 {
            assert(out@ =~= old(out)@ + heartbeat_payload((counter / 10) as nat).push(
                (0x30 + counter % 10) as u8,
            ));
        } else {
            assert(out@ =~= old(out)@ + seq![(0x30 + counter) as u8]);
        }
    }
}

/// Writes the payload of the heartbeat that announces `counter`.
pub fn encode_heartbeat(counter: u64) -> (payload: Vec<u8>)
    ensures
        payload@ == heartbeat_payload(counter as nat),
        payload@.len() <= MAX_HEARTBEAT_LEN,
{
    let mut payload: Vec<u8> = Vec::new();
    push_decimal(counter, &mut payload);
    proof {
        assert(payload@ =~= heartbeat_payload(counter as nat));
        lemma_payload_fits(counter);
    }
    payload
}

/// Ten to the power `exponent`.
pub open spec fn ten_to(exponent: nat) -> nat
    decreases exponent,
{
    if exponent == 0 {
        1
    } else {
        10 * ten_to((exponent - 1) as nat)
    }
}

/// A number below ten to the power `width` is written with at most `width`
/// digits, and every number with at least one.
pub proof fn lemma_payload_len(counter: nat, width: nat)
    requires
        width >= 1,
        counter < ten_to(width),
    ensures
        1 <= heartbeat_payload(counter).len() <= width,
    decreases width,
{
    if counter >= 10 {
        if width == 1 {
            reveal_with_fuel(ten_to, 2);
        } else {
            lemma_payload_len(counter / 10, (width - 1) as nat);
        }
    }
}

/// The payload of every heartbeat has between one and twenty bytes, and so
/// fits in one datagram of `MAX_HEARTBEAT_LEN` bytes.
pub proof fn lemma_payload_fits(counter: u64)
    ensures
        1 <= heartbeat_payload(counter as nat).len() <= 20,
        heartbeat_payload(counter as nat).len() <= MAX_HEARTBEAT_LEN,
{
    assert(ten_to(20) == 100_000_000_000_000_000_000) by {
        reveal_with_fuel(ten_to, 21);
    }
    lemma_payload_len(counter as nat, 20);
}

/// The payload of a heartbeat is ASCII text made of digits only, and the
/// digits write the counter.
pub proof fn lemma_payload_text(counter: nat)
    ensures
        valid_utf8(heartbeat_payload(counter)),
        decode_utf8(heartbeat_payload(counter)).len() > 0,
        all_digits(decode_utf8(heartbeat_payload(counter))),
        decimal_value(decode_utf8(heartbeat_payload(counter))) == counter,
    decreases counter,
{
    let last: u8 = (0x30 + counter % 10) as u8;
    let one: Seq<u8> = seq![last];
    lemma_ascii_scalar(one);
    lemma_single_scalar(one);
    assert(take_first_scalar(one) =~= one);
    let c: char = decode_first_scalar(one) as char;
    assert(decode_utf8(one) == seq![c]);
    if counter < 10 {
        assert(heartbeat_payload(counter) =~= one);
        assert(seq![c].drop_last() =~= Seq::<char>::empty());
        assert(decimal_value(seq![c]) == counter) by {
            reveal_with_fuel(decimal_value, 2);
        }
    } else {
        let front = heartbeat_payload(counter / 10);
        lemma_payload_text(counter / 10);
        lemma_decode_concat(front, one);
        assert(front + one =~= heartbeat_payload(counter));
        let text = decode_utf8(front) + seq![c];
        assert(text.drop_last() =~= decode_utf8(front));
        assert(text.last() == c);
    }
}

/// Continuity across the wire: what `encode_heartbeat` writes for a counter
/// is read back by `decode_heartbeat` as that counter.
pub proof fn lemma_heartbeat_round_trip(counter: u64)
    ensures
        heartbeat_value(heartbeat_payload(counter as nat)) == Some(counter),
{
    lemma_payload_text(counter as nat);
    let text = decode_utf8(heartbeat_payload(counter as nat));
    let empty = Seq::<char>::empty();
    assert(empty + empty + text + empty =~= text);
    lemma_shape_value(empty, empty, text, empty);
}

} // verus!
