//! Character-level model of the text carried by a heartbeat: what counts as
//! surrounding whitespace, and how a trimmed text denotes a counter value.

use vstd::prelude::*;

verus! {

/// Whether `c` carries the Unicode `White_Space` property.
pub open spec fn is_whitespace(c: char) -> bool {
    let u = c as u32;
    ||| 0x09 <= u <= 0x0D
    ||| u == 0x20
    ||| u == 0x85
    ||| u == 0xA0
    ||| u == 0x1680
    ||| 0x2000 <= u <= 0x200A
    ||| u == 0x2028
    ||| u == 0x2029
    ||| u == 0x202F
    ||| u == 0x205F
    ||| u == 0x3000
}

/// Whether `c` is one of the ASCII digits `0` to `9`.
pub open spec fn is_digit(c: char) -> bool {
    0x30 <= c as u32 <= 0x39
}

/// Whether `c` is the ASCII plus sign.
pub open spec fn is_plus(c: char) -> bool {
    c as u32 == 0x2B
}

/// The number that the digit `c` stands for.
pub open spec fn digit_value(c: char) -> nat
    recommends
        is_digit(c),
{
    (c as u32 - 0x30) as nat
}

/// Whether every character of `s` is whitespace.
pub open spec fn is_blank(s: Seq<char>) -> bool {
    forall|i: int| 0 <= i < s.len() ==> is_whitespace(#[trigger] s[i])
}

/// Whether every character of `s` is a digit.
pub open spec fn all_digits(s: Seq<char>) -> bool {
    forall|i: int| 0 <= i < s.len() ==> is_digit(#[trigger] s[i])
}

/// `s` without its leading whitespace.
pub open spec fn trim_start(s: Seq<char>) -> Seq<char>
    decreases s.len(),
{
    if s.len() > 0 && is_whitespace(s[0]) {
        trim_start(s.drop_first())
    } else {
        s
    }
}

/// `s` without its trailing whitespace.
pub open spec fn trim_end(s: Seq<char>) -> Seq<char>
    decreases s.len(),
{
    if s.len() > 0 && is_whitespace(s.last()) {
        trim_end(s.drop_last())
    } else {
        s
    }
}

/// `s` without its leading and trailing whitespace.
pub open spec fn trim(s: Seq<char>) -> Seq<char> {
    trim_end(trim_start(s))
}

/// The number written by `digits` in base ten, most significant digit first.
pub open spec fn decimal_value(digits: Seq<char>) -> nat
    decreases digits.len(),
{
    if digits.len() == 0 {
        0
    } else {
        10 * decimal_value(digits.drop_last()) + digit_value(digits.last())
    }
}

/// `text` without one leading plus sign, if it has one.
pub open spec fn unsigned_part(text: Seq<char>) -> Seq<char> {
    if text.len() > 0 && is_plus(text[0]) {
        text.drop_first()
    } else {
        text
    }
}

/// The counter value that `text` denotes: an optional plus sign followed by
/// at least one digit and nothing else, the number fitting in 64 bits.
/// Any other text denotes no value.
pub open spec fn parse_counter(text: Seq<char>) -> Option<u64> {
    let digits = unsigned_part(text);
    if digits.len() > 0 && all_digits(digits) && decimal_value(digits) <= u64::MAX {
        Some(decimal_value(digits) as u64)
    } else {
        None
    }
}

/// The shape of a text that has been read without finding a fault so far:
/// whitespace, an optional plus sign, digits, whitespace. Whitespace after
/// the number requires a digit before it.
pub open spec fn well_shaped(
    lead: Seq<char>,
    sign: Seq<char>,
    digits: Seq<char>,
    trail: Seq<char>,
) -> bool {
    &&& is_blank(lead)
    &&& is_blank(trail)
    &&& all_digits(digits)
    &&& sign.len() <= 1
    &&& (sign.len() == 1 ==> is_plus(sign[0]))
    &&& (trail.len() > 0 ==> digits.len() > 0)
}

/// Whether the character `c` can no longer lead to a counter value when it
/// follows a text of the given shape.
pub open spec fn breaks_shape(sign: Seq<char>, digits: Seq<char>, trail: Seq<char>, c: char) -> bool {
    if trail.len() > 0 {
        !is_whitespace(c)
    } else if digits.len() > 0 {
        !is_whitespace(c) && !is_digit(c)
    } else if sign.len() > 0 {
        !is_digit(c)
    } else {
        !is_whitespace(c) && !is_digit(c) && !is_plus(c)
    }
}

/// Leading whitespace is all that `trim_start` removes: in front of a text
/// that is empty or starts with another character, a blank prefix vanishes.
pub proof fn lemma_trim_start_blank_prefix(blank: Seq<char>, rest: Seq<char>)
    requires
        is_blank(blank),
        rest.len() == 0 || !is_whitespace(rest[0]),
    ensures
        trim_start(blank + rest) == rest,
    decreases blank.len(),
{
    if blank.len() == 0 {
        assert(blank + rest =~= rest);
    } else {
        assert((blank + rest)[0] == blank[0]);
        assert((blank + rest).drop_first() =~= blank.drop_first() + rest);
        assert forall|i: int| 0 <= i < blank.drop_first().len() implies is_whitespace(
            #[trigger] blank.drop_first()[i],
        ) by {
            assert(blank.drop_first()[i] == blank[i + 1]);
        }
        lemma_trim_start_blank_prefix(blank.drop_first(), rest);
    }
}

/// Trailing whitespace is all that `trim_end` removes: behind a text that
/// is empty or ends with another character, a blank suffix vanishes.
pub proof fn lemma_trim_end_blank_suffix(rest: Seq<char>, blank: Seq<char>)
    requires
        is_blank(blank),
        rest.len() == 0 || !is_whitespace(rest.last()),
    ensures
        trim_end(rest + blank) == rest,
    decreases blank.len(),
{
    if blank.len() == 0 {
        assert(rest + blank =~= rest);
    } else {
        assert((rest + blank).last() == blank.last());
        assert((rest + blank).drop_last() =~= rest + blank.drop_last());
        assert forall|i: int| 0 <= i < blank.drop_last().len() implies is_whitespace(
            #[trigger] blank.drop_last()[i],
        ) by {
            assert(blank.drop_last()[i] == blank[i]);
        }
        lemma_trim_end_blank_suffix(rest, blank.drop_last());
    }
}

/// `trim_end` keeps a prefix of its argument, and that prefix reaches past
/// every character that is not whitespace.
pub proof fn lemma_trim_end_keeps_prefix(s: Seq<char>)
    ensures
        trim_end(s).len() <= s.len(),
        trim_end(s) == s.subrange(0, trim_end(s).len() as int),
        forall|j: int| 0 <= j < s.len() && !is_whitespace(#[trigger] s[j]) ==> j < trim_end(s).len(),
    decreases s.len(),
{
    if s.len() > 0 && is_whitespace(s.last()) {
        let shorter = s.drop_last();
        lemma_trim_end_keeps_prefix(shorter);
        let kept: int = trim_end(shorter).len() as int;
        assert(shorter.subrange(0, kept) =~= s.subrange(0, kept));
        assert forall|j: int| 0 <= j < s.len() && !is_whitespace(#[trigger] s[j]) implies j
            < trim_end(s).len() by {
            assert(j < s.len() - 1);
            assert(shorter[j] == s[j]);
        }
    } else {
        assert(s.subrange(0, s.len() as int) =~= s);
    }
}

/// A text of the accepted shape denotes the number that its digits write,
/// if it has digits and the number fits in 64 bits, and no value otherwise.
pub proof fn lemma_shape_value(
    lead: Seq<char>,
    sign: Seq<char>,
    digits: Seq<char>,
    trail: Seq<char>,
)
    requires
        well_shaped(lead, sign, digits, trail),
    ensures
        parse_counter(trim(lead + sign + digits + trail)) == if digits.len() > 0 && decimal_value(
            digits,
        ) <= u64::MAX {
            Some(decimal_value(digits) as u64)
        } else {
            None::<u64>
        },
{
    let core = sign + digits;
    let text = lead + sign + digits + trail;
    assert(text =~= lead + (core + trail));
    if core.len() > 0 {
        assert(!is_whitespace(core[0])) by {
            if sign.len() == 1 {
                assert(core[0] == sign[0]);
            } else {
                assert(core[0] == digits[0]);
            }
        }
        assert((core + trail)[0] == core[0]);
    } else {
        assert(trail.len() == 0);
    }
    lemma_trim_start_blank_prefix(lead, core + trail);
    if core.len() > 0 && digits.len() > 0 {
        assert(core.last() == digits.last());
    } else if core.len() > 0 {
        assert(core.last() == sign[0]);
    }
    lemma_trim_end_blank_suffix(core, trail);
    assert(trim(text) == core);
    if sign.len() == 1 {
        assert(core[0] == sign[0]);
        assert(core.drop_first() =~= digits);
    } else {
        assert(core =~= digits);
        if digits.len() > 0 {
            assert(is_digit(digits[0]));
        }
    }
    assert(unsigned_part(core) == digits);
}

/// Once a character breaks the accepted shape, no continuation of the text
/// denotes a counter value.
pub proof fn lemma_broken_shape_has_no_value(
    lead: Seq<char>,
    sign: Seq<char>,
    digits: Seq<char>,
    trail: Seq<char>,
    c: char,
    rest: Seq<char>,
)
    requires
        well_shaped(lead, sign, digits, trail),
        breaks_shape(sign, digits, trail, c),
    ensures
        parse_counter(trim(lead + sign + digits + trail + seq![c] + rest)) is None,
{
    let body = sign + digits + trail + seq![c] + rest;
    let text = lead + sign + digits + trail + seq![c] + rest;
    let at: int = (sign.len() + digits.len() + trail.len()) as int;
    assert(text =~= lead + body);
    assert(body[at] == c);
    assert(!is_whitespace(body[0])) by {
        if sign.len() == 1 {
            assert(body[0] == sign[0]);
        } else if digits.len() > 0 {
            assert(body[0] == digits[0]);
        } else {
            assert(body[0] == c);
        }
    }
    lemma_trim_start_blank_prefix(lead, body);
    lemma_trim_end_keeps_prefix(body);
    let kept = trim_end(body);
    assert(trim(text) == kept);
    assert(kept.len() > 0);
    assert(kept[0] == body[0]);
    let number = unsigned_part(kept);
    let skipped: int = if is_plus(kept[0]) { 1 } else { 0 };
    assert(forall|j: int| 0 <= j < number.len() ==> number[j] == body[j + skipped]);
    if number.len() > 0 && all_digits(number) {
        if trail.len() > 0 {
            // the whitespace before `c` lies inside the number
            let gap: int = (sign.len() + digits.len()) as int;
            assert(at < kept.len());
            assert(body[gap] == trail[0]);
            assert(is_digit(number[gap - skipped]));
            assert(false);
        } else if digits.len() > 0 {
            assert(at < kept.len());
            assert(is_digit(number[at - skipped]));
            assert(false);
        } else if sign.len() > 0 {
            assert(skipped == 1);
            assert(is_digit(number[0]));
            assert(body[1] == c);
            assert(false);
        } else {
            assert(skipped == 0);
            assert(is_digit(number[0]));
            assert(false);
        }
    }
}

} // verus!
