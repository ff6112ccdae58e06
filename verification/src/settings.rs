//! Settings that come as text.
use vstd::prelude::*;
use crate::probe::MAX_NPROBE;

verus! {

/// How many clusters are probed where the setting does not say.
pub const DEFAULT_NPROBE: usize = 48;

/// How many threads serve where the setting does not say.
pub const DEFAULT_WORKERS: usize = 2;

/// The port that is listened on where the setting does not say.
pub const DEFAULT_PORT: i32 = 8080;

/// The number that a string of ASCII digits spells.
pub open spec fn decimal_value(digits: Seq<char>) -> nat
    decreases digits.len(),
{
    if digits.len() == 0 {
        0
    } else {
        decimal_value(digits.drop_last()) * 10 + (digits.last() as int - '0' as int) as nat
    }
}

/// The text without a leading plus sign.
pub open spec fn without_plus(text: Seq<char>) -> Seq<char> {
    if text.len() > 0 && text[0] == '+' {
        text.drop_first()
    } else {
        text
    }
}

/// Whether a text has characters, all of them ASCII digits.
pub open spec fn all_digits(text: Seq<char>) -> bool {
    text.len() > 0 && forall|i: int| 0 <= i < text.len() ==> '0' <= #[trigger] text[i] <= '9'
}

/// The number that a text stands for: digits, perhaps behind a plus sign, that
/// spell a machine-size number.
pub open spec fn number_of(text: Seq<char>) -> Option<usize> {
    let digits = without_plus(text);
    if all_digits(digits) && decimal_value(digits) <= usize::MAX {
        Some(decimal_value(digits) as usize)
    } else {
        None
    }
}

/// The signed number that a text stands for: digits, perhaps behind a plus or a
/// minus sign, that spell a 32-bit number.
pub open spec fn signed_number_of(text: Seq<char>) -> Option<i32> {
    let negative = text.len() > 0 && text[0] == '-';
    let digits = if negative {
        text.drop_first()
    } else {
        without_plus(text)
    };
    let value = if negative {
        -decimal_value(digits)
    } else {
        decimal_value(digits) as int
    };
    if all_digits(digits) && i32::MIN <= value <= i32::MAX {
        Some(value as i32)
    } else {
        None
    }
}

/// Calls `str::parse` for `usize`, which reads an optional plus sign followed by
/// decimal digits and nothing else, and fails where there are no digits or the
/// number is too large.
#[verifier::external_body]
fn parse_number(text: &str) -> (r: Option<usize>)
    ensures
        r == number_of(text@),
{
    text.parse::<usize>().ok()
}

/// Calls `str::parse` for `i32`, which reads an optional plus or minus sign
/// followed by decimal digits and nothing else, and fails where there are no
/// digits or the number does not fit.
#[verifier::external_body]
fn parse_signed_number(text: &str) -> (r: Option<i32>)
    ensures
        r == signed_number_of(text@),
{
    text.parse::<i32>().ok()
}

/// The number that a setting gives, if it is there and is one.
pub open spec fn setting_number(setting: Option<&str>) -> Option<usize> {
    match setting {
        Some(text) => number_of(text@),
        None => None,
    }
}

/// How many clusters to probe with a setting.
pub open spec fn nprobe_of(setting: Option<&str>) -> usize {
    let wanted = match setting_number(setting) {
        Some(n) => n,
        None => DEFAULT_NPROBE,
    };
    if wanted < 1 {
        1
    } else if wanted > MAX_NPROBE {
        MAX_NPROBE
    } else {
        wanted
    }
}

/// How many threads serve with a setting.
pub open spec fn workers_of(setting: Option<&str>) -> usize {
    match setting_number(setting) {
        Some(n) => n,
        None => DEFAULT_WORKERS,
    }
}

/// The port to listen on with a setting.
pub open spec fn port_of(setting: Option<&str>) -> i32 {
    match setting {
        Some(text) => match signed_number_of(text@) {
            Some(n) => n,
            None => DEFAULT_PORT,
        },
        None => DEFAULT_PORT,
    }
}

fn read_setting(setting: Option<&str>, default: usize) -> (r: usize)
    ensures
        r == match setting_number(setting) {
            Some(n) => n,
            None => default,
        },
{
    match setting {
        Some(text) => match parse_number(text) {
            Some(n) => n,
            None => default,
        },
        None => default,
    }
}

/// How many clusters to probe: what the setting says, brought into the range
/// from one to all.
pub fn nprobe_setting(setting: Option<&str>) -> (r: usize)
    ensures
        ({
            let wanted = match setting_number(setting) {
                Some(n) => n,
                None => DEFAULT_NPROBE,
            };
            r == if wanted < 1 {
                1
            } else if wanted > MAX_NPROBE {
                MAX_NPROBE
            } else {
                wanted
            }
        }),
        1 <= r <= MAX_NPROBE,
        r == nprobe_of(setting),
{
    let wanted: usize = read_setting(setting, DEFAULT_NPROBE);
    if wanted < 1 {
        1
    } else if wanted > MAX_NPROBE {
        MAX_NPROBE
    } else {
        wanted
    }
}

/// How many threads serve.
pub fn workers_setting(setting: Option<&str>) -> (r: usize)
    ensures
        r == match setting_number(setting) {
            Some(n) => n,
            None => DEFAULT_WORKERS,
        },
        r == workers_of(setting),
{
    read_setting(setting, DEFAULT_WORKERS)
}

/// The port to listen on.
pub fn port_setting(setting: Option<&str>) -> (r: i32)
    ensures
        r == match setting {
            Some(text) => match signed_number_of(text@) {
                Some(n) => n,
                None => DEFAULT_PORT,
            },
            None => DEFAULT_PORT,
        },
        r == port_of(setting),
{
    match setting {
        Some(text) => match parse_signed_number(text) {
            Some(n) => n,
            None => DEFAULT_PORT,
        },
        None => DEFAULT_PORT,
    }
}

/// Without a setting, or with one that is no number, 48 clusters are probed, two
/// threads serve, and the port is 8080.
pub proof fn unreadable_settings_give_defaults(setting: Option<&str>)
    ensures
        setting is None || number_of(setting->0@) is None ==> nprobe_of(setting) == 48
            && workers_of(setting) == 2,
        setting is None || signed_number_of(setting->0@) is None ==> port_of(setting) == 8080,
{
}

/// A setting that is a number is followed. Only the number of clusters is limited:
/// to one from below and to 8192 from above.
pub proof fn readable_settings_are_followed(text: &str)
    ensures
        number_of(text@) matches Some(n) ==> workers_of(Some(text)) == n,
        number_of(text@) matches Some(n) ==> (1 <= n <= 8192 ==> nprobe_of(Some(text)) == n),
        number_of(text@) matches Some(n) ==> (n == 0 ==> nprobe_of(Some(text)) == 1),
        number_of(text@) matches Some(n) ==> (n > 8192 ==> nprobe_of(Some(text)) == 8192),
        signed_number_of(text@) matches Some(n) ==> port_of(Some(text)) == n,
{
}

proof fn lemma_one_digit(c: char)
    ensures
        decimal_value(seq![c]) == (c as int - 48) as nat,
        all_digits(seq![c]) <==> '0' <= c <= '9',
{
    assert(seq![c].drop_last() =~= Seq::empty());
    assert(decimal_value(Seq::empty()) == 0);
    assert(seq![c][0] == c);
}

proof fn lemma_digit_behind(digits: Seq<char>, c: char)
    requires
        digits.len() > 0,
    ensures
        all_digits(digits.push(c)) <==> all_digits(digits) && '0' <= c <= '9',
        '0' <= c <= '9' ==> decimal_value(digits.push(c)) == 10 * decimal_value(digits) + (c as int
            - 48),
{
    assert(digits.push(c).drop_last() =~= digits);
    if all_digits(digits.push(c)) {
        assert forall|i: int| 0 <= i < digits.len() implies '0' <= #[trigger] digits[i] <= '9' by {
            assert(digits.push(c)[i] == digits[i]);
        }
        assert(digits.push(c)[digits.len() as int] == c);
    }
    if all_digits(digits) && '0' <= c <= '9' {
        assert forall|i: int| 0 <= i < digits.push(c).len() implies '0' <= #[trigger] digits.push(
            c,
        )[i] <= '9' by {
            if i < digits.len() {
                assert(digits.push(c)[i] == digits[i]);
            }
        }
    }
}

/// No text and a sign alone are no number, and one character is if it is a digit,
/// with a plus sign before it or not.
pub proof fn shortest_numbers(c: char)
    ensures
        number_of(Seq::empty()) is None,
        '0' <= c <= '9' ==> number_of(seq![c]) == Some((c as int - 48) as usize),
        '0' <= c <= '9' ==> number_of(seq!['+', c]) == Some((c as int - 48) as usize),
        !('0' <= c <= '9') ==> number_of(seq![c]) is None,
        !('0' <= c <= '9') ==> number_of(seq!['+', c]) is None,
{
    lemma_one_digit(c);
    assert(seq!['+', c].drop_first() =~= seq![c]);
    if c == '+' {
        assert(seq![c].drop_first().len() == 0);
    }
}

/// A digit behind a number makes it ten times as large and adds its worth, if that
/// still fits. Any other character, and any behind what is no number, gives none.
pub proof fn number_grows_by_its_digits(text: Seq<char>, c: char)
    requires
        text.len() > 0,
        text != seq!['+'],
    ensures
        number_of(text) matches Some(n) ==> ('0' <= c <= '9' && 10 * n + (c as int - 48)
            <= usize::MAX ==> number_of(text.push(c)) == Some(
            (10 * n + (c as int - 48)) as usize,
        )),
        number_of(text) matches Some(n) ==> (!('0' <= c <= '9') || 10 * n + (c as int - 48)
            > usize::MAX ==> number_of(text.push(c)) is None),
        number_of(text) is None ==> number_of(text.push(c)) is None,
{
    let digits = without_plus(text);
    if text[0] == '+' {
        assert(text.push(c).drop_first() =~= digits.push(c));
        if digits.len() == 0 {
            assert(text =~= seq!['+']);
        }
    }
    assert(without_plus(text.push(c)) =~= digits.push(c));
    lemma_digit_behind(digits, c);
}

/// The same of signed numbers: no text and a sign alone are none, and one character
/// is one if it is a digit, with a sign before it or not.
pub proof fn shortest_signed_numbers(c: char)
    ensures
        signed_number_of(Seq::empty()) is None,
        '0' <= c <= '9' ==> signed_number_of(seq![c]) == Some((c as int - 48) as i32),
        '0' <= c <= '9' ==> signed_number_of(seq!['+', c]) == Some((c as int - 48) as i32),
        '0' <= c <= '9' ==> signed_number_of(seq!['-', c]) == Some((48 - c as int) as i32),
        !('0' <= c <= '9') ==> signed_number_of(seq![c]) is None,
        !('0' <= c <= '9') ==> signed_number_of(seq!['+', c]) is None,
        !('0' <= c <= '9') ==> signed_number_of(seq!['-', c]) is None,
{
    lemma_one_digit(c);
    assert(seq!['+', c].drop_first() =~= seq![c]);
    assert(seq!['-', c].drop_first() =~= seq![c]);
    if c == '+' || c == '-' {
        assert(seq![c].drop_first().len() == 0);
    }
}

/// A digit behind a signed number makes it ten times as large and adds its worth, or
/// takes it off behind a minus sign, if that still fits. Any other character, and
/// any behind what is no number, gives none.
pub proof fn signed_number_grows_by_its_digits(text: Seq<char>, c: char)
    requires
        text.len() > 0,
        text != seq!['+'],
        text != seq!['-'],
    ensures
        ({
            let step = if text[0] == '-' {
                48 - c as int
            } else {
                c as int - 48
            };
            match signed_number_of(text) {
                Some(n) => signed_number_of(text.push(c)) == if '0' <= c <= '9' && i32::MIN <= 10
                    * n + step <= i32::MAX {
                    Some((10 * n + step) as i32)
                } else {
                    None
                },
                None => signed_number_of(text.push(c)) is None,
            }
        }),
{
    let negative = text[0] == '-';
    let digits = if negative {
        text.drop_first()
    } else {
        without_plus(text)
    };
    if digits.len() == 0 {
        if negative {
            assert(text =~= seq!['-']);
        } else {
            assert(text =~= seq!['+']);
        }
    }
    if negative || text[0] == '+' {
        assert(text.push(c).drop_first() =~= digits.push(c));
    }
    assert(text.push(c)[0] == text[0]);
    lemma_digit_behind(digits, c);
}

} // verus!
