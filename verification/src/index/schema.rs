//! What the catalogue says of one setting of a tune.

use vstd::prelude::*;

verus! {

/// Identifies a tune. Deliberately a string holding an integer.
pub type TuneID = String;

/// Identifies a setting. Deliberately a string holding an integer.
pub type SettingID = String;

/// One version of a tune.
#[derive(Debug, Clone)]
pub struct Setting {
    pub tune_id: TuneID,
    pub meter: String,
    pub mode: String,
    pub abc: String,
    pub dance: String,
    pub contour: String,
}

/// The text of a setting, field by field.
pub struct SettingText {
    pub tune_id: Seq<char>,
    pub meter: Seq<char>,
    pub mode: Seq<char>,
    pub abc: Seq<char>,
    pub dance: Seq<char>,
    pub contour: Seq<char>,
}

impl View for Setting {
    type V = SettingText;

    open spec fn view(&self) -> SettingText {
        SettingText {
            tune_id: self.tune_id@,
            meter: self.meter@,
            mode: self.mode@,
            abc: self.abc@,
            dance: self.dance@,
            contour: self.contour@,
        }
    }
}

impl Setting {
    /// A copy with the same text in every field.
    pub fn duplicate(&self) -> (copy: Setting)
        ensures
            copy@ == self@,
    {
        Setting {
            tune_id: self.tune_id.clone(),
            meter: self.meter.clone(),
            mode: self.mode.clone(),
            abc: self.abc.clone(),
            dance: self.dance.clone(),
            contour: self.contour.clone(),
        }
    }
}

/// The value of a string of decimal digits.
pub open spec fn digits_value(digits: Seq<char>) -> int
    decreases digits.len(),
{
    if digits.len() == 0 {
        0
    } else {
        10 * digits_value(digits.drop_last()) + (digits.last() as int - '0' as int)
    }
}

/// Whether every character of `s` is a decimal digit.
pub open spec fn all_digits(s: Seq<char>) -> bool {
    forall|i: int| 0 <= i < s.len() ==> '0' <= #[trigger] s[i] <= '9'
}

/// The digits of an identifier: what follows its sign, if it has one.
pub open spec fn id_digits(id: Seq<char>) -> Seq<char> {
    if id.len() > 0 && (id[0] == '-' || id[0] == '+') {
        id.drop_first()
    } else {
        id
    }
}

/// The number an identifier holds: an optional sign and at least one decimal
/// digit, with a value that a 32-bit signed integer can hold. `None` for any other text.
pub open spec fn id_number(id: Seq<char>) -> Option<int> {
    let digits = id_digits(id);
    let magnitude = digits_value(digits);
    let value = if id.len() > 0 && id[0] == '-' {
        -magnitude
    } else {
        magnitude
    };
    if digits.len() > 0 && all_digits(digits) && i32::MIN <= value <= i32::MAX {
        Some(value)
    } else {
        None
    }
}

/// The value of a string of digits is not negative and only grows as digits are added.
pub proof fn lemma_digits_value_grows(digits: Seq<char>, n: int)
    requires
        all_digits(digits),
        0 <= n <= digits.len(),
    ensures
        0 <= digits_value(digits.subrange(0, n)) <= digits_value(digits),
    decreases digits.len() - n,
{
    if n == digits.len() {
        assert(digits.subrange(0, n) =~= digits);
        lemma_digits_value_nonnegative(digits);
    } else {
        lemma_digits_value_grows(digits, n + 1);
        let longer = digits.subrange(0, n + 1);
        assert(longer.drop_last() =~= digits.subrange(0, n));
        assert('0' <= longer.last() <= '9');
        lemma_digits_value_nonnegative(digits.subrange(0, n));
    }
}

/// The value of a string of digits is not negative.
pub proof fn lemma_digits_value_nonnegative(digits: Seq<char>)
    requires
        all_digits(digits),
    ensures
        0 <= digits_value(digits),
    decreases digits.len(),
{
    if digits.len() > 0 {
        lemma_digits_value_nonnegative(digits.drop_last());
        assert('0' <= digits.last() <= '9');
    }
}

/// Reads the number an identifier holds.
pub fn parse_id(id: &String) -> (number: Option<i32>)
    ensures
        match number {
            Some(n) => id_number(id@) == Some(n as int),
            None => id_number(id@) is None,
        },
{
    let ghost digits = id_digits(id@);
    let ghost skipped: int = id@.len() - digits.len();
    let ghost mut seen: int = 0;
    let mut negative = false;
    let mut magnitude: i64 = 0;
    let mut first = true;
    let mut any_digit = false;
    for c in it: id.as_str().chars()
        invariant
            it.seq() == id@,
            digits == id_digits(id@),
            skipped == id@.len() - digits.len(),
            0 <= skipped <= 1,
            negative == (it.index() > 0 && id@[0] == '-'),
            first == (it.index() == 0),
            it.index() > 0 ==> seen == it.index() - skipped,
            it.index() == 0 ==> seen == 0,
            any_digit == (seen > 0),
            forall|k: int| 0 <= k < seen ==> '0' <= #[trigger] digits[k] <= '9',
            0 <= seen <= digits.len(),
            magnitude == digits_value(digits.subrange(0, seen)),
            0 <= magnitude <= 0x8000_0000,
    {
        if first && (c == '-' || c == '+') {
            negative = c == '-';
            proof {
                assert(digits.subrange(0, 0) =~= Seq::<char>::empty());
            }
        } else {
            proof {
                assert(digits[seen] == c);
            }
            if !('0' <= c && c <= '9') {
                proof {
                    assert(!all_digits(digits));
                }
                return None;
            }
            let digit: i64 = (c as u32 - '0' as u32) as i64;
            let next: i64 = magnitude * 10 + digit;
            proof {
                let longer = digits.subrange(0, seen + 1);
                assert(longer.drop_last() =~= digits.subrange(0, seen));
                assert(longer.last() == c);
                assert(next == digits_value(longer));
            }
            if next > 0x8000_0000 {
                proof {
                    if all_digits(digits) {
                        lemma_digits_value_grows(digits, seen + 1);
                    }
                }
                return None;
            }
            magnitude = next;
            any_digit = true;
            proof {
                seen = seen + 1;
            }
        }
        first = false;
    }
    proof {
        assert(seen == digits.len());
        assert(digits.subrange(0, seen) =~= digits);
        assert(all_digits(digits));
    }
    if !any_digit {
        return None;
    }
    if negative {
        Some((-magnitude) as i32)
    } else if magnitude > 0x7fff_ffff {
        None
    } else {
        Some(magnitude as i32)
    }
}

} // verus!
