//! Catalog entries for programs: a title, some presentation hints, and the
//! parsing of the tick-rate hint from its textual form.

use vstd::prelude::*;

verus! {

/// Per-program presentation hints from the catalog.
pub struct RomOptions {
    pub tickrate: u8,
    pub fill_color: Option<String>,
    pub background_color: Option<String>,
}

/// One catalog entry.
pub struct Rom {
    pub title: String,
    pub authors: Vec<String>,
    pub images: Vec<String>,
    pub desc: String,
    pub platform: String,
    pub options: RomOptions,
}

/// Whether every byte is an ASCII decimal digit.
pub open spec fn all_digits(s: Seq<u8>) -> bool {
    forall|k: int| 0 <= k < s.len() ==> 48 <= #[trigger] s[k] <= 57
}

/// The number a string of decimal digits denotes.
pub open spec fn digits_value(s: Seq<u8>) -> int
    decreases s.len(),
{
    if s.len() == 0 {
        0
    } else {
        digits_value(s.drop_last()) * 10 + (s.last() - 48)
    }
}

/// What parsing a byte out of decimal text yields: an optional leading plus
/// sign, then at least one digit, denoting a value that fits in a byte;
/// anything else is rejected.
pub open spec fn parse_u8_spec(s: Seq<u8>) -> Option<u8> {
    let digits = if s.len() > 0 && s[0] == 43 {
        s.drop_first()
    } else {
        s
    };
    if digits.len() > 0 && all_digits(digits) && digits_value(digits) <= 255 {
        Option::Some(digits_value(digits) as u8)
    } else {
        Option::None
    }
}

/// A digit string denotes a non-negative number.
proof fn lemma_digits_value_nonneg(s: Seq<u8>)
    requires
        all_digits(s),
    ensures
        digits_value(s) >= 0,
    decreases s.len(),
{
    if s.len() > 0 {
        assert forall|k: int| 0 <= k < s.drop_last().len() implies 48 <= #[trigger] s.drop_last()[k]
            <= 57 by {
            assert(s.drop_last()[k] == s[k]);
        }
        lemma_digits_value_nonneg(s.drop_last());
    }
}

/// Extending a digit string can only grow the number it denotes.
proof fn lemma_digits_value_monotone(s: Seq<u8>, j: int)
    requires
        all_digits(s),
        0 <= j <= s.len(),
    ensures
        digits_value(s) >= digits_value(s.take(j)),
    decreases s.len() - j,
{
    if j < s.len() {
        lemma_digits_value_monotone(s, j + 1);
        assert(s.take(j + 1).drop_last() =~= s.take(j));
        assert forall|k: int| 0 <= k < s.take(j).len() implies 48 <= #[trigger] s.take(j)[k]
            <= 57 by {
            assert(s.take(j)[k] == s[k]);
        }
        lemma_digits_value_nonneg(s.take(j));
        assert(digits_value(s.take(j + 1)) == digits_value(s.take(j)) * 10 + (s.take(j + 1).last()
            - 48));
    } else {
        assert(s.take(j) =~= s);
    }
}

impl RomOptions {
    /// The tick-rate hint read from its textual form: a decimal byte, with
    /// an optional leading plus sign; malformed or out-of-range text means
    /// the hint is absent and yields 0.
    pub fn parse_tickrate(text: &Vec<u8>) -> (r: u8)
        ensures
            r == match parse_u8_spec(text@) {
                Option::Some(v) => v,
                Option::None => 0u8,
            },
    {
        let ghost whole = text@;
        let start: usize = if text.len() > 0 && text[0] == 43 {
            1
        } else {
            0
        };
        let ghost digits = if start == 1 {
            whole.drop_first()
        } else {
            whole
        };
        proof {
            assert(digits =~= whole.subrange(start as int, whole.len() as int));
        }
        if text.len() == start {
            return 0;
        }
        let mut acc: u16 = 0;
        let mut k: usize = start;
        while k < text.len()
            invariant
                start <= k <= text@.len(),
                digits == text@.subrange(start as int, text@.len() as int),
                digits == (if text@.len() > 0 && text@[0] == 43 {
                    text@.drop_first()
                } else {
                    text@
                }),
                start == (if text@.len() > 0 && text@[0] == 43 {
                    1int
                } else {
                    0int
                }),
                start <= 1,
                acc <= 255,
                all_digits(digits.take(k - start)),
                acc == digits_value(digits.take(k - start)),
            decreases text@.len() - k,
        {
            let c = text[k];
            if c < 48 || c > 57 {
                proof {
                    assert(digits[k - start] == c);
                    assert(!all_digits(digits));
                }
                return 0;
            }
            let next = acc * 10 + (c - 48) as u16;
            proof {
                assert(digits.take(k - start + 1).drop_last() =~= digits.take(k - start));
                assert(digits[k - start] == c);
                assert(digits.take(k - start + 1).last() == c);
                assert forall|t: int| 0 <= t < k - start + 1 implies 48 <= #[trigger] digits.take(
                    k - start + 1,
                )[t] <= 57 by {
                    assert(digits.take(k - start + 1)[t] == digits[t]);
                    if t < k - start {
                        assert(digits.take(k - start)[t] == digits[t]);
                    }
                }
                assert(all_digits(digits.take(k - start + 1)));
                assert(digits_value(digits.take(k - start + 1)) == acc * 10 + (c - 48));
            }
            if next > 255 {
                proof {
                    if all_digits(digits) {
                        lemma_digits_value_monotone(digits, k - start + 1);
                    }
                }
                return 0;
            }
            acc = next;
            k = k + 1;
        }
        proof {
            assert(digits.take(text@.len() - start) =~= digits);
        }
        acc as u8
    }
}

} // verus!
