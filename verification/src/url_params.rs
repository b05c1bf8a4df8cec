use vstd::prelude::*;

verus! {

use vstd::string::StrSliceExecFns;

// The shareable-URL state: which item is planned and at what rate. Reading
// and writing the browser's address bar belongs to the presentation layer;
// this module holds the sanitizing logic that turns raw query values into
// parameters.

/// The value a decimal digit character stands for, or -1 for any other
/// character.
pub open spec fn digit_of(c: char) -> int {
    if c == '0' {
        0
    } else if c == '1' {
        1
    } else if c == '2' {
        2
    } else if c == '3' {
        3
    } else if c == '4' {
        4
    } else if c == '5' {
        5
    } else if c == '6' {
        6
    } else if c == '7' {
        7
    } else if c == '8' {
        8
    } else if c == '9' {
        9
    } else {
        -1
    }
}

pub open spec fn all_digits(s: Seq<char>) -> bool {
    forall|j: int| 0 <= j < s.len() ==> digit_of(#[trigger] s[j]) >= 0
}

/// The number a digit string denotes, most significant digit first.
pub open spec fn dec_value(s: Seq<char>) -> int
    recommends
        all_digits(s),
    decreases s.len(),
{
    if s.len() == 0 {
        0
    } else {
        dec_value(s.drop_last()) * 10 + digit_of(s.last())
    }
}

/// What `parse_u32` accepts: a non-empty string of decimal digits, with an
/// optional leading plus sign, whose value fits a machine word; anything
/// else parses to nothing.
pub open spec fn spec_parse_u32(s: Seq<char>) -> Option<u32> {
    let digits = if s.len() > 0 && s[0] == '+' {
        s.drop_first()
    } else {
        s
    };
    if digits.len() > 0 && all_digits(digits) && dec_value(digits) <= u32::MAX {
        Some(dec_value(digits) as u32)
    } else {
        None::<u32>
    }
}

pub proof fn lemma_dec_value_nonneg(s: Seq<char>)
    requires
        all_digits(s),
    ensures
        dec_value(s) >= 0,
    decreases s.len(),
{
    if s.len() > 0 {
        assert(forall|j: int|
            0 <= j < s.drop_last().len() ==> s.drop_last()[j] == s[j]);
        lemma_dec_value_nonneg(s.drop_last());
    }
}

/// A digit string denotes at least what any of its prefixes denotes.
pub proof fn lemma_dec_value_prefix(s: Seq<char>, i: int)
    requires
        all_digits(s),
        0 <= i <= s.len(),
    ensures
        dec_value(s.take(i)) <= dec_value(s),
    decreases s.len(),
{
    if i == s.len() {
        assert(s.take(i) =~= s);
    } else {
        assert(forall|j: int|
            0 <= j < s.drop_last().len() ==> s.drop_last()[j] == s[j]);
        assert(s.take(i) =~= s.drop_last().take(i));
        lemma_dec_value_prefix(s.drop_last(), i);
        lemma_dec_value_nonneg(s.drop_last());
    }
}

fn digit_value(c: char) -> (r: Option<u32>)
    ensures
        (match r {
            Some(d) => digit_of(c) == d && d < 10,
            None => digit_of(c) < 0,
        }),
{
    if c == '0' {
        Some(0)
    } else if c == '1' {
        Some(1)
    } else if c == '2' {
        Some(2)
    } else if c == '3' {
        Some(3)
    } else if c == '4' {
        Some(4)
    } else if c == '5' {
        Some(5)
    } else if c == '6' {
        Some(6)
    } else if c == '7' {
        Some(7)
    } else if c == '8' {
        Some(8)
    } else if c == '9' {
        Some(9)
    } else {
        None
    }
}

/// Parses a decimal machine word: accepts exactly the non-empty digit
/// strings whose value fits, with an optional leading plus sign, and yields
/// that value.
pub fn parse_u32(s: &str) -> (r: Option<u32>)
    ensures
        r == spec_parse_u32(s@),
{
    let len: usize = s.unicode_len();
    if len == 0 {
        return None;
    }
    let start: usize = if s.get_char(0) == '+' {
        1
    } else {
        0
    };
    let ghost digits = if s@[0] == '+' {
        s@.drop_first()
    } else {
        s@
    };
    proof {
        assert(digits.len() + start == len);
        assert(forall|k: int| 0 <= k < digits.len() ==> digits[k] == s@[k + start]);
    }
    if len == start {
        return None;
    }
    let mut acc: u32 = 0;
    let mut i: usize = start;
    proof {
        assert(digits.take(0) =~= Seq::<char>::empty());
    }
    while i < len
        invariant
            start <= i <= len,
            start <= 1,
            len == s@.len(),
            (digits == if s@.len() > 0 && s@[0] == '+' {
                s@.drop_first()
            } else {
                s@
            }),
            digits.len() + start == len,
            forall|k: int| 0 <= k < digits.len() ==> digits[k] == s@[k + start],
            all_digits(digits.take(i - start)),
            acc == dec_value(digits.take(i - start)),
        decreases len - i,
    {
        let c: char = s.get_char(i);
        proof {
            assert(digits[i - start] == s@[i as int]);
            assert(digits.take(i - start + 1).drop_last() =~= digits.take(i - start));
            assert(digits.take(i - start + 1).last() == digits[i - start]);
        }
        let d: u32 = match digit_value(c) {
            Some(d) => d,
            None => {
                proof {
                    assert(digit_of(digits[i - start]) < 0);
                    assert(!all_digits(digits));
                }
                return None;
            },
        };
        if acc > (u32::MAX - d) / 10 {
            proof {
                assert(dec_value(digits.take(i - start + 1)) > u32::MAX);
                assert(all_digits(digits.take(i - start + 1)));
                if all_digits(digits) {
                    assert(forall|j: int|
                        0 <= j < digits.take(i - start + 1).len() ==> digits.take(
                            i - start + 1,
                        )[j] == digits[j]);
                    lemma_dec_value_prefix(digits, i - start + 1);
                    assert(dec_value(digits) > u32::MAX);
                }
                assert(spec_parse_u32(s@) is None);
            }
            return None;
        }
        acc = acc * 10 + d;
        i = i + 1;
        proof {
            assert forall|j: int| 0 <= j < i - start implies digit_of(
                #[trigger] digits.take(i - start)[j],
            ) >= 0 by {
                assert(digits.take(i - start)[j] == digits.take((i - start - 1) + 1)[j]);
            }
        }
    }
    proof {
        assert(digits.take(len - start) =~= digits);
    }
    Some(acc)
}

/// URL parameters for production planning.
#[derive(Debug, Clone, Default)]
pub struct UrlParams {
    pub item: Option<String>,
    pub amount: Option<u32>,
}

impl UrlParams {
    /// Builds the parameters from raw query values: an empty item value
    /// counts as absent, and an amount is kept only when it parses as a
    /// positive decimal number.
    pub fn from_query_values(item: Option<String>, amount: Option<String>) -> (r: UrlParams)
        ensures
            (match item {
                Some(s) => if s@.len() > 0 {
                    r.item == Some(s)
                } else {
                    r.item is None
                },
                None => r.item is None,
            }),
            r.amount == (match amount {
                Some(a) => match spec_parse_u32(a@) {
                    Some(v) => if v > 0 {
                        Some(v)
                    } else {
                        None::<u32>
                    },
                    None => None::<u32>,
                },
                None => None::<u32>,
            }),
    {
        let kept_item: Option<String> = match item {
            Some(s) => {
                if s.as_str().unicode_len() > 0 {
                    Some(s)
                } else {
                    None
                }
            },
            None => None,
        };
        let kept_amount: Option<u32> = match amount {
            Some(a) => {
                match parse_u32(a.as_str()) {
                    Some(v) => {
                        if v > 0 {
                            Some(v)
                        } else {
                            None
                        }
                    },
                    None => None,
                }
            },
            None => None,
        };
        UrlParams { item: kept_item, amount: kept_amount }
    }
}

} // verus!
