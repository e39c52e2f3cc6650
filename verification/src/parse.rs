//! JSON parsing primitives for the inbound wire messages.
//!
//! Every executable parser returns exactly what its spec-level counterpart
//! describes, so the contracts of the message parsers in [`crate::codec`]
//! pin the accepted language down completely.

use vstd::prelude::*;

verus! {

/// JSON insignificant whitespace.
pub open spec fn is_ws(b: u8) -> bool {
    b == 32 || b == 9 || b == 10 || b == 13
}

/// An ASCII decimal digit.
pub open spec fn is_digit(b: u8) -> bool {
    48 <= b && b <= 57
}

/// The first position at or after `i` holding no whitespace (or the end).
pub open spec fn ws_end(s: Seq<u8>, i: int) -> int
    decreases s.len() - i,
{
    if 0 <= i < s.len() && is_ws(s[i]) {
        ws_end(s, i + 1)
    } else {
        i
    }
}

/// Advances past whitespace.
pub fn skip_ws(s: &[u8], i: usize) -> (r: usize)
    requires
        i <= s@.len(),
    ensures
        r == ws_end(s@, i as int),
        i <= r <= s@.len(),
{
    let mut j = i;
    while j < s.len() && (s[j] == 32 || s[j] == 9 || s[j] == 10 || s[j] == 13)
        invariant
            i <= j <= s@.len(),
            ws_end(s@, i as int) == ws_end(s@, j as int),
        decreases s@.len() - j,
    {
        j = j + 1;
    }
    j
}

/// The first position at or after `i` holding no decimal digit (or the end).
pub open spec fn digits_end(s: Seq<u8>, i: int) -> int
    decreases s.len() - i,
{
    if 0 <= i < s.len() && is_digit(s[i]) {
        digits_end(s, i + 1)
    } else {
        i
    }
}

/// The value of a digit string, most significant digit first.
pub open spec fn dec_val(ds: Seq<u8>) -> nat
    decreases ds.len(),
{
    if ds.len() == 0 {
        0
    } else {
        dec_val(ds.drop_last()) * 10 + (if ds.last() >= 48 {
            (ds.last() - 48) as nat
        } else {
            0
        })
    }
}

/// A JSON unsigned integer at `i`: one or more digits, no leading zero,
/// value at most `u64::MAX`. Yields the value and the position after it.
pub open spec fn spec_parse_u64(s: Seq<u8>, i: int) -> Option<(u64, int)> {
    if 0 <= i < s.len() && is_digit(s[i]) {
        let e = digits_end(s, i);
        let v = dec_val(s.subrange(i, e));
        if s[i] == 48 && e != i + 1 {
            None
        } else if v <= u64::MAX {
            Some(((v as u64), e))
        } else {
            None
        }
    } else {
        None
    }
}

/// Parses a JSON unsigned integer.
pub fn parse_u64(s: &[u8], i: usize) -> (r: Option<(u64, usize)>)
    requires
        i <= s@.len(),
    ensures
        (match r {
            Option::Some((v, e)) => spec_parse_u64(s@, i as int) == Some((v, e as int)) && i < e
                <= s@.len(),
            Option::None => spec_parse_u64(s@, i as int) is None,
        }),
{
    if !(i < s.len() && 48 <= s[i] && s[i] <= 57) {
        return None;
    }
    let mut j = i;
    let mut acc: u64 = 0;
    let mut over = false;
    while j < s.len() && 48 <= s[j] && s[j] <= 57
        invariant
            i <= j <= s@.len(),
            digits_end(s@, i as int) == digits_end(s@, j as int),
            !over ==> acc == dec_val(s@.subrange(i as int, j as int)),
            over ==> dec_val(s@.subrange(i as int, j as int)) > u64::MAX,
        decreases s@.len() - j,
    {
        let d = s[j] - 48;
        proof {
            assert(s@.subrange(i as int, j + 1 as int).drop_last() =~= s@.subrange(
                i as int,
                j as int,
            ));
        }
        if over {
            proof {
                assert(dec_val(s@.subrange(i as int, j + 1 as int)) > u64::MAX);
            }
        } else {
            match acc.checked_mul(10) {
                Option::Some(m) => {
                    match m.checked_add(d as u64) {
                        Option::Some(a) => {
                            acc = a;
                        },
                        Option::None => {
                            over = true;
                        },
                    }
                },
                Option::None => {
                    over = true;
                },
            }
        }
        j = j + 1;
    }
    proof {
        assert(digits_end(s@, j as int) == j as int);
    }
    if over {
        return None;
    }
    if s[i] == 48 && j != i + 1 {
        return None;
    }
    Some((acc, j))
}

// ---------------------------------------------------------------------------
// Strings
// ---------------------------------------------------------------------------

/// The value of one hexadecimal digit, upper or lower case.
pub open spec fn hex_val(b: u8) -> Option<int> {
    if 48 <= b && b <= 57 {
        Some((b - 48) as int)
    } else if 97 <= b && b <= 102 {
        Some((b - 87) as int)
    } else if 65 <= b && b <= 70 {
        Some((b - 55) as int)
    } else {
        None
    }
}

/// The value of four hexadecimal digits at `i`.
pub open spec fn hex4_val(s: Seq<u8>, i: int) -> Option<int> {
    if 0 <= i && i + 4 <= s.len() {
        match (hex_val(s[i]), hex_val(s[i + 1]), hex_val(s[i + 2]), hex_val(s[i + 3])) {
            (Some(a), Some(b), Some(c), Some(d)) => Some(a * 4096 + b * 256 + c * 16 + d),
            _ => None,
        }
    } else {
        None
    }
}

/// The value of one hexadecimal digit, executable.
fn hex_digit_val(b: u8) -> (r: Option<u8>)
    ensures
        (match r {
            Option::Some(v) => hex_val(b) == Some(v as int),
            Option::None => hex_val(b) is None,
        }),
{
    if 48 <= b && b <= 57 {
        Some(b - 48)
    } else if 97 <= b && b <= 102 {
        Some(b - 87)
    } else if 65 <= b && b <= 70 {
        Some(b - 55)
    } else {
        None
    }
}

/// Reads four hexadecimal digits at `i`.
fn parse_hex4(s: &[u8], i: usize) -> (r: Option<u32>)
    ensures
        (match r {
            Option::Some(v) => hex4_val(s@, i as int) == Some(v as int) && v < 0x10000 && i + 4
                <= s@.len(),
            Option::None => hex4_val(s@, i as int) is None,
        }),
{
    if i >= s.len() || s.len() - i < 4 {
        return None;
    }
    let a = match hex_digit_val(s[i]) {
        Option::Some(v) => v,
        Option::None => {
            return None;
        },
    };
    let b = match hex_digit_val(s[i + 1]) {
        Option::Some(v) => v,
        Option::None => {
            return None;
        },
    };
    let c = match hex_digit_val(s[i + 2]) {
        Option::Some(v) => v,
        Option::None => {
            return None;
        },
    };
    let d = match hex_digit_val(s[i + 3]) {
        Option::Some(v) => v,
        Option::None => {
            return None;
        },
    };
    Some((a as u32) * 4096 + (b as u32) * 256 + (c as u32) * 16 + (d as u32))
}

/// The UTF-8 encoding of one Unicode scalar value.
pub open spec fn utf8_enc(v: int) -> Seq<u8> {
    if v < 0x80 {
        seq![v as u8]
    } else if v < 0x800 {
        seq![(192 + v / 64) as u8, (128 + v % 64) as u8]
    } else if v < 0x10000 {
        seq![(224 + v / 4096) as u8, (128 + (v / 64) % 64) as u8, (128 + v % 64) as u8]
    } else {
        seq![
            (240 + v / 262144) as u8,
            (128 + (v / 4096) % 64) as u8,
            (128 + (v / 64) % 64) as u8,
            (128 + v % 64) as u8,
        ]
    }
}

/// Appends the UTF-8 encoding of one Unicode scalar value.
fn push_utf8(out: &mut Vec<u8>, v: u32)
    requires
        v < 0x110000,
    ensures
        final(out)@ == old(out)@ + utf8_enc(v as int),
{
    if v < 0x80 {
        out.push(v as u8);
    } else if v < 0x800 {
        out.push(192 + (v / 64) as u8);
        out.push(128 + (v % 64) as u8);
    } else if v < 0x10000 {
        out.push(224 + (v / 4096) as u8);
        out.push(128 + ((v / 64) % 64) as u8);
        out.push(128 + (v % 64) as u8);
    } else {
        out.push(240 + (v / 262144) as u8);
        out.push(128 + ((v / 4096) % 64) as u8);
        out.push(128 + ((v / 64) % 64) as u8);
        out.push(128 + (v % 64) as u8);
    }
    proof {
        assert(out@ =~= old(out)@ + utf8_enc(v as int));
    }
}

/// The body of a JSON string from position `i` (after the opening quote),
/// accumulating the unescaped bytes in `acc`. Yields the content and the
/// position after the closing quote. Unescaped control characters, bad
/// escapes and lone surrogates are rejected.
pub open spec fn parse_str_body(s: Seq<u8>, i: int, acc: Seq<u8>) -> Option<(Seq<u8>, int)>
    decreases s.len() - i,
{
    if !(0 <= i < s.len()) {
        None
    } else if s[i] == 34 {
        Some((acc, i + 1))
    } else if s[i] == 92 {
        if i + 1 >= s.len() {
            None
        } else {
            let c = s[i + 1];
            if c == 34 {
                parse_str_body(s, i + 2, acc.push(34))
            } else if c == 92 {
                parse_str_body(s, i + 2, acc.push(92))
            } else if c == 47 {
                parse_str_body(s, i + 2, acc.push(47))
            } else if c == 98 {
                parse_str_body(s, i + 2, acc.push(8))
            } else if c == 102 {
                parse_str_body(s, i + 2, acc.push(12))
            } else if c == 110 {
                parse_str_body(s, i + 2, acc.push(10))
            } else if c == 114 {
                parse_str_body(s, i + 2, acc.push(13))
            } else if c == 116 {
                parse_str_body(s, i + 2, acc.push(9))
            } else if c == 117 {
                match hex4_val(s, i + 2) {
                    Option::None => None,
                    Option::Some(v) => {
                        if 0xD800 <= v < 0xDC00 {
                            if i + 12 <= s.len() && s[i + 6] == 92 && s[i + 7] == 117 {
                                match hex4_val(s, i + 8) {
                                    Option::None => None,
                                    Option::Some(w) => {
                                        if 0xDC00 <= w < 0xE000 {
                                            parse_str_body(
                                                s,
                                                i + 12,
                                                acc + utf8_enc(
                                                    0x10000 + (v - 0xD800) * 0x400 + (w - 0xDC00),
                                                ),
                                            )
                                        } else {
                                            None
                                        }
                                    },
                                }
                            } else {
                                None
                            }
                        } else if 0xDC00 <= v < 0xE000 {
                            None
                        } else {
                            parse_str_body(s, i + 6, acc + utf8_enc(v))
                        }
                    },
                }
            } else {
                None
            }
        }
    } else if s[i] < 32 {
        None
    } else {
        parse_str_body(s, i + 1, acc.push(s[i]))
    }
}

/// A JSON string at `i`: an opening quote, the body, a closing quote.
pub open spec fn spec_parse_string(s: Seq<u8>, i: int) -> Option<(Seq<u8>, int)> {
    if 0 <= i < s.len() && s[i] == 34 {
        parse_str_body(s, i + 1, Seq::empty())
    } else {
        None
    }
}

/// Parses a JSON string, yielding its unescaped content bytes and the
/// position after the closing quote.
pub fn parse_string(s: &[u8], i: usize) -> (r: Option<(Vec<u8>, usize)>)
    requires
        i <= s@.len(),
    ensures
        (match r {
            Option::Some((c, e)) => spec_parse_string(s@, i as int) == Some((c@, e as int)) && i + 1
                < e <= s@.len(),
            Option::None => spec_parse_string(s@, i as int) is None,
        }),
{
    if !(i < s.len() && s[i] == 34) {
        return None;
    }
    let mut acc: Vec<u8> = Vec::new();
    let mut j = i + 1;
    loop
        invariant
            i < s@.len(),
            s@[i as int] == 34,
            i + 1 <= j <= s@.len(),
            parse_str_body(s@, i + 1 as int, Seq::empty()) == parse_str_body(
                s@,
                j as int,
                acc@,
            ),
        decreases s@.len() - j,
    {
        if j >= s.len() {
            proof {
                assert(parse_str_body(s@, j as int, acc@) is None);
            }
            return None;
        }
        let b = s[j];
        if b == 34 {
            proof {
                assert(parse_str_body(s@, j as int, acc@) == Some((acc@, j + 1 as int)));
            }
            return Some((acc, j + 1));
        } else if b == 92 {
            if j + 1 >= s.len() {
                return None;
            }
            let c = s[j + 1];
            if c == 34 || c == 92 || c == 47 || c == 98 || c == 102 || c == 110 || c == 114 || c
                == 116 {
                let unescaped: u8 = if c == 34 {
                    34
                } else if c == 92 {
                    92
                } else if c == 47 {
                    47
                } else if c == 98 {
                    8
                } else if c == 102 {
                    12
                } else if c == 110 {
                    10
                } else if c == 114 {
                    13
                } else {
                    9
                };
                proof {
                    assert(parse_str_body(s@, j as int, acc@) == parse_str_body(
                        s@,
                        j + 2 as int,
                        acc@.push(unescaped),
                    ));
                }
                acc.push(unescaped);
                j = j + 2;
            } else if c == 117 {
                let v = match parse_hex4(s, j + 2) {
                    Option::Some(v) => v,
                    Option::None => {
                        proof {
                            assert(parse_str_body(s@, j as int, acc@) is None);
                        }
                        return None;
                    },
                };
                if 0xD800 <= v && v < 0xDC00 {
                    if s.len() - j >= 12 && s[j + 6] == 92 && s[j + 7] == 117 {
                        let w = match parse_hex4(s, j + 8) {
                            Option::Some(w) => w,
                            Option::None => {
                                proof {
                                    assert(parse_str_body(s@, j as int, acc@) is None);
                                }
                                return None;
                            },
                        };
                        if 0xDC00 <= w && w < 0xE000 {
                            let scalar = 0x10000 + (v - 0xD800) * 0x400 + (w - 0xDC00);
                            proof {
                                assert(scalar as int == 0x10000 + (v as int - 0xD800) * 0x400 + (
                                w as int - 0xDC00));
                                assert(parse_str_body(s@, j as int, acc@) == parse_str_body(
                                    s@,
                                    j + 12 as int,
                                    acc@ + utf8_enc(scalar as int),
                                ));
                            }
                            push_utf8(&mut acc, scalar);
                            j = j + 12;
                        } else {
                            return None;
                        }
                    } else {
                        return None;
                    }
                } else if 0xDC00 <= v && v < 0xE000 {
                    return None;
                } else {
                    proof {
                        assert(parse_str_body(s@, j as int, acc@) == parse_str_body(
                            s@,
                            j + 6 as int,
                            acc@ + utf8_enc(v as int),
                        ));
                    }
                    push_utf8(&mut acc, v);
                    j = j + 6;
                }
            } else {
                return None;
            }
        } else if b < 32 {
            return None;
        } else {
            proof {
                assert(parse_str_body(s@, j as int, acc@) == parse_str_body(
                    s@,
                    j + 1 as int,
                    acc@.push(b),
                ));
            }
            acc.push(b);
            j = j + 1;
        }
    }
}

/// Compares two byte strings.
pub fn bytes_eq(a: &[u8], b: &[u8]) -> (r: bool)
    ensures
        r == (a@ == b@),
{
    if a.len() != b.len() {
        proof {
            assert(a@ != b@);
        }
        return false;
    }
    let mut k: usize = 0;
    while k < a.len()
        invariant
            k <= a@.len(),
            a@.len() == b@.len(),
            forall|m: int| 0 <= m < k ==> a@[m] == b@[m],
        decreases a@.len() - k,
    {
        if a[k] != b[k] {
            proof {
                assert(a@ != b@);
            }
            return false;
        }
        k = k + 1;
    }
    proof {
        assert(a@ =~= b@);
    }
    true
}


// ---------------------------------------------------------------------------
// Skipping unknown values
// ---------------------------------------------------------------------------

/// A character that may appear in a number token. The skipper lexes number
/// shapes loosely; the members the protocol reads are parsed strictly by
/// [`spec_parse_u64`].
pub open spec fn is_num_char(b: u8) -> bool {
    is_digit(b) || b == 43 || b == 45 || b == 46 || b == 101 || b == 69
}

/// The first position at or after `i` holding no number character.
pub open spec fn num_end(s: Seq<u8>, i: int) -> int
    decreases s.len() - i,
{
    if 0 <= i < s.len() && is_num_char(s[i]) {
        num_end(s, i + 1)
    } else {
        i
    }
}

/// The position after one JSON value of any shape at `i`, or `None` when no
/// value can be read there.
pub open spec fn spec_skip_value(s: Seq<u8>, i: int) -> Option<int>
    decreases s.len() - i, 0int,
{
    if !(0 <= i < s.len()) {
        None
    } else {
        let b = s[i];
        if b == 34 {
            match spec_parse_string(s, i) {
                Option::Some((c, e)) => Some(e),
                Option::None => None,
            }
        } else if is_digit(b) || b == 45 {
            Some(num_end(s, i + 1))
        } else if b == 116 {
            if i + 4 <= s.len() && s.subrange(i, i + 4) == crate::lit::lit_true() {
                Some(i + 4)
            } else {
                None
            }
        } else if b == 102 {
            if i + 5 <= s.len() && s.subrange(i, i + 5) == crate::lit::lit_false() {
                Some(i + 5)
            } else {
                None
            }
        } else if b == 110 {
            if i + 4 <= s.len() && s.subrange(i, i + 4) == crate::lit::lit_null() {
                Some(i + 4)
            } else {
                None
            }
        } else if b == 123 {
            let j = ws_end(s, i + 1);
            if !(i < j <= s.len()) {
                None
            } else if j < s.len() && s[j] == 125 {
                Some(j + 1)
            } else {
                spec_skip_members(s, j)
            }
        } else if b == 91 {
            let j = ws_end(s, i + 1);
            if !(i < j <= s.len()) {
                None
            } else if j < s.len() && s[j] == 93 {
                Some(j + 1)
            } else {
                spec_skip_elements(s, j)
            }
        } else {
            None
        }
    }
}

/// The position after the remaining `"key": value` members and the closing
/// brace of an object, starting at a key.
pub open spec fn spec_skip_members(s: Seq<u8>, i: int) -> Option<int>
    decreases s.len() - i, 1int,
{
    if !(0 <= i < s.len()) {
        None
    } else {
        match spec_parse_string(s, i) {
            Option::None => None,
            Option::Some((key, e1)) => {
                let j = ws_end(s, e1);
                if !(i < j < s.len()) || s[j] != 58 {
                    None
                } else {
                    let k = ws_end(s, j + 1);
                    if !(j < k <= s.len()) {
                        None
                    } else {
                        match spec_skip_value(s, k) {
                            Option::None => None,
                            Option::Some(e2) => {
                                let m = ws_end(s, e2);
                                if m < s.len() && s[m] == 44 {
                                    let n = ws_end(s, m + 1);
                                    if i < n <= s.len() {
                                        spec_skip_members(s, n)
                                    } else {
                                        None
                                    }
                                } else if m < s.len() && s[m] == 125 {
                                    Some(m + 1)
                                } else {
                                    None
                                }
                            },
                        }
                    }
                }
            },
        }
    }
}

/// The position after the remaining elements and the closing bracket of an
/// array, starting at a value.
pub open spec fn spec_skip_elements(s: Seq<u8>, i: int) -> Option<int>
    decreases s.len() - i, 1int,
{
    if !(0 <= i < s.len()) {
        None
    } else {
        match spec_skip_value(s, i) {
            Option::None => None,
            Option::Some(e) => {
                let m = ws_end(s, e);
                if m < s.len() && s[m] == 44 {
                    let n = ws_end(s, m + 1);
                    if i < n <= s.len() {
                        spec_skip_elements(s, n)
                    } else {
                        None
                    }
                } else if m < s.len() && s[m] == 93 {
                    Some(m + 1)
                } else {
                    None
                }
            },
        }
    }
}

/// Skips one JSON value of any shape.
pub fn skip_value(s: &[u8], i: usize) -> (r: Option<usize>)
    requires
        i <= s@.len(),
    ensures
        (match r {
            Option::Some(e) => spec_skip_value(s@, i as int) == Some(e as int) && i < e
                <= s@.len(),
            Option::None => spec_skip_value(s@, i as int) is None,
        }),
    decreases s@.len() - i, 0int,
{
    if i >= s.len() {
        return None;
    }
    let b = s[i];
    if b == 34 {
        match parse_string(s, i) {
            Option::Some((c, e)) => Some(e),
            Option::None => None,
        }
    } else if (48 <= b && b <= 57) || b == 45 {
        let mut j = i + 1;
        while j < s.len() && (48 <= s[j] && s[j] <= 57 || s[j] == 43 || s[j] == 45 || s[j] == 46
            || s[j] == 101 || s[j] == 69)
            invariant
                i + 1 <= j <= s@.len(),
                num_end(s@, i + 1 as int) == num_end(s@, j as int),
            decreases s@.len() - j,
        {
            j = j + 1;
        }
        Some(j)
    } else if b == 116 {
        if s.len() - i >= 4 && s[i + 1] == 114 && s[i + 2] == 117 && s[i + 3] == 101 {
            proof {
                assert(s@.subrange(i as int, i + 4 as int) =~= crate::lit::lit_true());
            }
            Some(i + 4)
        } else {
            proof {
                assert(i + 4 <= s@.len() ==> s@.subrange(i as int, i + 4 as int)
                    != crate::lit::lit_true());
            }
            None
        }
    } else if b == 102 {
        if s.len() - i >= 5 && s[i + 1] == 97 && s[i + 2] == 108 && s[i + 3] == 115 && s[i + 4]
            == 101 {
            proof {
                assert(s@.subrange(i as int, i + 5 as int) =~= crate::lit::lit_false());
            }
            Some(i + 5)
        } else {
            proof {
                assert(i + 5 <= s@.len() ==> s@.subrange(i as int, i + 5 as int)
                    != crate::lit::lit_false());
            }
            None
        }
    } else if b == 110 {
        if s.len() - i >= 4 && s[i + 1] == 117 && s[i + 2] == 108 && s[i + 3] == 108 {
            proof {
                assert(s@.subrange(i as int, i + 4 as int) =~= crate::lit::lit_null());
            }
            Some(i + 4)
        } else {
            proof {
                assert(i + 4 <= s@.len() ==> s@.subrange(i as int, i + 4 as int)
                    != crate::lit::lit_null());
            }
            None
        }
    } else if b == 123 {
        let j = skip_ws(s, i + 1);
        if j < s.len() && s[j] == 125 {
            Some(j + 1)
        } else {
            skip_members(s, j)
        }
    } else if b == 91 {
        let j = skip_ws(s, i + 1);
        if j < s.len() && s[j] == 93 {
            Some(j + 1)
        } else {
            skip_elements(s, j)
        }
    } else {
        None
    }
}

/// Skips the members and closing brace of an object, starting at a key.
fn skip_members(s: &[u8], i: usize) -> (r: Option<usize>)
    requires
        i <= s@.len(),
    ensures
        (match r {
            Option::Some(e) => spec_skip_members(s@, i as int) == Some(e as int) && i < e
                <= s@.len(),
            Option::None => spec_skip_members(s@, i as int) is None,
        }),
    decreases s@.len() - i, 1int,
{
    if i >= s.len() {
        return None;
    }
    let (key, e1) = match parse_string(s, i) {
        Option::Some(p) => p,
        Option::None => {
            return None;
        },
    };
    let j = skip_ws(s, e1);
    if !(j < s.len() && s[j] == 58) {
        return None;
    }
    let k = skip_ws(s, j + 1);
    let e2 = match skip_value(s, k) {
        Option::Some(e) => e,
        Option::None => {
            return None;
        },
    };
    let m = skip_ws(s, e2);
    if m < s.len() && s[m] == 44 {
        let n = skip_ws(s, m + 1);
        skip_members(s, n)
    } else if m < s.len() && s[m] == 125 {
        Some(m + 1)
    } else {
        None
    }
}

/// Skips the elements and closing bracket of an array, starting at a value.
fn skip_elements(s: &[u8], i: usize) -> (r: Option<usize>)
    requires
        i <= s@.len(),
    ensures
        (match r {
            Option::Some(e) => spec_skip_elements(s@, i as int) == Some(e as int) && i < e
                <= s@.len(),
            Option::None => spec_skip_elements(s@, i as int) is None,
        }),
    decreases s@.len() - i, 1int,
{
    if i >= s.len() {
        return None;
    }
    let e = match skip_value(s, i) {
        Option::Some(e) => e,
        Option::None => {
            return None;
        },
    };
    let m = skip_ws(s, e);
    if m < s.len() && s[m] == 44 {
        let n = skip_ws(s, m + 1);
        skip_elements(s, n)
    } else if m < s.len() && s[m] == 93 {
        Some(m + 1)
    } else {
        None
    }
}

} // verus!
