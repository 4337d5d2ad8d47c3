//! Plain values for direct input: key names and screen points.

use crate::selector::{all_digits, digits_at, digits_value};
use vstd::prelude::*;
use vstd::string::*;

verus! {

/// The macOS virtual key code of a named key.
pub open spec fn key_code_of(s: Seq<char>) -> Option<u16> {
    if s == seq!['R', 'e', 't', 'u', 'r', 'n'] || s == seq!['E', 'n', 't', 'e', 'r'] {
        Some(36)
    } else if s == seq!['T', 'a', 'b'] {
        Some(48)
    } else if s == seq!['S', 'p', 'a', 'c', 'e'] {
        Some(49)
    } else if s == seq!['E', 's', 'c', 'a', 'p', 'e'] {
        Some(53)
    } else {
        None
    }
}

/// The key code for `Return`/`Enter`, `Tab`, `Space` or `Escape`.
pub fn key_code(key: &str) -> (r: Option<u16>)
    ensures
        r == key_code_of(key@),
{
    proof {
        reveal_strlit("Return");
        reveal_strlit("Enter");
        reveal_strlit("Tab");
        reveal_strlit("Space");
        reveal_strlit("Escape");
    }
    assert("Return"@ == seq!['R', 'e', 't', 'u', 'r', 'n']);
    assert("Enter"@ == seq!['E', 'n', 't', 'e', 'r']);
    assert("Tab"@ == seq!['T', 'a', 'b']);
    assert("Space"@ == seq!['S', 'p', 'a', 'c', 'e']);
    assert("Escape"@ == seq!['E', 's', 'c', 'a', 'p', 'e']);
    let k = String::from_str(key);
    if k == String::from_str("Return") || k == String::from_str("Enter") {
        Some(36)
    } else if k == String::from_str("Tab") {
        Some(48)
    } else if k == String::from_str("Space") {
        Some(49)
    } else if k == String::from_str("Escape") {
        Some(53)
    } else {
        None
    }
}

/// The integer written in `[a, b)`: an optional `+` or `-`, then one or more
/// decimal digits, within the range of `i32`.
pub open spec fn int_of(s: Seq<char>, a: int, b: int) -> Option<i32> {
    let neg = a < b && s[a] == '-';
    let start = if a < b && (s[a] == '-' || s[a] == '+') {
        a + 1
    } else {
        a
    };
    if start < b && all_digits(s, start, b) {
        let v = if neg {
            -digits_value(s, start, b)
        } else {
            digits_value(s, start, b)
        };
        if i32::MIN <= v <= i32::MAX {
            Some(v as i32)
        } else {
            None
        }
    } else {
        None
    }
}

/// The position of the first comma in `s`, if any.
pub open spec fn first_comma(s: Seq<char>, c: int) -> bool {
    0 <= c < s.len() && s[c] == ',' && forall|j: int| 0 <= j < c ==> s[j] != ','
}

/// The point written `x,y`: split at the first comma, both sides integers.
pub open spec fn point_of(s: Seq<char>) -> Option<(i32, i32)> {
    if exists|c: int| #[trigger] first_comma(s, c) {
        let c = choose|c: int| #[trigger] first_comma(s, c);
        match (int_of(s, 0, c), int_of(s, c + 1, s.len() as int)) {
            (Some(x), Some(y)) => Some((x, y)),
            _ => None,
        }
    } else {
        None
    }
}

fn int_at(q: &str, a: usize, b: usize) -> (r: Option<i32>)
    requires
        a <= b <= q@.len(),
    ensures
        r == int_of(q@, a as int, b as int),
{
    let mut neg = false;
    let mut start = a;
    if a < b {
        let c = q.get_char(a);
        if c == '-' {
            neg = true;
            start = a + 1;
        } else if c == '+' {
            start = a + 1;
        }
    }
    if start >= b {
        return None;
    }
    match digits_at(q, start, b) {
        None => {
            assert(!all_digits(q@, start as int, b as int) || digits_value(
                q@,
                start as int,
                b as int,
            ) > i32::MAX - i32::MIN);
            None
        },
        Some(v) => {
            if neg {
                if v <= 2147483648 {
                    Some((0 - v as i64) as i32)
                } else {
                    None
                }
            } else {
                if v <= 2147483647 {
                    Some(v as i32)
                } else {
                    None
                }
            }
        },
    }
}

/// Parses a screen point written `x,y`, as in `"120,-40"`.
pub fn parse_point(data: &str) -> (r: Option<(i32, i32)>)
    ensures
        r == point_of(data@),
{
    let n = data.unicode_len();
    let mut c: usize = 0;
    while c < n && data.get_char(c) != ','
        invariant
            n == data@.len(),
            c <= n,
            forall|j: int| 0 <= j < c ==> data@[j] != ',',
        decreases n - c,
    {
        c += 1;
    }
    if c == n {
        assert forall|k: int| !#[trigger] first_comma(data@, k) by {
            if 0 <= k < n && data@[k] == ',' {
                assert(data@[k] != ',');
            }
        }
        return None;
    }
    assert(first_comma(data@, c as int));
    proof {
        let k = choose|k: int| #[trigger] first_comma(data@, k);
        if k < c {
            assert(data@[k] != ',');
        }
        if c < k {
            assert(data@[c as int] != ',');
        }
        assert(k == c);
    }
    match (int_at(data, 0, c), int_at(data, c + 1, n)) {
        (Some(x), Some(y)) => Some((x, y)),
        _ => None,
    }
}

} // verus!
