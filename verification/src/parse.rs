use vstd::prelude::*;
use crate::model::{Monitor, MonitorData, MonitorResult, MonitorView};

verus! {

// ---------------------------------------------------------------------------
// Reading the text format back. Each spec function consumes from position
// `i` of the character sequence and yields the parsed value with the first
// position after it, or nothing when the text does not fit the format.
// ---------------------------------------------------------------------------

pub open spec fn is_ws(c: char) -> bool {
    c == ' ' || c == '\n' || c == '\t' || c == '\r'
}

/// The first position at or after `i` that holds no whitespace.
pub open spec fn skip_ws(s: Seq<char>, i: int) -> int
    decreases s.len() - i,
{
    if 0 <= i < s.len() && is_ws(s[i]) {
        skip_ws(s, i + 1)
    } else {
        i
    }
}

/// The unescaped meaning of the character after a backslash.
pub open spec fn unesc(c: char) -> Option<char> {
    if c == '"' {
        Some('"')
    } else if c == '\\' {
        Some('\\')
    } else if c == '/' {
        Some('/')
    } else if c == 'n' {
        Some('\n')
    } else if c == 't' {
        Some('\t')
    } else if c == 'r' {
        Some('\r')
    } else if c == 'b' {
        Some('\u{0008}')
    } else if c == 'f' {
        Some('\u{000C}')
    } else {
        None
    }
}

pub open spec fn is_hex(c: char) -> bool {
    is_digit(c) || c == 'a' || c == 'b' || c == 'c' || c == 'd' || c == 'e' || c == 'f' || c == 'A'
        || c == 'B' || c == 'C' || c == 'D' || c == 'E' || c == 'F'
}

pub open spec fn hex_val(c: char) -> int {
    if is_digit(c) {
        digit_val(c)
    } else if c == 'a' || c == 'A' {
        10
    } else if c == 'b' || c == 'B' {
        11
    } else if c == 'c' || c == 'C' {
        12
    } else if c == 'd' || c == 'D' {
        13
    } else if c == 'e' || c == 'E' {
        14
    } else {
        15
    }
}

/// Four hexadecimal digits at `j`, upper or lower case, and their value.
pub open spec fn hex4(s: Seq<char>, j: int) -> Option<int> {
    if 0 <= j && j + 4 <= s.len() && is_hex(s[j]) && is_hex(s[j + 1]) && is_hex(s[j + 2]) && is_hex(
        s[j + 3],
    ) {
        Some(hex_val(s[j]) * 4096 + hex_val(s[j + 1]) * 256 + hex_val(s[j + 2]) * 16 + hex_val(
            s[j + 3],
        ))
    } else {
        None
    }
}

/// A `uXXXX` escape body at `j` (after the backslash and the `u`): four hex
/// digits, or a surrogate pair as two such escapes, and the character they
/// name with the position after the escape.
pub open spec fn parse_u_escape(s: Seq<char>, j: int) -> Option<(char, int)> {
    match hex4(s, j) {
        Some(h) => {
            if 0xD800 <= h < 0xDC00 {
                if j + 6 <= s.len() && s[j + 4] == '\\' && s[j + 5] == 'u' {
                    match hex4(s, j + 6) {
                        Some(l) => if 0xDC00 <= l < 0xE000 {
                            Some(
                                (
                                    (((0x10000 + (h - 0xD800) * 0x400 + (l - 0xDC00)) as u32)
                                        as char),
                                    j + 10,
                                ),
                            )
                        } else {
                            None
                        },
                        None => None,
                    }
                } else {
                    None
                }
            } else if 0xDC00 <= h < 0xE000 {
                None
            } else {
                Some((((h as u32) as char), j + 4))
            }
        },
        None => None,
    }
}

/// The body of a quoted string from `i` to its closing quote: characters
/// taken as they stand, the two-character escapes and the `uXXXX` escapes
/// (surrogate pairs included) unescaped.
pub open spec fn parse_str_body(s: Seq<char>, i: int) -> Option<(Seq<char>, int)>
    decreases s.len() - i,
{
    if i < 0 || i >= s.len() {
        None
    } else if s[i] == '"' {
        Some((Seq::empty(), i + 1))
    } else if s[i] == '\\' {
        if i + 1 < s.len() {
            if s[i + 1] == 'u' {
                match parse_u_escape(s, i + 2) {
                    Some(u) => if i < u.1 <= s.len() {
                        match parse_str_body(s, u.1) {
                            Some(t) => Some((seq![u.0] + t.0, t.1)),
                            None => None,
                        }
                    } else {
                        None
                    },
                    None => None,
                }
            } else {
                match unesc(s[i + 1]) {
                    Some(c) => match parse_str_body(s, i + 2) {
                        Some(t) => Some((seq![c] + t.0, t.1)),
                        None => None,
                    },
                    None => None,
                }
            }
        } else {
            None
        }
    } else {
        match parse_str_body(s, i + 1) {
            Some(t) => Some((seq![s[i]] + t.0, t.1)),
            None => None,
        }
    }
}

/// A quoted string starting at `i`.
pub open spec fn parse_string(s: Seq<char>, i: int) -> Option<(Seq<char>, int)> {
    if 0 <= i < s.len() && s[i] == '"' {
        parse_str_body(s, i + 1)
    } else {
        None
    }
}

pub open spec fn is_digit(c: char) -> bool {
    c == '0' || c == '1' || c == '2' || c == '3' || c == '4' || c == '5' || c == '6' || c == '7'
        || c == '8' || c == '9'
}

pub open spec fn digit_val(c: char) -> int {
    if c == '0' {
        0
    } else if c == '1' {
        1
    } else if c == '2' {
        2
    } else if c == '3' {
        3
    } else if c == '4' {
        4
    } else if c == '5' {
        5
    } else if c == '6' {
        6
    } else if c == '7' {
        7
    } else if c == '8' {
        8
    } else {
        9
    }
}

/// The first position at or after `i` that holds no decimal digit.
pub open spec fn digits_end(s: Seq<char>, i: int) -> int
    decreases s.len() - i,
{
    if 0 <= i < s.len() && is_digit(s[i]) {
        digits_end(s, i + 1)
    } else {
        i
    }
}

/// The value of the digit run from `i` up to (not including) `j`.
pub open spec fn digits_val(s: Seq<char>, i: int, j: int) -> int
    decreases j - i,
{
    if j <= i {
        0
    } else {
        digits_val(s, i, j - 1) * 10 + digit_val(s[j - 1])
    }
}

pub open spec fn pow10(n: int) -> int
    decreases n,
{
    if n <= 0 {
        1
    } else {
        10 * pow10(n - 1)
    }
}

pub proof fn lemma_digits_val_bound(s: Seq<char>, i: int, j: int)
    requires
        i <= j,
    ensures
        0 <= digits_val(s, i, j) < pow10(j - i),
    decreases j - i,
{
    if j <= i {
    } else {
        lemma_digits_val_bound(s, i, j - 1);
        assert(digit_val(s[j - 1]) <= 9);
        assert(digits_val(s, i, j - 1) * 10 + digit_val(s[j - 1]) < pow10(j - i - 1) * 10) by (nonlinear_arith)
            requires
                0 <= digits_val(s, i, j - 1) < pow10(j - i - 1),
                digit_val(s[j - 1]) <= 9,
        ;
    }
}

/// An unsigned digit run at `i`: at most nineteen digits, its value with the
/// position after it. More digits than that, or none, is a parse error.
pub open spec fn parse_uint(s: Seq<char>, i: int) -> Option<(int, int)> {
    let e = digits_end(s, i);
    if e == i || e - i > 19 {
        None
    } else {
        Some((digits_val(s, i, e), e))
    }
}

pub open spec fn parse_u32(s: Seq<char>, i: int) -> Option<(u32, int)> {
    match parse_uint(s, i) {
        Some(t) => if t.0 <= u32::MAX {
            Some((t.0 as u32, t.1))
        } else {
            None
        },
        None => None,
    }
}

/// A signed decimal integer that fits a 64-bit signed word.
pub open spec fn parse_i64(s: Seq<char>, i: int) -> Option<(i64, int)> {
    if 0 <= i < s.len() && s[i] == '-' {
        match parse_uint(s, i + 1) {
            Some(t) => if t.0 <= 0x8000000000000000 {
                Some(((-t.0) as i64, t.1))
            } else {
                None
            },
            None => None,
        }
    } else {
        match parse_uint(s, i) {
            Some(t) => if t.0 <= i64::MAX {
                Some((t.0 as i64, t.1))
            } else {
                None
            },
            None => None,
        }
    }
}

/// A signed decimal integer that fits a 32-bit signed word.
pub open spec fn parse_i32(s: Seq<char>, i: int) -> Option<(i32, int)> {
    match parse_i64(s, i) {
        Some(t) => if i32::MIN <= t.0 <= i32::MAX {
            Some((t.0 as i32, t.1))
        } else {
            None
        },
        None => None,
    }
}

/// The four characters of `null` at `i`.
pub open spec fn parse_null(s: Seq<char>, i: int) -> Option<int> {
    if 0 <= i && i + 4 <= s.len() && s[i] == 'n' && s[i + 1] == 'u' && s[i + 2] == 'l' && s[i + 3]
        == 'l' {
        Some(i + 4)
    } else {
        None
    }
}

/// The end of one well-formed value at `i`, whatever its kind: a string, a
/// signed number, `null`, `true`, `false`, an object or an array. Used to
/// pass over a field the data model does not know.
#[verifier::opaque]
pub open spec fn skip_value(s: Seq<char>, i: int) -> Option<int>
    decreases s.len() - i, 0int,
{
    if i < 0 || i >= s.len() {
        None
    } else if s[i] == '"' {
        match parse_string(s, i) {
            Some(t) => Some(t.1),
            None => None,
        }
    } else if s[i] == '-' {
        if i + 1 < s.len() && is_digit(s[i + 1]) {
            Some(digits_end(s, i + 1))
        } else {
            None
        }
    } else if is_digit(s[i]) {
        Some(digits_end(s, i))
    } else if s[i] == 'n' {
        parse_null(s, i)
    } else if s[i] == 't' {
        if i + 4 <= s.len() && s[i + 1] == 'r' && s[i + 2] == 'u' && s[i + 3] == 'e' {
            Some(i + 4)
        } else {
            None
        }
    } else if s[i] == 'f' {
        if i + 5 <= s.len() && s[i + 1] == 'a' && s[i + 2] == 'l' && s[i + 3] == 's' && s[i + 4]
            == 'e' {
            Some(i + 5)
        } else {
            None
        }
    } else if s[i] == '{' {
        skip_members(s, i + 1)
    } else if s[i] == '[' {
        skip_elements(s, i + 1)
    } else {
        None
    }
}

/// The members of an object being passed over, from after its opening brace
/// to after its closing one.
#[verifier::opaque]
pub open spec fn skip_members(s: Seq<char>, i: int) -> Option<int>
    decreases s.len() - i, 1int,
{
    let j = skip_ws(s, i);
    if 0 <= j < s.len() && s[j] == '}' {
        Some(j + 1)
    } else {
        match parse_string(s, j) {
            Some(kt) => {
                let j1 = skip_ws(s, kt.1);
                if 0 <= j1 < s.len() && s[j1] == ':' {
                    let j2 = skip_ws(s, j1 + 1);
                    if i < j2 <= s.len() {
                        match skip_value(s, j2) {
                            Some(e) => {
                                let j3 = skip_ws(s, e);
                                if 0 <= j3 < s.len() && s[j3] == ',' {
                                    if j3 + 1 > i {
                                        skip_members(s, j3 + 1)
                                    } else {
                                        None
                                    }
                                } else if 0 <= j3 < s.len() && s[j3] == '}' {
                                    Some(j3 + 1)
                                } else {
                                    None
                                }
                            },
                            None => None,
                        }
                    } else {
                        None
                    }
                } else {
                    None
                }
            },
            None => None,
        }
    }
}

/// The elements of an array being passed over, from after its opening
/// bracket to after its closing one.
#[verifier::opaque]
pub open spec fn skip_elements(s: Seq<char>, i: int) -> Option<int>
    decreases s.len() - i, 1int,
{
    let j = skip_ws(s, i);
    if 0 <= j < s.len() && s[j] == ']' {
        Some(j + 1)
    } else if i <= j <= s.len() {
        match skip_value(s, j) {
            Some(e) => {
                let j3 = skip_ws(s, e);
                if 0 <= j3 < s.len() && s[j3] == ',' {
                    if j3 + 1 > i {
                        skip_elements(s, j3 + 1)
                    } else {
                        None
                    }
                } else if 0 <= j3 < s.len() && s[j3] == ']' {
                    Some(j3 + 1)
                } else {
                    None
                }
            },
            None => None,
        }
    } else {
        None
    }
}

// ---------------------------------------------------------------------------
// The executable scanner, each function exactly the spec parser's value.
// ---------------------------------------------------------------------------

fn is_ws_exec(c: char) -> (r: bool)
    ensures
        r == is_ws(c),
{
    c == ' ' || c == '\n' || c == '\t' || c == '\r'
}

fn is_digit_exec(c: char) -> (r: bool)
    ensures
        r == is_digit(c),
{
    c == '0' || c == '1' || c == '2' || c == '3' || c == '4' || c == '5' || c == '6' || c == '7'
        || c == '8' || c == '9'
}

fn digit_val_exec(c: char) -> (r: u64)
    requires
        is_digit(c),
    ensures
        r as int == digit_val(c),
        r <= 9,
{
    if c == '0' {
        0
    } else if c == '1' {
        1
    } else if c == '2' {
        2
    } else if c == '3' {
        3
    } else if c == '4' {
        4
    } else if c == '5' {
        5
    } else if c == '6' {
        6
    } else if c == '7' {
        7
    } else if c == '8' {
        8
    } else {
        9
    }
}

pub(crate) fn skip_ws_exec(s: &Vec<char>, i: usize) -> (r: usize)
    requires
        i <= s@.len(),
    ensures
        r as int == skip_ws(s@, i as int),
        i <= r <= s@.len(),
{
    let mut j = i;
    while j < s.len() && is_ws_exec(s[j])
        invariant
            i <= j <= s@.len(),
            skip_ws(s@, i as int) == skip_ws(s@, j as int),
        decreases s@.len() - j,
    {
        j += 1;
    }
    j
}

fn digits_end_exec(s: &Vec<char>, i: usize) -> (r: usize)
    requires
        i <= s@.len(),
    ensures
        r as int == digits_end(s@, i as int),
        i <= r <= s@.len(),
{
    let mut j = i;
    while j < s.len() && is_digit_exec(s[j])
        invariant
            i <= j <= s@.len(),
            digits_end(s@, i as int) == digits_end(s@, j as int),
        decreases s@.len() - j,
    {
        j += 1;
    }
    j
}

fn parse_uint_exec(s: &Vec<char>, i: usize) -> (r: Option<(u64, usize)>)
    requires
        i <= s@.len(),
    ensures
        r is Some <==> parse_uint(s@, i as int) is Some,
        r matches Some(t) ==> parse_uint(s@, i as int) == Some((t.0 as int, t.1 as int)) && i
            < t.1 <= s@.len(),
{
    let e = digits_end_exec(s, i);
    if e == i || e - i > 19 {
        return None;
    }
    let mut k = i;
    let mut acc: u64 = 0;
    while k < e
        invariant
            i <= k <= e <= s@.len(),
            e - i <= 19,
            e as int == digits_end(s@, i as int),
            digits_end(s@, i as int) == digits_end(s@, k as int),
            acc as int == digits_val(s@, i as int, k as int),
            (acc as int) < pow10((k - i) as int),
        decreases e - k,
    {
        proof {
            assert(k < s@.len() && is_digit(s@[k as int]));
        }
        let d = digit_val_exec(s[k]);
        proof {
            lemma_pow10_mono((k - i) as int + 1, 19);
            reveal_with_fuel(pow10, 21);
            assert(pow10(19) == 10000000000000000000);
            assert((acc as int) * 10 + (d as int) < pow10((k - i) as int + 1)) by (nonlinear_arith)
                requires
                    0 <= (acc as int) < pow10((k - i) as int),
                    d <= 9,
                    pow10((k - i) as int + 1) == 10 * pow10((k - i) as int),
            ;
            assert((acc as int) * 10 + (d as int) < 10000000000000000000);
        }
        acc = acc * 10 + d;
        k += 1;
    }
    Some((acc, e))
}

proof fn lemma_pow10_mono(a: int, b: int)
    requires
        a <= b,
    ensures
        pow10(a) <= pow10(b),
    decreases b - a,
{
    if a < b {
        if b <= 0 {
        } else {
            lemma_pow10_mono(a, b - 1);
            lemma_pow10_pos(b - 1);
            assert(pow10(b) == 10 * pow10(b - 1));
        }
    }
}

proof fn lemma_pow10_pos(a: int)
    ensures
        pow10(a) >= 1,
    decreases a,
{
    if a > 0 {
        lemma_pow10_pos(a - 1);
    }
}

// ---------------------------------------------------------------------------
// Records, the array and the whole document.
// ---------------------------------------------------------------------------

/// A record in the middle of being read: each field as far as it has been
/// seen. An absent optional field and an explicit `null` both leave it None.
pub struct PartialMonitorView {
    pub name: Option<Seq<char>>,
    pub monitor_id: Option<u32>,
    pub script: Option<Seq<char>>,
    pub result: Option<MonitorResult>,
    pub code: Option<Seq<char>>,
    pub monitor_type: Option<Seq<char>>,
}

pub open spec fn empty_partial() -> PartialMonitorView {
    PartialMonitorView {
        name: None,
        monitor_id: None,
        script: None,
        result: None,
        code: None,
        monitor_type: None,
    }
}

/// A finished record needs its two required fields.
pub open spec fn build_monitor(acc: PartialMonitorView) -> Option<MonitorView> {
    if acc.name is Some && acc.code is Some {
        Some(
            MonitorView {
                name: acc.name.unwrap(),
                monitor_id: acc.monitor_id,
                script: acc.script,
                result: acc.result,
                code: acc.code.unwrap(),
                monitor_type: acc.monitor_type,
            },
        )
    } else {
        None
    }
}

/// One `"key": value` entry of a result object, starting at the key's
/// quote; an unknown key is passed over with its value and changes nothing.
pub open spec fn parse_result_entry(s: Seq<char>, i: int, va: Option<i32>, pa: Option<i64>) -> Option<
    (Option<i32>, Option<i64>, int),
> {
    match parse_string(s, i) {
        Some(kt) => {
            let j1 = skip_ws(s, kt.1);
            if 0 <= j1 < s.len() && s[j1] == ':' {
                let j2 = skip_ws(s, j1 + 1);
                if kt.0 == crate::codec::key_value() {
                    match parse_i32(s, j2) {
                        Some(vt) => Some((Some(vt.0), pa, vt.1)),
                        None => None,
                    }
                } else if kt.0 == crate::codec::key_processed_at() {
                    match parse_i64(s, j2) {
                        Some(vt) => Some((va, Some(vt.0), vt.1)),
                        None => None,
                    }
                } else {
                    match skip_value(s, j2) {
                        Some(e) => Some((va, pa, e)),
                        None => None,
                    }
                }
            } else {
                None
            }
        },
        None => None,
    }
}

/// The fields of a result object after its opening brace; both fields must
/// have been seen by the closing brace.
pub open spec fn parse_result_fields(
    s: Seq<char>,
    i: int,
    va: Option<i32>,
    pa: Option<i64>,
) -> Option<(MonitorResult, int)>
    decreases s.len() - i,
{
    let j = skip_ws(s, i);
    if 0 <= j < s.len() && s[j] == '}' {
        if va is Some && pa is Some {
            Some((MonitorResult { value: va.unwrap(), processed_at: pa.unwrap() }, j + 1))
        } else {
            None
        }
    } else {
        match parse_result_entry(s, j, va, pa) {
            Some(e) => {
                let j3 = skip_ws(s, e.2);
                if 0 <= j3 < s.len() && s[j3] == ',' {
                    if j3 + 1 > i {
                        parse_result_fields(s, j3 + 1, e.0, e.1)
                    } else {
                        None
                    }
                } else if 0 <= j3 < s.len() && s[j3] == '}' {
                    if e.0 is Some && e.1 is Some {
                        Some(
                            (
                                MonitorResult { value: e.0.unwrap(), processed_at: e.1.unwrap() },
                                j3 + 1,
                            ),
                        )
                    } else {
                        None
                    }
                } else {
                    None
                }
            },
            None => None,
        }
    }
}

/// A result object starting at its opening brace.
pub open spec fn parse_result_obj(s: Seq<char>, i: int) -> Option<(MonitorResult, int)> {
    if 0 <= i < s.len() && s[i] == '{' {
        parse_result_fields(s, i + 1, None, None)
    } else {
        None
    }
}

/// One `"key": value` entry of a record, starting at the key's quote. An
/// optional field may hold `null`, which leaves it absent; a key the data
/// model does not know is passed over with its value and changes nothing.
pub open spec fn parse_monitor_entry(s: Seq<char>, i: int, acc: PartialMonitorView) -> Option<
    (PartialMonitorView, int),
> {
    match parse_string(s, i) {
        Some(kt) => {
            let j1 = skip_ws(s, kt.1);
            if 0 <= j1 < s.len() && s[j1] == ':' {
                let j2 = skip_ws(s, j1 + 1);
                let k = kt.0;
                if k == crate::codec::key_name() {
                    match parse_string(s, j2) {
                        Some(t) => Some(
                            (
                                PartialMonitorView {
                                    name: Some(t.0),
                                    monitor_id: acc.monitor_id,
                                    script: acc.script,
                                    result: acc.result,
                                    code: acc.code,
                                    monitor_type: acc.monitor_type,
                                },
                                t.1,
                            ),
                        ),
                        None => None,
                    }
                } else if k == crate::codec::key_monitor_id() {
                    match parse_null(s, j2) {
                        Some(j) => Some((acc, j)),
                        None => match parse_u32(s, j2) {
                            Some(t) => Some(
                                (
                                    PartialMonitorView {
                                        name: acc.name,
                                        monitor_id: Some(t.0),
                                        script: acc.script,
                                        result: acc.result,
                                        code: acc.code,
                                        monitor_type: acc.monitor_type,
                                    },
                                    t.1,
                                ),
                            ),
                            None => None,
                        },
                    }
                } else if k == crate::codec::key_script() {
                    match parse_null(s, j2) {
                        Some(j) => Some((acc, j)),
                        None => match parse_string(s, j2) {
                            Some(t) => Some(
                                (
                                    PartialMonitorView {
                                        name: acc.name,
                                        monitor_id: acc.monitor_id,
                                        script: Some(t.0),
                                        result: acc.result,
                                        code: acc.code,
                                        monitor_type: acc.monitor_type,
                                    },
                                    t.1,
                                ),
                            ),
                            None => None,
                        },
                    }
                } else if k == crate::codec::key_result() {
                    match parse_null(s, j2) {
                        Some(j) => Some((acc, j)),
                        None => match parse_result_obj(s, j2) {
                            Some(t) => Some(
                                (
                                    PartialMonitorView {
                                        name: acc.name,
                                        monitor_id: acc.monitor_id,
                                        script: acc.script,
                                        result: Some(t.0),
                                        code: acc.code,
                                        monitor_type: acc.monitor_type,
                                    },
                                    t.1,
                                ),
                            ),
                            None => None,
                        },
                    }
                } else if k == crate::codec::key_code() {
                    match parse_string(s, j2) {
                        Some(t) => Some(
                            (
                                PartialMonitorView {
                                    name: acc.name,
                                    monitor_id: acc.monitor_id,
                                    script: acc.script,
                                    result: acc.result,
                                    code: Some(t.0),
                                    monitor_type: acc.monitor_type,
                                },
                                t.1,
                            ),
                        ),
                        None => None,
                    }
                } else if k == crate::codec::key_type() {
                    match parse_null(s, j2) {
                        Some(j) => Some((acc, j)),
                        None => match parse_string(s, j2) {
                            Some(t) => Some(
                                (
                                    PartialMonitorView {
                                        name: acc.name,
                                        monitor_id: acc.monitor_id,
                                        script: acc.script,
                                        result: acc.result,
                                        code: acc.code,
                                        monitor_type: Some(t.0),
                                    },
                                    t.1,
                                ),
                            ),
                            None => None,
                        },
                    }
                } else {
                    match skip_value(s, j2) {
                        Some(e) => Some((acc, e)),
                        None => None,
                    }
                }
            } else {
                None
            }
        },
        None => None,
    }
}

/// The fields of a record after its opening brace.
pub open spec fn parse_monitor_fields(s: Seq<char>, i: int, acc: PartialMonitorView) -> Option<
    (MonitorView, int),
>
    decreases s.len() - i,
{
    let j = skip_ws(s, i);
    if 0 <= j < s.len() && s[j] == '}' {
        match build_monitor(acc) {
            Some(m) => Some((m, j + 1)),
            None => None,
        }
    } else {
        match parse_monitor_entry(s, j, acc) {
            Some(e) => {
                let j3 = skip_ws(s, e.1);
                if 0 <= j3 < s.len() && s[j3] == ',' {
                    if j3 + 1 > i {
                        parse_monitor_fields(s, j3 + 1, e.0)
                    } else {
                        None
                    }
                } else if 0 <= j3 < s.len() && s[j3] == '}' {
                    match build_monitor(e.0) {
                        Some(m) => Some((m, j3 + 1)),
                        None => None,
                    }
                } else {
                    None
                }
            },
            None => None,
        }
    }
}

/// A record starting at its opening brace.
pub open spec fn parse_monitor_obj(s: Seq<char>, i: int) -> Option<(MonitorView, int)> {
    if 0 <= i < s.len() && s[i] == '{' {
        parse_monitor_fields(s, i + 1, empty_partial())
    } else {
        None
    }
}

/// The records of a non-empty array, from the first record up to and
/// including the closing bracket.
pub open spec fn parse_records(s: Seq<char>, i: int) -> Option<(Seq<MonitorView>, int)>
    decreases s.len() - i,
{
    let j = skip_ws(s, i);
    match parse_monitor_obj(s, j) {
        Some(mt) => {
            let j3 = skip_ws(s, mt.1);
            if 0 <= j3 < s.len() && s[j3] == ',' {
                if j3 + 1 > i {
                    match parse_records(s, j3 + 1) {
                        Some(rt) => Some((seq![mt.0] + rt.0, rt.1)),
                        None => None,
                    }
                } else {
                    None
                }
            } else if 0 <= j3 < s.len() && s[j3] == ']' {
                Some((seq![mt.0], j3 + 1))
            } else {
                None
            }
        },
        None => None,
    }
}

/// The monitors array starting at its opening bracket.
pub open spec fn parse_monitors_arr(s: Seq<char>, i: int) -> Option<(Seq<MonitorView>, int)> {
    if 0 <= i < s.len() && s[i] == '[' {
        let j = skip_ws(s, i + 1);
        if 0 <= j < s.len() && s[j] == ']' {
            Some((Seq::empty(), j + 1))
        } else {
            parse_records(s, i + 1)
        }
    } else {
        None
    }
}

/// The fields of the document object after its opening brace: the
/// `monitors` array must appear, and a key the data model does not know is
/// passed over with its value.
pub open spec fn parse_top_fields(s: Seq<char>, i: int, acc: Option<Seq<MonitorView>>) -> Option<
    (Seq<MonitorView>, int),
>
    decreases s.len() - i,
{
    let j = skip_ws(s, i);
    if 0 <= j < s.len() && s[j] == '}' {
        match acc {
            Some(ms) => Some((ms, j + 1)),
            None => None,
        }
    } else {
        match parse_string(s, j) {
            Some(kt) => {
                let j1 = skip_ws(s, kt.1);
                if 0 <= j1 < s.len() && s[j1] == ':' {
                    let j2 = skip_ws(s, j1 + 1);
                    let step: Option<(Option<Seq<MonitorView>>, int)> = if kt.0
                        == crate::codec::key_monitors() {
                        match parse_monitors_arr(s, j2) {
                            Some(at) => Some((Some(at.0), at.1)),
                            None => None,
                        }
                    } else {
                        match skip_value(s, j2) {
                            Some(e) => Some((acc, e)),
                            None => None,
                        }
                    };
                    match step {
                        Some(st) => {
                            let j3 = skip_ws(s, st.1);
                            if 0 <= j3 < s.len() && s[j3] == ',' {
                                if j3 + 1 > i {
                                    parse_top_fields(s, j3 + 1, st.0)
                                } else {
                                    None
                                }
                            } else if 0 <= j3 < s.len() && s[j3] == '}' {
                                match st.0 {
                                    Some(ms) => Some((ms, j3 + 1)),
                                    None => None,
                                }
                            } else {
                                None
                            }
                        },
                        None => None,
                    }
                } else {
                    None
                }
            },
            None => None,
        }
    }
}

/// A whole document: one object that holds the `monitors` array, possibly
/// among fields the data model does not know, and nothing after it but
/// whitespace.
pub open spec fn parse_data(s: Seq<char>) -> Option<Seq<MonitorView>> {
    let i0 = skip_ws(s, 0);
    if 0 <= i0 < s.len() && s[i0] == '{' {
        match parse_top_fields(s, i0 + 1, None) {
            Some(t) => if skip_ws(s, t.1) == s.len() {
                Some(t.0)
            } else {
                None
            },
            None => None,
        }
    } else {
        None
    }
}

// ---------------------------------------------------------------------------
// The executable reader: each function returns exactly what the spec parser
// at the same position describes.
// ---------------------------------------------------------------------------

fn chars_eq(a: &Vec<char>, b: &Vec<char>) -> (r: bool)
    ensures
        r == (a@ == b@),
{
    if a.len() != b.len() {
        return false;
    }
    let mut i: usize = 0;
    while i < a.len()
        invariant
            i <= a@.len(),
            a@.len() == b@.len(),
            forall|j: int| 0 <= j < i ==> a@[j] == b@[j],
        decreases a@.len() - i,
    {
        if a[i] != b[i] {
            return false;
        }
        i += 1;
    }
    proof {
        assert(a@ =~= b@);
    }
    true
}

fn is_hex_exec(c: char) -> (r: bool)
    ensures
        r == is_hex(c),
{
    is_digit_exec(c) || c == 'a' || c == 'b' || c == 'c' || c == 'd' || c == 'e' || c == 'f' || c
        == 'A' || c == 'B' || c == 'C' || c == 'D' || c == 'E' || c == 'F'
}

fn hex_val_exec(c: char) -> (r: u32)
    requires
        is_hex(c),
    ensures
        r as int == hex_val(c),
        r <= 15,
{
    if is_digit_exec(c) {
        digit_val_exec(c) as u32
    } else if c == 'a' || c == 'A' {
        10
    } else if c == 'b' || c == 'B' {
        11
    } else if c == 'c' || c == 'C' {
        12
    } else if c == 'd' || c == 'D' {
        13
    } else if c == 'e' || c == 'E' {
        14
    } else {
        15
    }
}

fn hex4_exec(s: &Vec<char>, j: usize) -> (r: Option<u32>)
    requires
        j <= s@.len(),
    ensures
        r is Some <==> hex4(s@, j as int) is Some,
        r matches Some(h) ==> hex4(s@, j as int) == Some(h as int) && h < 0x10000 && j + 4
            <= s@.len(),
{
    let n = s.len();
    if n >= 4 && j <= n - 4 && is_hex_exec(s[j]) && is_hex_exec(s[j + 1]) && is_hex_exec(s[j + 2])
        && is_hex_exec(s[j + 3]) {
        Some(
            hex_val_exec(s[j]) * 4096 + hex_val_exec(s[j + 1]) * 256 + hex_val_exec(s[j + 2]) * 16
                + hex_val_exec(s[j + 3]),
        )
    } else {
        None
    }
}

fn parse_u_escape_exec(s: &Vec<char>, j: usize) -> (r: Option<(char, usize)>)
    requires
        j <= s@.len(),
    ensures
        r is Some <==> parse_u_escape(s@, j as int) is Some,
        r matches Some(t) ==> parse_u_escape(s@, j as int) == Some((t.0, t.1 as int)) && j < t.1
            <= s@.len(),
{
    let n = s.len();
    match hex4_exec(s, j) {
        Some(h) => {
            if 0xD800 <= h && h < 0xDC00 {
                if n >= 6 && j <= n - 6 && s[j + 4] == '\\' && s[j + 5] == 'u' {
                    match hex4_exec(s, j + 6) {
                        Some(l) => if 0xDC00 <= l && l < 0xE000 {
                            let v: u32 = 0x10000 + (h - 0xD800) * 0x400 + (l - 0xDC00);
                            proof {
                                assert(vstd::utf8::is_scalar(v));
                            }
                            let c = crate::text::char_from_u32(v);
                            proof {
                                vstd::utf8::char_u32_cast(c, v);
                            }
                            Some((c, j + 10))
                        } else {
                            None
                        },
                        None => None,
                    }
                } else {
                    None
                }
            } else if 0xDC00 <= h && h < 0xE000 {
                None
            } else {
                proof {
                    assert(vstd::utf8::is_scalar(h));
                }
                let c = crate::text::char_from_u32(h);
                proof {
                    vstd::utf8::char_u32_cast(c, h);
                }
                Some((c, j + 4))
            }
        },
        None => None,
    }
}

fn parse_str_body_exec(s: &Vec<char>, i: usize) -> (r: Option<(Vec<char>, usize)>)
    requires
        i <= s@.len(),
    ensures
        r is Some <==> parse_str_body(s@, i as int) is Some,
        r matches Some(t) ==> parse_str_body(s@, i as int) == Some((t.0@, t.1 as int)) && i < t.1
            <= s@.len(),
    decreases s@.len() - i,
{
    if i >= s.len() {
        return None;
    }
    let c = s[i];
    if c == '"' {
        let v: Vec<char> = Vec::new();
        Some((v, i + 1))
    } else if c == '\\' {
        if i + 1 < s.len() {
            let e = s[i + 1];
            if e == 'u' {
                return match parse_u_escape_exec(s, i + 2) {
                    Some(u) => {
                        let uc = u.0;
                        let nxt = u.1;
                        match parse_str_body_exec(s, nxt) {
                            Some(t) => {
                                let mut v = t.0;
                                let tail = t.1;
                                v.insert(0, uc);
                                proof {
                                    assert(v@ =~= seq![uc] + parse_str_body(
                                        s@,
                                        nxt as int,
                                    ).unwrap().0);
                                }
                                Some((v, tail))
                            },
                            None => None,
                        }
                    },
                    None => None,
                };
            }
            let u: Option<char> = if e == '"' {
                Some('"')
            } else if e == '\\' {
                Some('\\')
            } else if e == '/' {
                Some('/')
            } else if e == 'n' {
                Some('\n')
            } else if e == 't' {
                Some('\t')
            } else if e == 'r' {
                Some('\r')
            } else if e == 'b' {
                Some('\u{0008}')
            } else if e == 'f' {
                Some('\u{000C}')
            } else {
                None
            };
            proof {
                assert(u == unesc(e));
            }
            match u {
                Some(uc) => match parse_str_body_exec(s, i + 2) {
                    Some(t) => {
                        let mut v = t.0;
                        let tail = t.1;
                        proof {
                            let st = parse_str_body(s@, i + 2 as int).unwrap();
                            assert(st.0 == v@);
                        }
                        v.insert(0, uc);
                        proof {
                            assert(v@ =~= seq![uc] + parse_str_body(s@, i + 2 as int).unwrap().0);
                        }
                        Some((v, tail))
                    },
                    None => None,
                },
                None => None,
            }
        } else {
            None
        }
    } else {
        match parse_str_body_exec(s, i + 1) {
            Some(t) => {
                let mut v = t.0;
                let tail = t.1;
                v.insert(0, c);
                proof {
                    assert(v@ =~= seq![c] + parse_str_body(s@, i + 1 as int).unwrap().0);
                }
                Some((v, tail))
            },
            None => None,
        }
    }
}

fn parse_string_exec(s: &Vec<char>, i: usize) -> (r: Option<(Vec<char>, usize)>)
    requires
        i <= s@.len(),
    ensures
        r is Some <==> parse_string(s@, i as int) is Some,
        r matches Some(t) ==> parse_string(s@, i as int) == Some((t.0@, t.1 as int)) && i < t.1
            <= s@.len(),
{
    if i < s.len() && s[i] == '"' {
        parse_str_body_exec(s, i + 1)
    } else {
        None
    }
}

fn parse_u32_exec(s: &Vec<char>, i: usize) -> (r: Option<(u32, usize)>)
    requires
        i <= s@.len(),
    ensures
        r is Some <==> parse_u32(s@, i as int) is Some,
        r matches Some(t) ==> parse_u32(s@, i as int) == Some((t.0, t.1 as int)) && i < t.1
            <= s@.len(),
{
    match parse_uint_exec(s, i) {
        Some(t) => if t.0 <= 0xffffffffu64 {
            Some((t.0 as u32, t.1))
        } else {
            None
        },
        None => None,
    }
}

fn parse_i64_exec(s: &Vec<char>, i: usize) -> (r: Option<(i64, usize)>)
    requires
        i <= s@.len(),
    ensures
        r is Some <==> parse_i64(s@, i as int) is Some,
        r matches Some(t) ==> parse_i64(s@, i as int) == Some((t.0, t.1 as int)) && i < t.1
            <= s@.len(),
{
    if i < s.len() && s[i] == '-' {
        match parse_uint_exec(s, i + 1) {
            Some(t) => if t.0 <= 9223372036854775808u64 {
                let v: i64 = if t.0 == 9223372036854775808u64 {
                    i64::MIN
                } else {
                    -(t.0 as i64)
                };
                proof {
                    assert(v as int == -(t.0 as int));
                }
                Some((v, t.1))
            } else {
                None
            },
            None => None,
        }
    } else {
        match parse_uint_exec(s, i) {
            Some(t) => if t.0 <= 0x7fffffffffffffffu64 {
                Some((t.0 as i64, t.1))
            } else {
                None
            },
            None => None,
        }
    }
}

fn parse_i32_exec(s: &Vec<char>, i: usize) -> (r: Option<(i32, usize)>)
    requires
        i <= s@.len(),
    ensures
        r is Some <==> parse_i32(s@, i as int) is Some,
        r matches Some(t) ==> parse_i32(s@, i as int) == Some((t.0, t.1 as int)) && i < t.1
            <= s@.len(),
{
    match parse_i64_exec(s, i) {
        Some(t) => if -2147483648i64 <= t.0 && t.0 <= 2147483647i64 {
            Some((t.0 as i32, t.1))
        } else {
            None
        },
        None => None,
    }
}

fn parse_null_exec(s: &Vec<char>, i: usize) -> (r: Option<usize>)
    requires
        i <= s@.len(),
    ensures
        r is Some <==> parse_null(s@, i as int) is Some,
        r matches Some(j) ==> parse_null(s@, i as int) == Some(j as int) && i < j <= s@.len(),
{
    let n = s.len();
    if n >= 4 && i <= n - 4 && s[i] == 'n' && s[i + 1] == 'u' && s[i + 2] == 'l' && s[i + 3] == 'l' {
        Some(i + 4)
    } else {
        None
    }
}

fn skip_value_exec(s: &Vec<char>, i: usize) -> (r: Option<usize>)
    requires
        i <= s@.len(),
    ensures
        r is Some <==> skip_value(s@, i as int) is Some,
        r matches Some(e) ==> skip_value(s@, i as int) == Some(e as int) && i < e <= s@.len(),
    decreases s@.len() - i, 0int,
{
    proof {
        reveal(skip_value);
        reveal(skip_members);
        reveal(skip_elements);
    }
    let n = s.len();
    if i >= n {
        return None;
    }
    let c = s[i];
    if c == '"' {
        match parse_string_exec(s, i) {
            Some(t) => Some(t.1),
            None => None,
        }
    } else if c == '-' {
        if i + 1 < n && is_digit_exec(s[i + 1]) {
            Some(digits_end_exec(s, i + 1))
        } else {
            None
        }
    } else if is_digit_exec(c) {
        let e = digits_end_exec(s, i + 1);
        proof {
            assert(digits_end(s@, i as int) == digits_end(s@, i + 1 as int));
        }
        Some(e)
    } else if c == 'n' {
        parse_null_exec(s, i)
    } else if c == 't' {
        if n >= 4 && i <= n - 4 && s[i + 1] == 'r' && s[i + 2] == 'u' && s[i + 3] == 'e' {
            Some(i + 4)
        } else {
            None
        }
    } else if c == 'f' {
        if n >= 5 && i <= n - 5 && s[i + 1] == 'a' && s[i + 2] == 'l' && s[i + 3] == 's' && s[i
            + 4] == 'e' {
            Some(i + 5)
        } else {
            None
        }
    } else if c == '{' {
        skip_members_exec(s, i + 1)
    } else if c == '[' {
        skip_elements_exec(s, i + 1)
    } else {
        None
    }
}

fn skip_members_exec(s: &Vec<char>, i: usize) -> (r: Option<usize>)
    requires
        i <= s@.len(),
    ensures
        r is Some <==> skip_members(s@, i as int) is Some,
        r matches Some(e) ==> skip_members(s@, i as int) == Some(e as int) && i <= e <= s@.len(),
    decreases s@.len() - i, 1int,
{
    proof {
        reveal(skip_value);
        reveal(skip_members);
        reveal(skip_elements);
    }
    let j = skip_ws_exec(s, i);
    if j < s.len() && s[j] == '}' {
        Some(j + 1)
    } else {
        match parse_string_exec(s, j) {
            Some(kt) => {
                let j1 = skip_ws_exec(s, kt.1);
                if j1 < s.len() && s[j1] == ':' {
                    let j2 = skip_ws_exec(s, j1 + 1);
                    if i < j2 {
                        match skip_value_exec(s, j2) {
                            Some(e) => {
                                let j3 = skip_ws_exec(s, e);
                                if j3 < s.len() && s[j3] == ',' {
                                    if j3 + 1 > i {
                                        skip_members_exec(s, j3 + 1)
                                    } else {
                                        None
                                    }
                                } else if j3 < s.len() && s[j3] == '}' {
                                    Some(j3 + 1)
                                } else {
                                    None
                                }
                            },
                            None => None,
                        }
                    } else {
                        None
                    }
                } else {
                    None
                }
            },
            None => None,
        }
    }
}

fn skip_elements_exec(s: &Vec<char>, i: usize) -> (r: Option<usize>)
    requires
        i <= s@.len(),
    ensures
        r is Some <==> skip_elements(s@, i as int) is Some,
        r matches Some(e) ==> skip_elements(s@, i as int) == Some(e as int) && i <= e <= s@.len(),
    decreases s@.len() - i, 1int,
{
    proof {
        reveal(skip_value);
        reveal(skip_members);
        reveal(skip_elements);
    }
    let j = skip_ws_exec(s, i);
    if j < s.len() && s[j] == ']' {
        Some(j + 1)
    } else {
        match skip_value_exec(s, j) {
            Some(e) => {
                let j3 = skip_ws_exec(s, e);
                if j3 < s.len() && s[j3] == ',' {
                    if j3 + 1 > i {
                        skip_elements_exec(s, j3 + 1)
                    } else {
                        None
                    }
                } else if j3 < s.len() && s[j3] == ']' {
                    Some(j3 + 1)
                } else {
                    None
                }
            },
            None => None,
        }
    }
}

/// A record in the middle of being read, with executable fields.
struct PartialMonitor {
    name: Option<String>,
    monitor_id: Option<u32>,
    script: Option<String>,
    result: Option<MonitorResult>,
    code: Option<String>,
    monitor_type: Option<String>,
}

impl View for PartialMonitor {
    type V = PartialMonitorView;

    closed spec fn view(&self) -> PartialMonitorView {
        PartialMonitorView {
            name: crate::model::opt_str_view(self.name),
            monitor_id: self.monitor_id,
            script: crate::model::opt_str_view(self.script),
            result: self.result,
            code: crate::model::opt_str_view(self.code),
            monitor_type: crate::model::opt_str_view(self.monitor_type),
        }
    }
}

fn parse_result_entry_exec(s: &Vec<char>, i: usize, va: Option<i32>, pa: Option<i64>) -> (r:
    Option<(Option<i32>, Option<i64>, usize)>)
    requires
        i <= s@.len(),
    ensures
        r is Some <==> parse_result_entry(s@, i as int, va, pa) is Some,
        r matches Some(t) ==> parse_result_entry(s@, i as int, va, pa) == Some(
            (t.0, t.1, t.2 as int),
        ) && i < t.2 <= s@.len(),
{
    match parse_string_exec(s, i) {
        Some(kt) => {
            let j1 = skip_ws_exec(s, kt.1);
            if j1 < s.len() && s[j1] == ':' {
                let j2 = skip_ws_exec(s, j1 + 1);
                let keyv: Vec<char> = vec!['v', 'a', 'l', 'u', 'e'];
                let keyp: Vec<char> = vec!['p', 'r', 'o', 'c', 'e', 's', 's', 'e', 'd', '_', 'a', 't'];
                proof {
                    assert(keyv@ =~= crate::codec::key_value());
                    assert(keyp@ =~= crate::codec::key_processed_at());
                }
                if chars_eq(&kt.0, &keyv) {
                    match parse_i32_exec(s, j2) {
                        Some(vt) => Some((Some(vt.0), pa, vt.1)),
                        None => None,
                    }
                } else if chars_eq(&kt.0, &keyp) {
                    match parse_i64_exec(s, j2) {
                        Some(vt) => Some((va, Some(vt.0), vt.1)),
                        None => None,
                    }
                } else {
                    match skip_value_exec(s, j2) {
                        Some(e) => Some((va, pa, e)),
                        None => None,
                    }
                }
            } else {
                None
            }
        },
        None => None,
    }
}

fn parse_result_fields_exec(s: &Vec<char>, i: usize, va: Option<i32>, pa: Option<i64>) -> (r:
    Option<(MonitorResult, usize)>)
    requires
        i <= s@.len(),
    ensures
        r is Some <==> parse_result_fields(s@, i as int, va, pa) is Some,
        r matches Some(t) ==> parse_result_fields(s@, i as int, va, pa) == Some(
            (t.0, t.1 as int),
        ) && i <= t.1 <= s@.len(),
    decreases s@.len() - i,
{
    let j = skip_ws_exec(s, i);
    if j < s.len() && s[j] == '}' {
        match (va, pa) {
            (Some(v), Some(p)) => Some((MonitorResult { value: v, processed_at: p }, j + 1)),
            _ => None,
        }
    } else {
        match parse_result_entry_exec(s, j, va, pa) {
            Some(e) => {
                let j3 = skip_ws_exec(s, e.2);
                if j3 < s.len() && s[j3] == ',' {
                    if j3 + 1 > i {
                        parse_result_fields_exec(s, j3 + 1, e.0, e.1)
                    } else {
                        None
                    }
                } else if j3 < s.len() && s[j3] == '}' {
                    match (e.0, e.1) {
                        (Some(v), Some(p)) => Some(
                            (MonitorResult { value: v, processed_at: p }, j3 + 1),
                        ),
                        _ => None,
                    }
                } else {
                    None
                }
            },
            None => None,
        }
    }
}

fn parse_result_obj_exec(s: &Vec<char>, i: usize) -> (r: Option<(MonitorResult, usize)>)
    requires
        i <= s@.len(),
    ensures
        r is Some <==> parse_result_obj(s@, i as int) is Some,
        r matches Some(t) ==> parse_result_obj(s@, i as int) == Some((t.0, t.1 as int)) && i < t.1
            <= s@.len(),
{
    if i < s.len() && s[i] == '{' {
        parse_result_fields_exec(s, i + 1, None, None)
    } else {
        None
    }
}

fn parse_monitor_entry_exec(s: &Vec<char>, i: usize, acc: PartialMonitor) -> (r: Option<
    (PartialMonitor, usize),
>)
    requires
        i <= s@.len(),
    ensures
        r is Some <==> parse_monitor_entry(s@, i as int, acc@) is Some,
        r matches Some(t) ==> parse_monitor_entry(s@, i as int, acc@) == Some(
            (t.0@, t.1 as int),
        ) && i < t.1 <= s@.len(),
{
    match parse_string_exec(s, i) {
        Some(kt) => {
            let j1 = skip_ws_exec(s, kt.1);
            if j1 < s.len() && s[j1] == ':' {
                let j2 = skip_ws_exec(s, j1 + 1);
                let key_name_v: Vec<char> = vec!['n', 'a', 'm', 'e'];
                let key_id_v: Vec<char> = vec!['m', 'o', 'n', 'i', 't', 'o', 'r', '_', 'i', 'd'];
                let key_script_v: Vec<char> = vec!['s', 'c', 'r', 'i', 'p', 't'];
                let key_result_v: Vec<char> = vec!['r', 'e', 's', 'u', 'l', 't'];
                let key_code_v: Vec<char> = vec!['c', 'o', 'd', 'e'];
                let key_type_v: Vec<char> = vec!['t', 'y', 'p', 'e'];
                proof {
                    assert(key_name_v@ =~= crate::codec::key_name());
                    assert(key_id_v@ =~= crate::codec::key_monitor_id());
                    assert(key_script_v@ =~= crate::codec::key_script());
                    assert(key_result_v@ =~= crate::codec::key_result());
                    assert(key_code_v@ =~= crate::codec::key_code());
                    assert(key_type_v@ =~= crate::codec::key_type());
                }
                if chars_eq(&kt.0, &key_name_v) {
                    match parse_string_exec(s, j2) {
                        Some(t) => Some(
                            (
                                PartialMonitor {
                                    name: Some(crate::text::chars_to_string(&t.0)),
                                    monitor_id: acc.monitor_id,
                                    script: acc.script,
                                    result: acc.result,
                                    code: acc.code,
                                    monitor_type: acc.monitor_type,
                                },
                                t.1,
                            ),
                        ),
                        None => None,
                    }
                } else if chars_eq(&kt.0, &key_id_v) {
                    match parse_null_exec(s, j2) {
                        Some(j) => Some((acc, j)),
                        None => match parse_u32_exec(s, j2) {
                            Some(t) => Some(
                                (
                                    PartialMonitor {
                                        name: acc.name,
                                        monitor_id: Some(t.0),
                                        script: acc.script,
                                        result: acc.result,
                                        code: acc.code,
                                        monitor_type: acc.monitor_type,
                                    },
                                    t.1,
                                ),
                            ),
                            None => None,
                        },
                    }
                } else if chars_eq(&kt.0, &key_script_v) {
                    match parse_null_exec(s, j2) {
                        Some(j) => Some((acc, j)),
                        None => match parse_string_exec(s, j2) {
                            Some(t) => Some(
                                (
                                    PartialMonitor {
                                        name: acc.name,
                                        monitor_id: acc.monitor_id,
                                        script: Some(crate::text::chars_to_string(&t.0)),
                                        result: acc.result,
                                        code: acc.code,
                                        monitor_type: acc.monitor_type,
                                    },
                                    t.1,
                                ),
                            ),
                            None => None,
                        },
                    }
                } else if chars_eq(&kt.0, &key_result_v) {
                    match parse_null_exec(s, j2) {
                        Some(j) => Some((acc, j)),
                        None => match parse_result_obj_exec(s, j2) {
                            Some(t) => Some(
                                (
                                    PartialMonitor {
                                        name: acc.name,
                                        monitor_id: acc.monitor_id,
                                        script: acc.script,
                                        result: Some(t.0),
                                        code: acc.code,
                                        monitor_type: acc.monitor_type,
                                    },
                                    t.1,
                                ),
                            ),
                            None => None,
                        },
                    }
                } else if chars_eq(&kt.0, &key_code_v) {
                    match parse_string_exec(s, j2) {
                        Some(t) => Some(
                            (
                                PartialMonitor {
                                    name: acc.name,
                                    monitor_id: acc.monitor_id,
                                    script: acc.script,
                                    result: acc.result,
                                    code: Some(crate::text::chars_to_string(&t.0)),
                                    monitor_type: acc.monitor_type,
                                },
                                t.1,
                            ),
                        ),
                        None => None,
                    }
                } else if chars_eq(&kt.0, &key_type_v) {
                    match parse_null_exec(s, j2) {
                        Some(j) => Some((acc, j)),
                        None => match parse_string_exec(s, j2) {
                            Some(t) => Some(
                                (
                                    PartialMonitor {
                                        name: acc.name,
                                        monitor_id: acc.monitor_id,
                                        script: acc.script,
                                        result: acc.result,
                                        code: acc.code,
                                        monitor_type: Some(crate::text::chars_to_string(&t.0)),
                                    },
                                    t.1,
                                ),
                            ),
                            None => None,
                        },
                    }
                } else {
                    match skip_value_exec(s, j2) {
                        Some(e) => Some((acc, e)),
                        None => None,
                    }
                }
            } else {
                None
            }
        },
        None => None,
    }
}

fn parse_monitor_fields_exec(s: &Vec<char>, i: usize, acc: PartialMonitor) -> (r: Option<
    (Monitor, usize),
>)
    requires
        i <= s@.len(),
    ensures
        r is Some <==> parse_monitor_fields(s@, i as int, acc@) is Some,
        r matches Some(t) ==> parse_monitor_fields(s@, i as int, acc@) == Some(
            (t.0@, t.1 as int),
        ) && i <= t.1 <= s@.len(),
    decreases s@.len() - i,
{
    let j = skip_ws_exec(s, i);
    if j < s.len() && s[j] == '}' {
        match (acc.name, acc.code) {
            (Some(n), Some(c)) => Some(
                (
                    Monitor {
                        name: n,
                        monitor_id: acc.monitor_id,
                        script: acc.script,
                        result: acc.result,
                        code: c,
                        monitor_type: acc.monitor_type,
                    },
                    j + 1,
                ),
            ),
            _ => None,
        }
    } else {
        match parse_monitor_entry_exec(s, j, acc) {
            Some(e) => {
                let j3 = skip_ws_exec(s, e.1);
                if j3 < s.len() && s[j3] == ',' {
                    if j3 + 1 > i {
                        parse_monitor_fields_exec(s, j3 + 1, e.0)
                    } else {
                        None
                    }
                } else if j3 < s.len() && s[j3] == '}' {
                    let b = e.0;
                    match (b.name, b.code) {
                        (Some(n), Some(c)) => Some(
                            (
                                Monitor {
                                    name: n,
                                    monitor_id: b.monitor_id,
                                    script: b.script,
                                    result: b.result,
                                    code: c,
                                    monitor_type: b.monitor_type,
                                },
                                j3 + 1,
                            ),
                        ),
                        _ => None,
                    }
                } else {
                    None
                }
            },
            None => None,
        }
    }
}

fn parse_monitor_obj_exec(s: &Vec<char>, i: usize) -> (r: Option<(Monitor, usize)>)
    requires
        i <= s@.len(),
    ensures
        r is Some <==> parse_monitor_obj(s@, i as int) is Some,
        r matches Some(t) ==> parse_monitor_obj(s@, i as int) == Some((t.0@, t.1 as int)) && i
            < t.1 <= s@.len(),
{
    if i < s.len() && s[i] == '{' {
        let acc = PartialMonitor {
            name: None,
            monitor_id: None,
            script: None,
            result: None,
            code: None,
            monitor_type: None,
        };
        proof {
            assert(acc@ == empty_partial());
        }
        parse_monitor_fields_exec(s, i + 1, acc)
    } else {
        None
    }
}

fn parse_records_exec(s: &Vec<char>, i: usize) -> (r: Option<(Vec<Monitor>, usize)>)
    requires
        i <= s@.len(),
    ensures
        r is Some <==> parse_records(s@, i as int) is Some,
        r matches Some(t) ==> parse_records(s@, i as int) == Some(
            (crate::model::monitors_view(t.0@), t.1 as int),
        ) && i <= t.1 <= s@.len(),
    decreases s@.len() - i,
{
    let j = skip_ws_exec(s, i);
    match parse_monitor_obj_exec(s, j) {
        Some(mt) => {
            let m = mt.0;
            let j3 = skip_ws_exec(s, mt.1);
            if j3 < s.len() && s[j3] == ',' {
                if j3 + 1 > i {
                    match parse_records_exec(s, j3 + 1) {
                        Some(rt) => {
                            let mut v = rt.0;
                            let tail = rt.1;
                            proof {
                                assert(crate::model::monitors_view(v@) == parse_records(
                                    s@,
                                    j3 + 1 as int,
                                ).unwrap().0);
                            }
                            v.insert(0, m);
                            proof {
                                let ghost sm = parse_monitor_obj(s@, j as int).unwrap().0;
                                let ghost rest = parse_records(s@, j3 + 1 as int).unwrap().0;
                                assert(crate::model::monitors_view(v@) =~= seq![sm] + rest);
                            }
                            Some((v, tail))
                        },
                        None => None,
                    }
                } else {
                    None
                }
            } else if j3 < s.len() && s[j3] == ']' {
                let mut v: Vec<Monitor> = Vec::new();
                v.push(m);
                proof {
                    let ghost sm = parse_monitor_obj(s@, j as int).unwrap().0;
                    assert(crate::model::monitors_view(v@) =~= seq![sm]);
                }
                Some((v, j3 + 1))
            } else {
                None
            }
        },
        None => None,
    }
}

fn parse_monitors_arr_exec(s: &Vec<char>, i: usize) -> (r: Option<(Vec<Monitor>, usize)>)
    requires
        i <= s@.len(),
    ensures
        r is Some <==> parse_monitors_arr(s@, i as int) is Some,
        r matches Some(t) ==> parse_monitors_arr(s@, i as int) == Some(
            (crate::model::monitors_view(t.0@), t.1 as int),
        ) && i < t.1 <= s@.len(),
{
    if i < s.len() && s[i] == '[' {
        let j = skip_ws_exec(s, i + 1);
        if j < s.len() && s[j] == ']' {
            let v: Vec<Monitor> = Vec::new();
            proof {
                assert(crate::model::monitors_view(v@) =~= Seq::<MonitorView>::empty());
            }
            Some((v, j + 1))
        } else {
            parse_records_exec(s, i + 1)
        }
    } else {
        None
    }
}

/// The executable mirror of `parse_top_fields`, gathering the records as it
/// goes.
fn parse_top_fields_exec(s: &Vec<char>, i: usize, acc: Option<Vec<Monitor>>) -> (r: Option<
    (Vec<Monitor>, usize),
>)
    requires
        i <= s@.len(),
        acc matches Some(v) ==> acc_top_view(acc) == Some(crate::model::monitors_view(v@)),
        acc is None ==> acc_top_view(acc) is None,
    ensures
        r is Some <==> parse_top_fields(s@, i as int, acc_top_view(acc)) is Some,
        r matches Some(t) ==> parse_top_fields(s@, i as int, acc_top_view(acc)) == Some(
            (crate::model::monitors_view(t.0@), t.1 as int),
        ) && i <= t.1 <= s@.len(),
    decreases s@.len() - i,
{
    let ghost gacc = acc_top_view(acc);
    let j = skip_ws_exec(s, i);
    if j < s.len() && s[j] == '}' {
        match acc {
            Some(ms) => Some((ms, j + 1)),
            None => None,
        }
    } else {
        match parse_string_exec(s, j) {
            Some(kt) => {
                let j1 = skip_ws_exec(s, kt.1);
                if j1 < s.len() && s[j1] == ':' {
                    let j2 = skip_ws_exec(s, j1 + 1);
                    let key_monitors_v: Vec<char> = vec!['m', 'o', 'n', 'i', 't', 'o', 'r', 's'];
                    proof {
                        assert(key_monitors_v@ =~= crate::codec::key_monitors());
                    }
                    let step: Option<(Option<Vec<Monitor>>, usize)> = if chars_eq(
                        &kt.0,
                        &key_monitors_v,
                    ) {
                        match parse_monitors_arr_exec(s, j2) {
                            Some(at) => Some((Some(at.0), at.1)),
                            None => None,
                        }
                    } else {
                        match skip_value_exec(s, j2) {
                            Some(e) => Some((acc, e)),
                            None => None,
                        }
                    };
                    match step {
                        Some(st) => {
                            let sv = st.0;
                            let se = st.1;
                            let j3 = skip_ws_exec(s, se);
                            if j3 < s.len() && s[j3] == ',' {
                                if j3 + 1 > i {
                                    parse_top_fields_exec(s, j3 + 1, sv)
                                } else {
                                    None
                                }
                            } else if j3 < s.len() && s[j3] == '}' {
                                match sv {
                                    Some(ms) => Some((ms, j3 + 1)),
                                    None => None,
                                }
                            } else {
                                None
                            }
                        },
                        None => None,
                    }
                } else {
                    None
                }
            },
            None => None,
        }
    }
}

/// The view of the gathered array, if one has been seen.
pub open spec fn acc_top_view(acc: Option<Vec<Monitor>>) -> Option<Seq<MonitorView>> {
    match acc {
        Some(v) => Some(crate::model::monitors_view(v@)),
        None => None,
    }
}

/// Reads a whole document back into a set of records, exactly as
/// `parse_data` describes; text that does not fit the format yields nothing.
pub fn parse_monitor_data(text: &str) -> (r: Option<MonitorData>)
    ensures
        r is Some <==> parse_data(text@) is Some,
        r matches Some(d) ==> parse_data(text@) == Some(d@),
{
    let s = crate::text::str_to_chars(text);
    let i0 = skip_ws_exec(&s, 0);
    if !(i0 < s.len() && s[i0] == '{') {
        return None;
    }
    match parse_top_fields_exec(&s, i0 + 1, None) {
        Some(t) => {
            let e = skip_ws_exec(&s, t.1);
            if e == s.len() {
                Some(MonitorData { monitors: t.0 })
            } else {
                None
            }
        },
        None => None,
    }
}

} // verus!
