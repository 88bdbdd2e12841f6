use vstd::prelude::*;
use crate::codec::{esc_char, esc_string, ser_int, ser_string};
use crate::parse::{
    digit_val, digits_end, digits_val, hex_val, is_digit, is_hex, is_ws, parse_i32, parse_i64,
    parse_null, parse_str_body, parse_string, parse_u32, parse_uint, pow10, skip_ws,
};
use crate::snapshot::{dec_digits, digit_char};

verus! {

// ---------------------------------------------------------------------------
// Reading back what the serializer wrote. Each lemma says that the reader,
// pointed at a stretch of text the writer produced, consumes exactly that
// stretch and yields exactly the written value.
// ---------------------------------------------------------------------------

pub proof fn lemma_skip_ws_run(t: Seq<char>, i: int, k: int)
    requires
        0 <= i <= k < t.len(),
        forall|j: int| i <= j < k ==> is_ws(#[trigger] t[j]),
        !is_ws(t[k]),
    ensures
        skip_ws(t, i) == k,
    decreases k - i,
{
    if i < k {
        assert(is_ws(t[i]));
        lemma_skip_ws_run(t, i + 1, k);
    }
}

proof fn lemma_hex_char_val(d: int)
    requires
        0 <= d < 16,
    ensures
        is_hex(crate::codec::hex_char(d)),
        hex_val(crate::codec::hex_char(d)) == d,
{
}

proof fn lemma_parse_body_of_esc(t: Seq<char>, i: int, s0: Seq<char>)
    requires
        0 <= i,
        i + esc_string(s0).len() + 1 <= t.len(),
        t.subrange(i, i + esc_string(s0).len()) == esc_string(s0),
        t[i + esc_string(s0).len()] == '"',
    ensures
        parse_str_body(t, i) == Some((s0, i + esc_string(s0).len() + 1)),
    decreases s0.len(),
{
    let e = esc_string(s0);
    if s0.len() == 0 {
        assert(e.len() == 0);
        assert(t[i] == '"');
    } else {
        let c = s0[0];
        let rest = s0.drop_first();
        let erest = esc_string(rest);
        assert(e == esc_char(c) + erest);
        if c == '"' || c == '\\' || c == '\n' || c == '\t' || c == '\r' || c == '\u{0008}' || c
            == '\u{000C}' {
            let code = if c == '"' {
                '"'
            } else if c == '\\' {
                '\\'
            } else if c == '\n' {
                'n'
            } else if c == '\t' {
                't'
            } else if c == '\r' {
                'r'
            } else if c == '\u{0008}' {
                'b'
            } else {
                'f'
            };
            assert(esc_char(c) =~= seq!['\\', code]);
            assert(e.len() == 2 + erest.len());
            assert(t[i] == e[0]);
            assert(t[i + 1] == e[1]);
            assert(e[0] == '\\');
            assert(e[1] == code);
            assert(code != 'u');
            assert(crate::parse::unesc(code) == Some(c));
            assert(t.subrange(i + 2, i + 2 + erest.len()) =~= erest) by {
                assert forall|x: int| 0 <= x < erest.len() implies t.subrange(
                    i + 2,
                    i + 2 + erest.len(),
                )[x] == erest[x] by {
                    assert(t[i + 2 + x] == e[2 + x]);
                }
            }
            assert(t[i + 2 + erest.len()] == '"');
            lemma_parse_body_of_esc(t, i + 2, rest);
            assert(seq![c] + rest =~= s0);
        } else if (c as u32) < 32 {
            let cv = (c as u32) as int;
            let hi = cv / 16;
            let lo = cv % 16;
            assert(esc_char(c) =~= seq![
                '\\',
                'u',
                '0',
                '0',
                crate::codec::hex_char(hi),
                crate::codec::hex_char(lo),
            ]);
            assert(e.len() == 6 + erest.len());
            assert(t[i] == e[0]);
            assert(t[i + 1] == e[1]);
            assert(t[i + 2] == e[2]);
            assert(t[i + 3] == e[3]);
            assert(t[i + 4] == e[4]);
            assert(t[i + 5] == e[5]);
            assert(e[0] == '\\' && e[1] == 'u' && e[2] == '0' && e[3] == '0');
            assert(e[4] == crate::codec::hex_char(hi));
            assert(e[5] == crate::codec::hex_char(lo));
            lemma_hex_char_val(hi);
            lemma_hex_char_val(lo);
            assert(is_hex('0') && hex_val('0') == 0);
            assert(crate::parse::hex4(t, i + 2) == Some(hi * 16 + lo));
            assert(hi * 16 + lo == cv);
            assert(cv < 0xD800);
            assert(crate::parse::parse_u_escape(t, i + 2) == Some((((cv as u32) as char), i + 6)));
            vstd::utf8::char_u32_cast(c, c as u32);
            assert(((cv as u32) as char) == c);
            assert(t.subrange(i + 6, i + 6 + erest.len()) =~= erest) by {
                assert forall|x: int| 0 <= x < erest.len() implies t.subrange(
                    i + 6,
                    i + 6 + erest.len(),
                )[x] == erest[x] by {
                    assert(t[i + 6 + x] == e[6 + x]);
                }
            }
            assert(t[i + 6 + erest.len()] == '"');
            lemma_parse_body_of_esc(t, i + 6, rest);
            assert(seq![c] + rest =~= s0);
        } else {
            assert(esc_char(c) =~= seq![c]);
            assert(e.len() == 1 + erest.len());
            assert(t[i] == e[0]);
            assert(e[0] == c);
            assert(c != '"' && c != '\\');
            assert(t.subrange(i + 1, i + 1 + erest.len()) =~= erest) by {
                assert forall|x: int| 0 <= x < erest.len() implies t.subrange(
                    i + 1,
                    i + 1 + erest.len(),
                )[x] == erest[x] by {
                    assert(t[i + 1 + x] == e[1 + x]);
                }
            }
            assert(t[i + 1 + erest.len()] == '"');
            lemma_parse_body_of_esc(t, i + 1, rest);
            assert(seq![c] + rest =~= s0);
        }
    }
}

/// A quoted, escaped string reads back as itself, consuming exactly its text.
pub proof fn lemma_parse_string_of_ser(t: Seq<char>, i: int, s0: Seq<char>)
    requires
        0 <= i,
        i + ser_string(s0).len() <= t.len(),
        t.subrange(i, i + ser_string(s0).len()) == ser_string(s0),
    ensures
        parse_string(t, i) == Some((s0, i + ser_string(s0).len())),
{
    let e = esc_string(s0);
    let w = ser_string(s0);
    assert(w == seq!['"'] + e + seq!['"']);
    assert(w.len() == e.len() + 2);
    assert(t[i] == w[0]);
    assert(w[0] == '"');
    assert(t.subrange(i + 1, i + 1 + e.len()) =~= e) by {
        assert forall|x: int| 0 <= x < e.len() implies t.subrange(i + 1, i + 1 + e.len())[x]
            == e[x] by {
            assert(t[i + 1 + x] == w[1 + x]);
            assert(w[1 + x] == e[x]);
        }
    }
    assert(t[i + 1 + e.len()] == w[w.len() - 1]);
    assert(w[w.len() - 1] == '"');
    lemma_parse_body_of_esc(t, i + 1, s0);
}


proof fn lemma_dec_digits_are_digits(n: int)
    requires
        n >= 0,
    ensures
        forall|x: int| 0 <= x < dec_digits(n).len() ==> is_digit(#[trigger] dec_digits(n)[x]),
    decreases n,
{
    if n < 10 {
    } else {
        lemma_dec_digits_are_digits(n / 10);
        let d = dec_digits(n);
        let dp = dec_digits(n / 10);
        assert(d == dp.push(digit_char(n % 10)));
        assert forall|x: int| 0 <= x < d.len() implies is_digit(d[x]) by {
            if x < dp.len() {
                assert(d[x] == dp[x]);
            } else {
                assert(d[x] == digit_char(n % 10));
            }
        }
    }
}

proof fn lemma_dec_len_le(n: int, k: int)
    requires
        n >= 0,
        k >= 1,
        n < pow10(k),
    ensures
        dec_digits(n).len() <= k,
    decreases n,
{
    if n < 10 {
    } else {
        assert(pow10(k) == 10 * pow10(k - 1));
        if k == 1 {
            assert(pow10(0) == 1);
            assert(false);
        }
        assert(n / 10 < pow10(k - 1)) by (nonlinear_arith)
            requires
                n < 10 * pow10(k - 1),
                n >= 10,
                pow10(k - 1) >= 0,
        ;
        lemma_dec_len_le(n / 10, k - 1);
    }
}

proof fn lemma_digits_end_run(t: Seq<char>, i: int, k: int)
    requires
        0 <= i <= k < t.len(),
        forall|j: int| i <= j < k ==> is_digit(#[trigger] t[j]),
        !is_digit(t[k]),
    ensures
        digits_end(t, i) == k,
    decreases k - i,
{
    if i < k {
        assert(is_digit(t[i]));
        lemma_digits_end_run(t, i + 1, k);
    }
}

proof fn lemma_digits_val_of_dec(t: Seq<char>, i: int, n: int)
    requires
        n >= 0,
        0 <= i,
        i + dec_digits(n).len() <= t.len(),
        t.subrange(i, i + dec_digits(n).len()) == dec_digits(n),
    ensures
        digits_val(t, i, i + dec_digits(n).len()) == n,
    decreases n,
{
    let d = dec_digits(n);
    if n < 10 {
        assert(d.len() == 1);
        assert(t[i] == d[0]);
        assert(d[0] == digit_char(n));
        assert(digits_val(t, i, i + 1) == digits_val(t, i, i) * 10 + digit_val(t[i]));
        assert(digit_val(digit_char(n)) == n);
    } else {
        let dp = dec_digits(n / 10);
        assert(d == dp.push(digit_char(n % 10)));
        assert(d.len() == dp.len() + 1);
        assert(t.subrange(i, i + dp.len()) =~= dp) by {
            assert forall|x: int| 0 <= x < dp.len() implies t.subrange(i, i + dp.len())[x]
                == dp[x] by {
                assert(t[i + x] == d[x]);
                assert(d[x] == dp[x]);
            }
        }
        lemma_digits_val_of_dec(t, i, n / 10);
        assert(t[i + d.len() - 1] == d[d.len() - 1]);
        assert(d[d.len() - 1] == digit_char(n % 10));
        assert(digit_val(digit_char(n % 10)) == n % 10);
        assert(digits_val(t, i, i + d.len()) == digits_val(t, i, i + d.len() - 1) * 10
            + digit_val(t[i + d.len() - 1]));
        assert(n / 10 * 10 + n % 10 == n);
    }
}

proof fn lemma_parse_uint_of_dec(t: Seq<char>, i: int, n: int)
    requires
        0 <= n <= 0x8000000000000000,
        0 <= i,
        i + dec_digits(n).len() < t.len(),
        t.subrange(i, i + dec_digits(n).len()) == dec_digits(n),
        !is_digit(t[i + dec_digits(n).len()]),
    ensures
        parse_uint(t, i) == Some((n, i + dec_digits(n).len())),
{
    let d = dec_digits(n);
    lemma_dec_digits_are_digits(n);
    assert forall|j: int| i <= j < i + d.len() implies is_digit(#[trigger] t[j]) by {
        assert(t[j] == d[j - i]);
    }
    lemma_digits_end_run(t, i, i + d.len());
    reveal_with_fuel(pow10, 21);
    assert(pow10(19) == 10000000000000000000);
    lemma_dec_len_le(n, 19);
    assert(d.len() >= 1);
    lemma_digits_val_of_dec(t, i, n);
}

/// A non-negative integer the writer printed reads back as itself.
pub proof fn lemma_parse_u32_of_ser(t: Seq<char>, i: int, n: u32)
    requires
        0 <= i,
        i + ser_int(n as int).len() < t.len(),
        t.subrange(i, i + ser_int(n as int).len()) == ser_int(n as int),
        !is_digit(t[i + ser_int(n as int).len()]),
    ensures
        parse_u32(t, i) == Some((n, i + ser_int(n as int).len())),
{
    assert(ser_int(n as int) == dec_digits(n as int));
    lemma_parse_uint_of_dec(t, i, n as int);
}

/// A signed 64-bit integer the writer printed reads back as itself.
pub proof fn lemma_parse_i64_of_ser(t: Seq<char>, i: int, n: i64)
    requires
        0 <= i,
        i + ser_int(n as int).len() < t.len(),
        t.subrange(i, i + ser_int(n as int).len()) == ser_int(n as int),
        !is_digit(t[i + ser_int(n as int).len()]),
    ensures
        parse_i64(t, i) == Some((n, i + ser_int(n as int).len())),
{
    let w = ser_int(n as int);
    if n >= 0 {
        assert(w == dec_digits(n as int));
        lemma_dec_digits_are_digits(n as int);
        assert(t[i] == w[0]);
        assert(is_digit(w[0]));
        assert(t[i] != '-');
        lemma_parse_uint_of_dec(t, i, n as int);
    } else {
        let m = -(n as int);
        let dm = dec_digits(m);
        assert(w == seq!['-'] + dm);
        assert(t[i] == w[0]);
        assert(w[0] == '-');
        assert(t.subrange(i + 1, i + 1 + dm.len()) =~= dm) by {
            assert forall|x: int| 0 <= x < dm.len() implies t.subrange(i + 1, i + 1 + dm.len())[x]
                == dm[x] by {
                assert(t[i + 1 + x] == w[1 + x]);
                assert(w[1 + x] == dm[x]);
            }
        }
        assert(t[i + 1 + dm.len()] == t[i + w.len()]);
        lemma_parse_uint_of_dec(t, i + 1, m);
        assert(m <= 0x8000000000000000);
        assert(((-m) as i64) == n);
    }
}

/// A signed 32-bit integer the writer printed reads back as itself.
pub proof fn lemma_parse_i32_of_ser(t: Seq<char>, i: int, n: i32)
    requires
        0 <= i,
        i + ser_int(n as int).len() < t.len(),
        t.subrange(i, i + ser_int(n as int).len()) == ser_int(n as int),
        !is_digit(t[i + ser_int(n as int).len()]),
    ensures
        parse_i32(t, i) == Some((n, i + ser_int(n as int).len())),
{
    assert(ser_int(n as int) == ser_int((n as i64) as int));
    lemma_parse_i64_of_ser(t, i, n as i64);
}

/// The word `null` reads back as itself.
pub proof fn lemma_parse_null_at(t: Seq<char>, i: int)
    requires
        0 <= i,
        i + 4 <= t.len(),
        t.subrange(i, i + 4) == crate::codec::null_tok(),
    ensures
        parse_null(t, i) == Some(i + 4),
{
    assert(t[i] == crate::codec::null_tok()[0]);
    assert(t[i + 1] == crate::codec::null_tok()[1]);
    assert(t[i + 2] == crate::codec::null_tok()[2]);
    assert(t[i + 3] == crate::codec::null_tok()[3]);
}


/// No character of `s` is one the writer escapes: neither quote nor
/// backslash nor a control character.
pub open spec fn no_escapes(s: Seq<char>) -> bool {
    forall|x: int|
        0 <= x < s.len() ==> !((#[trigger] s[x]) == '"' || s[x] == '\\' || (s[x] as u32) < 32)
}

proof fn lemma_esc_clean(s: Seq<char>)
    requires
        no_escapes(s),
    ensures
        esc_string(s) == s,
    decreases s.len(),
{
    if s.len() == 0 {
        assert(esc_string(s) =~= s);
    } else {
        let rest = s.drop_first();
        assert forall|x: int| 0 <= x < rest.len() implies !((#[trigger] rest[x]) == '"' || rest[x]
            == '\\' || (rest[x] as u32) < 32) by {
            assert(rest[x] == s[x + 1]);
        }
        lemma_esc_clean(rest);
        assert(esc_char(s[0]) =~= seq![s[0]]);
        assert(esc_string(s) =~= s);
    }
}

proof fn lemma_keys_clean()
    ensures
        esc_string(crate::codec::key_monitors()) == crate::codec::key_monitors(),
        esc_string(crate::codec::key_name()) == crate::codec::key_name(),
        esc_string(crate::codec::key_monitor_id()) == crate::codec::key_monitor_id(),
        esc_string(crate::codec::key_script()) == crate::codec::key_script(),
        esc_string(crate::codec::key_result()) == crate::codec::key_result(),
        esc_string(crate::codec::key_value()) == crate::codec::key_value(),
        esc_string(crate::codec::key_processed_at()) == crate::codec::key_processed_at(),
        esc_string(crate::codec::key_code()) == crate::codec::key_code(),
        esc_string(crate::codec::key_type()) == crate::codec::key_type(),
{
    assert(no_escapes(crate::codec::key_monitors()));
    lemma_esc_clean(crate::codec::key_monitors());
    assert(no_escapes(crate::codec::key_name()));
    lemma_esc_clean(crate::codec::key_name());
    assert(no_escapes(crate::codec::key_monitor_id()));
    lemma_esc_clean(crate::codec::key_monitor_id());
    assert(no_escapes(crate::codec::key_script()));
    lemma_esc_clean(crate::codec::key_script());
    assert(no_escapes(crate::codec::key_result()));
    lemma_esc_clean(crate::codec::key_result());
    assert(no_escapes(crate::codec::key_value()));
    lemma_esc_clean(crate::codec::key_value());
    assert(no_escapes(crate::codec::key_processed_at()));
    lemma_esc_clean(crate::codec::key_processed_at());
    assert(no_escapes(crate::codec::key_code()));
    lemma_esc_clean(crate::codec::key_code());
    assert(no_escapes(crate::codec::key_type()));
    lemma_esc_clean(crate::codec::key_type());
}

/// At a field's key quote, the reader takes the key, the colon and the one
/// space, and stands at the value.
proof fn lemma_entry_prefix(t: Seq<char>, j: int, k: Seq<char>)
    requires
        0 <= j,
        no_escapes(k),
        j + k.len() + 4 <= t.len(),
        t.subrange(j, j + k.len() + 4) == crate::codec::quoted(k) + seq![':', ' '],
    ensures
        parse_string(t, j) == Some((k, j + k.len() + 2)),
        skip_ws(t, j + k.len() + 2) == j + k.len() + 2,
        t[j + k.len() + 2] == ':',
{
    let w = crate::codec::quoted(k) + seq![':', ' '];
    assert(w.len() == k.len() + 4);
    lemma_esc_clean(k);
    assert(ser_string(k) =~= crate::codec::quoted(k));
    assert(t.subrange(j, j + k.len() + 2) =~= ser_string(k)) by {
        assert forall|x: int| 0 <= x < k.len() + 2 implies t.subrange(j, j + k.len() + 2)[x]
            == ser_string(k)[x] by {
            assert(t[j + x] == w[x]);
        }
    }
    lemma_parse_string_of_ser(t, j, k);
    assert(t[j + k.len() + 2] == w[k.len() + 2int]);
    assert(w[k.len() + 2int] == ':');
}


/// A piece of a matched stretch is itself matched.
proof fn lemma_sub_transfer(t: Seq<char>, p: int, w: Seq<char>, a: int, b: int)
    requires
        0 <= p,
        p + w.len() <= t.len(),
        t.subrange(p, p + w.len()) == w,
        0 <= a <= b <= w.len(),
    ensures
        t.subrange(p + a, p + b) == w.subrange(a, b),
{
    assert(t.subrange(p + a, p + b) =~= w.subrange(a, b)) by {
        assert forall|x: int| 0 <= x < b - a implies t.subrange(p + a, p + b)[x] == w.subrange(
            a,
            b,
        )[x] by {
            assert(t.subrange(p, p + w.len())[a + x] == w[a + x]);
        }
    }
}

proof fn lemma_char_at(t: Seq<char>, p: int, w: Seq<char>, x: int)
    requires
        0 <= p,
        p + w.len() <= t.len(),
        t.subrange(p, p + w.len()) == w,
        0 <= x < w.len(),
    ensures
        t[p + x] == w[x],
{
    assert(t.subrange(p, p + w.len())[x] == w[x]);
}

/// The first character of a printed integer is a digit or the minus sign,
/// never whitespace or a quote or a brace.
proof fn lemma_ser_int_head(n: int)
    ensures
        ser_int(n).len() >= 1,
        !is_ws(ser_int(n)[0]),
        is_digit(ser_int(n)[0]) || ser_int(n)[0] == '-',
        ser_int(n)[0] != 'n',
{
    if n < 0 {
        assert(ser_int(n)[0] == '-');
    } else {
        lemma_dec_digits_are_digits(n);
        assert(ser_int(n) == dec_digits(n));
        assert(dec_digits(n).len() >= 1);
        assert(is_digit(ser_int(n)[0]));
    }
}

/// A result object the writer produced reads back as itself.
#[verifier::rlimit(100)]
#[verifier::spinoff_prover]
proof fn lemma_parse_result_of_ser(t: Seq<char>, p: int, r: crate::model::MonitorResult)
    requires
        0 <= p,
        p + crate::codec::ser_result(r).len() <= t.len(),
        t.subrange(p, p + crate::codec::ser_result(r).len()) == crate::codec::ser_result(r),
    ensures
        crate::parse::parse_result_obj(t, p) == Some((r, p + crate::codec::ser_result(r).len())),
{
    let w = crate::codec::ser_result(r);
    let kv = crate::codec::key_value();
    let kp = crate::codec::key_processed_at();
    let sv = ser_int(r.value as int);
    let sp = ser_int(r.processed_at as int);
    let lv = sv.len() as int;
    let lp = sp.len() as int;
    // offsets inside w
    let q1 = 10int;  // the quote of "value"
    let v1 = q1 + kv.len() + 4;  // the value text
    let c1 = v1 + lv;  // the comma after it
    let q2 = c1 + 10;  // the quote of "processed_at"
    let v2 = q2 + kp.len() + 4;  // the processed_at text
    let e2 = v2 + lp;  // the newline after it
    assert(w.len() == e2 + 8);
    assert(w.subrange(0, 2) =~= seq!['{', '\n']);
    assert(w.subrange(2, q1) =~= crate::codec::sp8());
    assert(w.subrange(q1, v1) =~= crate::codec::quoted(kv) + seq![':', ' ']);
    assert(w.subrange(v1, c1) =~= sv);
    assert(w.subrange(c1, q2 - 8) =~= seq![',', '\n']);
    assert(w.subrange(q2 - 8, q2) =~= crate::codec::sp8());
    assert(w.subrange(q2, v2) =~= crate::codec::quoted(kp) + seq![':', ' ']);
    assert(w.subrange(v2, e2) =~= sp);
    assert(w.subrange(e2, e2 + 8) =~= seq!['\n', ' ', ' ', ' ', ' ', ' ', ' ', '}']);

    lemma_char_at(t, p, w, 0);
    assert(t[p] == '{');
    // whitespace run from p+1 to the first key
    lemma_char_at(t, p, w, 1);
    assert forall|j: int| p + 1 <= j < p + q1 implies is_ws(#[trigger] t[j]) by {
        lemma_char_at(t, p, w, j - p);
        if j - p >= 2 {
            assert(w.subrange(2, q1)[j - p - 2] == w[j - p]);
        }
    }
    lemma_char_at(t, p, w, q1);
    assert(w.subrange(q1, v1)[0] == w[q1]);
    assert(t[p + q1] == '"');
    lemma_skip_ws_run(t, p + 1, p + q1);

    // first entry: "value": <sv>,
    lemma_sub_transfer(t, p, w, q1, v1);
    lemma_keys_clean();
    assert(no_escapes(kv));
    lemma_entry_prefix(t, p + q1, kv);
    // the single space then the number
    lemma_char_at(t, p, w, q1 + kv.len() + 3);
    assert(w.subrange(q1, v1)[kv.len() + 3int] == w[q1 + kv.len() + 3]);
    assert(t[p + v1 - 1] == ' ');
    lemma_sub_transfer(t, p, w, v1, c1);
    lemma_ser_int_head(r.value as int);
    assert(!is_ws(sv[0]));
    assert(t[p + v1] == sv[0]) by {
        assert(t.subrange(p + v1, p + c1)[0] == sv[0]);
    }
    lemma_skip_ws_run(t, p + v1 - 1, p + v1);
    lemma_char_at(t, p, w, c1);
    assert(w.subrange(c1, q2 - 8)[0] == w[c1]);
    assert(t[p + c1] == ',');
    lemma_parse_i32_of_ser(t, p + v1, r.value);
    // dispatch: the key is "value"
    assert(kv != kp) by {
        assert(kv.len() == 5);
        assert(kp.len() == 12);
    }
    assert(crate::parse::parse_result_entry(t, p + q1, None, None) == Some(
        (Some(r.value), None::<i64>, p + c1),
    ));
    // after the entry: the comma, then the second field
    assert(skip_ws(t, p + c1) == p + c1);
    assert forall|j: int| p + c1 + 1 <= j < p + q2 implies is_ws(#[trigger] t[j]) by {
        lemma_char_at(t, p, w, j - p);
        if j - p == c1 + 1 {
            assert(w.subrange(c1, q2 - 8)[1] == w[j - p]);
        } else {
            assert(w.subrange(q2 - 8, q2)[j - p - (q2 - 8)] == w[j - p]);
        }
    }
    lemma_char_at(t, p, w, q2);
    assert(w.subrange(q2, v2)[0] == w[q2]);
    assert(t[p + q2] == '"');
    lemma_skip_ws_run(t, p + c1 + 1, p + q2);

    // second entry: "processed_at": <sp>
    lemma_sub_transfer(t, p, w, q2, v2);
    assert(no_escapes(kp));
    lemma_entry_prefix(t, p + q2, kp);
    lemma_char_at(t, p, w, q2 + kp.len() + 3);
    assert(w.subrange(q2, v2)[kp.len() + 3int] == w[q2 + kp.len() + 3]);
    assert(t[p + v2 - 1] == ' ');
    lemma_sub_transfer(t, p, w, v2, e2);
    lemma_ser_int_head(r.processed_at as int);
    assert(t[p + v2] == sp[0]) by {
        assert(t.subrange(p + v2, p + e2)[0] == sp[0]);
    }
    lemma_skip_ws_run(t, p + v2 - 1, p + v2);
    lemma_char_at(t, p, w, e2);
    assert(w.subrange(e2, e2 + 8)[0] == w[e2]);
    assert(t[p + e2] == '\n');
    lemma_parse_i64_of_ser(t, p + v2, r.processed_at);
    assert(crate::parse::parse_result_entry(t, p + q2, Some(r.value), None) == Some(
        (Some(r.value), Some(r.processed_at), p + e2),
    ));
    // the closing run: newline, six spaces, brace
    assert forall|j: int| p + e2 <= j < p + e2 + 7 implies is_ws(#[trigger] t[j]) by {
        lemma_char_at(t, p, w, j - p);
        assert(w.subrange(e2, e2 + 8)[j - p - e2] == w[j - p]);
    }
    lemma_char_at(t, p, w, e2 + 7);
    assert(w.subrange(e2, e2 + 8)[7] == w[e2 + 7]);
    assert(t[p + e2 + 7] == '}');
    lemma_skip_ws_run(t, p + e2, p + e2 + 7);
    assert(crate::parse::parse_result_fields(t, p + c1 + 1, Some(r.value), None) == Some(
        (r, p + e2 + 8),
    ));
    assert(crate::parse::parse_result_fields(t, p + 1, None, None) == Some((r, p + e2 + 8)));
}


// ---------------------------------------------------------------------------
// Reading back a whole record. The offsets name where each field of the
// written record begins, and the accumulators what the reader has gathered
// after each field.
// ---------------------------------------------------------------------------

pub open spec fn f1_of(m: crate::model::MonitorView) -> Seq<char> {
    crate::codec::ser_field(crate::codec::key_name(), ser_string(m.name))
}

pub open spec fn f2_of(m: crate::model::MonitorView) -> Seq<char> {
    crate::codec::ser_field(crate::codec::key_monitor_id(), crate::codec::ser_opt_u32(m.monitor_id))
}

pub open spec fn f3_of(m: crate::model::MonitorView) -> Seq<char> {
    crate::codec::ser_field(crate::codec::key_script(), crate::codec::ser_opt_string(m.script))
}

pub open spec fn f4_of(m: crate::model::MonitorView) -> Seq<char> {
    crate::codec::ser_field(crate::codec::key_result(), crate::codec::ser_opt_result(m.result))
}

pub open spec fn f5_of(m: crate::model::MonitorView) -> Seq<char> {
    crate::codec::ser_field(crate::codec::key_code(), ser_string(m.code))
}

pub open spec fn fl_of(m: crate::model::MonitorView) -> Seq<char> {
    crate::codec::ser_last_field(
        crate::codec::key_type(),
        crate::codec::ser_opt_string(m.monitor_type),
    )
}

pub open spec fn o2_of(m: crate::model::MonitorView) -> int {
    2 + f1_of(m).len() as int
}

pub open spec fn o3_of(m: crate::model::MonitorView) -> int {
    o2_of(m) + f2_of(m).len() as int
}

pub open spec fn o4_of(m: crate::model::MonitorView) -> int {
    o3_of(m) + f3_of(m).len() as int
}

pub open spec fn o5_of(m: crate::model::MonitorView) -> int {
    o4_of(m) + f4_of(m).len() as int
}

pub open spec fn ol_of(m: crate::model::MonitorView) -> int {
    o5_of(m) + f5_of(m).len() as int
}

pub open spec fn oend_of(m: crate::model::MonitorView) -> int {
    ol_of(m) + fl_of(m).len() as int
}

pub open spec fn acc1_of(m: crate::model::MonitorView) -> crate::parse::PartialMonitorView {
    crate::parse::PartialMonitorView {
        name: Some(m.name),
        monitor_id: None,
        script: None,
        result: None,
        code: None,
        monitor_type: None,
    }
}

pub open spec fn acc2_of(m: crate::model::MonitorView) -> crate::parse::PartialMonitorView {
    crate::parse::PartialMonitorView { monitor_id: m.monitor_id, ..acc1_of(m) }
}

pub open spec fn acc3_of(m: crate::model::MonitorView) -> crate::parse::PartialMonitorView {
    crate::parse::PartialMonitorView { script: m.script, ..acc2_of(m) }
}

pub open spec fn acc4_of(m: crate::model::MonitorView) -> crate::parse::PartialMonitorView {
    crate::parse::PartialMonitorView { result: m.result, ..acc3_of(m) }
}

pub open spec fn acc5_of(m: crate::model::MonitorView) -> crate::parse::PartialMonitorView {
    crate::parse::PartialMonitorView { code: Some(m.code), ..acc4_of(m) }
}

pub open spec fn acc6_of(m: crate::model::MonitorView) -> crate::parse::PartialMonitorView {
    crate::parse::PartialMonitorView { monitor_type: m.monitor_type, ..acc5_of(m) }
}

/// The record text holds the window of field `j`: the newline before it, the
/// element indentation, the quoted key, the colon and space, and the value.
proof fn lemma_record_window(
    t: Seq<char>,
    p: int,
    m: crate::model::MonitorView,
    a: int,
    k: Seq<char>,
    v: Seq<char>,
)
    requires
        0 <= p,
        p + crate::codec::ser_monitor(m).len() <= t.len(),
        t.subrange(p, p + crate::codec::ser_monitor(m).len()) == crate::codec::ser_monitor(m),
        0 <= a,
        a + 11 + k.len() + v.len() <= crate::codec::ser_monitor(m).len(),
        crate::codec::ser_monitor(m).subrange(a, a + 11 + k.len() + v.len()) == seq!['\n']
            + crate::codec::sp6() + crate::codec::quoted(k) + seq![':', ' '] + v,
    ensures
        t.subrange(p + a, p + a + 11 + k.len() + v.len()) == seq!['\n'] + crate::codec::sp6()
            + crate::codec::quoted(k) + seq![':', ' '] + v,
{
    lemma_sub_transfer(t, p, crate::codec::ser_monitor(m), a, a + 11 + k.len() as int + v.len() as int);
}

/// At the window of one field, the reader skips the leading whitespace, takes
/// the key, the colon and the space, and stands at the value; the position of
/// the value and of the key are fixed by the window.
proof fn lemma_field_lead(t: Seq<char>, i: int, k: Seq<char>, v: Seq<char>)
    requires
        0 <= i,
        no_escapes(k),
        v.len() >= 1,
        !is_ws(v[0]),
        i + 11 + k.len() + v.len() <= t.len(),
        t.subrange(i, i + 11 + k.len() + v.len()) == seq!['\n'] + crate::codec::sp6()
            + crate::codec::quoted(k) + seq![':', ' '] + v,
    ensures
        skip_ws(t, i) == i + 7,
        parse_string(t, i + 7) == Some((k, i + 9 + k.len())),
        skip_ws(t, i + 9 + k.len()) == i + 9 + k.len(),
        t[i + 9 + k.len()] == ':',
        skip_ws(t, i + 10 + k.len()) == i + 11 + k.len(),
        t.subrange(i + 11 + k.len(), i + 11 + k.len() + v.len()) == v,
{
    let w = seq!['\n'] + crate::codec::sp6() + crate::codec::quoted(k) + seq![':', ' '] + v;
    let kl = k.len() as int;
    let wl = w.len() as int;
    assert(wl == 11 + kl + v.len());
    assert forall|j: int| i <= j < i + 7 implies is_ws(#[trigger] t[j]) by {
        lemma_char_at(t, i, w, j - i);
        if j == i {
            assert(w[0] == '\n');
        } else {
            assert(crate::codec::sp6()[j - i - 1] == w[j - i]);
        }
    }
    lemma_char_at(t, i, w, 7);
    assert(crate::codec::quoted(k)[0] == w[7]);
    assert(t[i + 7] == '"');
    lemma_skip_ws_run(t, i, i + 7);
    lemma_sub_transfer(t, i, w, 7, 11 + kl);
    assert(w.subrange(7, 11 + kl) =~= crate::codec::quoted(k) + seq![':', ' ']);
    lemma_entry_prefix(t, i + 7, k);
    lemma_char_at(t, i, w, 10 + kl);
    assert(w[10 + kl] == ' ');
    lemma_char_at(t, i, w, 11 + kl);
    assert(w[11 + kl] == v[0]);
    lemma_skip_ws_run(t, i + 10 + kl, i + 11 + kl);
    lemma_sub_transfer(t, i, w, 11 + kl, wl);
    assert(w.subrange(11 + kl, wl) =~= v);
}


proof fn lemma_string_head(s: Seq<char>)
    ensures
        ser_string(s).len() >= 2,
        ser_string(s)[0] == '"',
        !is_ws(ser_string(s)[0]),
{
}

proof fn lemma_opt_u32_head(o: Option<u32>)
    ensures
        crate::codec::ser_opt_u32(o).len() >= 1,
        !is_ws(crate::codec::ser_opt_u32(o)[0]),
        o is Some ==> crate::codec::ser_opt_u32(o)[0] != 'n',
{
    match o {
        Some(n) => {
            lemma_ser_int_head(n as int);
        },
        None => {
            assert(crate::codec::null_tok()[0] == 'n');
        },
    }
}

proof fn lemma_opt_string_head(o: Option<Seq<char>>)
    ensures
        crate::codec::ser_opt_string(o).len() >= 1,
        !is_ws(crate::codec::ser_opt_string(o)[0]),
        o is Some ==> crate::codec::ser_opt_string(o)[0] == '"',
        o is None ==> crate::codec::ser_opt_string(o)[0] == 'n',
{
    match o {
        Some(s) => {
            lemma_string_head(s);
        },
        None => {
            assert(crate::codec::null_tok()[0] == 'n');
        },
    }
}

proof fn lemma_opt_result_head(o: Option<crate::model::MonitorResult>)
    ensures
        crate::codec::ser_opt_result(o).len() >= 1,
        !is_ws(crate::codec::ser_opt_result(o)[0]),
        o is Some ==> crate::codec::ser_opt_result(o)[0] == '{',
        o is None ==> crate::codec::ser_opt_result(o)[0] == 'n',
{
    match o {
        Some(r) => {
            assert(crate::codec::ser_result(r)[0] == '{');
        },
        None => {
            assert(crate::codec::null_tok()[0] == 'n');
        },
    }
}

proof fn lemma_keys_distinct()
    ensures
        crate::codec::key_name() != crate::codec::key_monitor_id(),
        crate::codec::key_name() != crate::codec::key_script(),
        crate::codec::key_name() != crate::codec::key_result(),
        crate::codec::key_name() != crate::codec::key_code(),
        crate::codec::key_name() != crate::codec::key_type(),
        crate::codec::key_monitor_id() != crate::codec::key_script(),
        crate::codec::key_monitor_id() != crate::codec::key_result(),
        crate::codec::key_monitor_id() != crate::codec::key_code(),
        crate::codec::key_monitor_id() != crate::codec::key_type(),
        crate::codec::key_script() != crate::codec::key_result(),
        crate::codec::key_script() != crate::codec::key_code(),
        crate::codec::key_script() != crate::codec::key_type(),
        crate::codec::key_result() != crate::codec::key_code(),
        crate::codec::key_result() != crate::codec::key_type(),
        crate::codec::key_code() != crate::codec::key_type(),
{
    assert(crate::codec::key_name()[0] == 'n');
    assert(crate::codec::key_script()[0] == 's');
    assert(crate::codec::key_result()[0] == 'r');
    assert(crate::codec::key_code()[0] == 'c');
    assert(crate::codec::key_type()[0] == 't');
    assert(crate::codec::key_name().len() == 4);
    assert(crate::codec::key_monitor_id().len() == 10);
    assert(crate::codec::key_script().len() == 6);
    assert(crate::codec::key_result().len() == 6);
    assert(crate::codec::key_code().len() == 4);
    assert(crate::codec::key_type().len() == 4);
}

#[verifier::rlimit(100)]
#[verifier::spinoff_prover]
proof fn lemma_record_step1(t: Seq<char>, p: int, m: crate::model::MonitorView)
    requires
        0 <= p,
        p + crate::codec::ser_monitor(m).len() <= t.len(),
        t.subrange(p, p + crate::codec::ser_monitor(m).len()) == crate::codec::ser_monitor(m),
    ensures
        skip_ws(t, p + 1) == p + 1 + 7,
        crate::parse::parse_monitor_entry(t, p + 1 + 7, crate::parse::empty_partial()) == Some(
            (acc1_of(m), p + o2_of(m) - 2),
        ),
        t[p + o2_of(m) - 2] == ',',
{
    let w = crate::codec::ser_monitor(m);
    let k = crate::codec::key_name();
    let v = ser_string(m.name);
    let kl = k.len() as int;
    let vl = v.len() as int;
    let a: int = 1;
    let b = o2_of(m) - 2;
    assert(b == a + 11 + kl + vl);
    assert(w.subrange(a, b) =~= seq!['\n'] + crate::codec::sp6() + crate::codec::quoted(k) + seq![
        ':',
        ' ',
    ] + v);
    lemma_record_window(t, p, m, a, k, v);
    lemma_keys_clean();
    lemma_keys_distinct();
    assert(no_escapes(k));
    lemma_string_head(m.name);
    lemma_field_lead(t, p + a, k, v);
    let vp = p + a + 11 + kl;
    assert(t.subrange(vp, vp + vl) == v);
    assert(b < w.len());
    lemma_char_at(t, p, w, b);
    assert(w[o2_of(m) - 2] == ',');
    lemma_parse_string_of_ser(t, vp, m.name);
    assert(crate::parse::parse_string(t, vp) == Some((m.name, p + b)));
}

#[verifier::rlimit(100)]
#[verifier::spinoff_prover]
proof fn lemma_record_step2(t: Seq<char>, p: int, m: crate::model::MonitorView)
    requires
        0 <= p,
        p + crate::codec::ser_monitor(m).len() <= t.len(),
        t.subrange(p, p + crate::codec::ser_monitor(m).len()) == crate::codec::ser_monitor(m),
    ensures
        skip_ws(t, p + o2_of(m) - 1) == p + o2_of(m) - 1 + 7,
        crate::parse::parse_monitor_entry(t, p + o2_of(m) - 1 + 7, acc1_of(m)) == Some(
            (acc2_of(m), p + o3_of(m) - 2),
        ),
        t[p + o3_of(m) - 2] == ',',
{
    let w = crate::codec::ser_monitor(m);
    let k = crate::codec::key_monitor_id();
    let v = crate::codec::ser_opt_u32(m.monitor_id);
    let kl = k.len() as int;
    let vl = v.len() as int;
    let a: int = o2_of(m) - 1;
    let b = o3_of(m) - 2;
    assert(b == a + 11 + kl + vl);
    assert(w.subrange(a, b) =~= seq!['\n'] + crate::codec::sp6() + crate::codec::quoted(k) + seq![
        ':',
        ' ',
    ] + v);
    lemma_record_window(t, p, m, a, k, v);
    lemma_keys_clean();
    lemma_keys_distinct();
    assert(no_escapes(k));
    lemma_opt_u32_head(m.monitor_id);
    lemma_field_lead(t, p + a, k, v);
    let vp = p + a + 11 + kl;
    assert(t.subrange(vp, vp + vl) == v);
    assert(b < w.len());
    lemma_char_at(t, p, w, b);
    assert(w[o3_of(m) - 2] == ',');
    match m.monitor_id {
        Some(nv) => {
            assert(t[vp] == v[0]) by {
                assert(t.subrange(vp, vp + vl)[0] == v[0]);
            }
            assert(t[vp] != 'n');
            assert(crate::parse::parse_null(t, vp) is None);
            lemma_parse_u32_of_ser(t, vp, nv);
        },
        None => {
            assert(v == crate::codec::null_tok());
            lemma_parse_null_at(t, vp);
        },
    }
}

#[verifier::rlimit(100)]
#[verifier::spinoff_prover]
proof fn lemma_record_step3(t: Seq<char>, p: int, m: crate::model::MonitorView)
    requires
        0 <= p,
        p + crate::codec::ser_monitor(m).len() <= t.len(),
        t.subrange(p, p + crate::codec::ser_monitor(m).len()) == crate::codec::ser_monitor(m),
    ensures
        skip_ws(t, p + o3_of(m) - 1) == p + o3_of(m) - 1 + 7,
        crate::parse::parse_monitor_entry(t, p + o3_of(m) - 1 + 7, acc2_of(m)) == Some(
            (acc3_of(m), p + o4_of(m) - 2),
        ),
        t[p + o4_of(m) - 2] == ',',
{
    let w = crate::codec::ser_monitor(m);
    let k = crate::codec::key_script();
    let v = crate::codec::ser_opt_string(m.script);
    let kl = k.len() as int;
    let vl = v.len() as int;
    let a: int = o3_of(m) - 1;
    let b = o4_of(m) - 2;
    assert(b == a + 11 + kl + vl);
    assert(w.subrange(a, b) =~= seq!['\n'] + crate::codec::sp6() + crate::codec::quoted(k) + seq![
        ':',
        ' ',
    ] + v);
    lemma_record_window(t, p, m, a, k, v);
    lemma_keys_clean();
    lemma_keys_distinct();
    assert(no_escapes(k));
    lemma_opt_string_head(m.script);
    lemma_field_lead(t, p + a, k, v);
    let vp = p + a + 11 + kl;
    assert(t.subrange(vp, vp + vl) == v);
    assert(b < w.len());
    lemma_char_at(t, p, w, b);
    assert(w[o4_of(m) - 2] == ',');
    match m.script {
        Some(sv) => {
            assert(t[vp] == v[0]) by {
                assert(t.subrange(vp, vp + vl)[0] == v[0]);
            }
            assert(t[vp] != 'n');
            assert(crate::parse::parse_null(t, vp) is None);
            lemma_parse_string_of_ser(t, vp, sv);
        },
        None => {
            assert(v == crate::codec::null_tok());
            lemma_parse_null_at(t, vp);
        },
    }
}

#[verifier::rlimit(100)]
#[verifier::spinoff_prover]
proof fn lemma_record_step4(t: Seq<char>, p: int, m: crate::model::MonitorView)
    requires
        0 <= p,
        p + crate::codec::ser_monitor(m).len() <= t.len(),
        t.subrange(p, p + crate::codec::ser_monitor(m).len()) == crate::codec::ser_monitor(m),
    ensures
        skip_ws(t, p + o4_of(m) - 1) == p + o4_of(m) - 1 + 7,
        crate::parse::parse_monitor_entry(t, p + o4_of(m) - 1 + 7, acc3_of(m)) == Some(
            (acc4_of(m), p + o5_of(m) - 2),
        ),
        t[p + o5_of(m) - 2] == ',',
{
    let w = crate::codec::ser_monitor(m);
    let k = crate::codec::key_result();
    let v = crate::codec::ser_opt_result(m.result);
    let kl = k.len() as int;
    let vl = v.len() as int;
    let a: int = o4_of(m) - 1;
    let b = o5_of(m) - 2;
    assert(b == a + 11 + kl + vl);
    assert(w.subrange(a, b) =~= seq!['\n'] + crate::codec::sp6() + crate::codec::quoted(k) + seq![
        ':',
        ' ',
    ] + v);
    lemma_record_window(t, p, m, a, k, v);
    lemma_keys_clean();
    lemma_keys_distinct();
    assert(no_escapes(k));
    lemma_opt_result_head(m.result);
    lemma_field_lead(t, p + a, k, v);
    let vp = p + a + 11 + kl;
    assert(t.subrange(vp, vp + vl) == v);
    assert(b < w.len());
    lemma_char_at(t, p, w, b);
    assert(w[o5_of(m) - 2] == ',');
    match m.result {
        Some(rv) => {
            assert(t[vp] == v[0]) by {
                assert(t.subrange(vp, vp + vl)[0] == v[0]);
            }
            assert(t[vp] != 'n');
            assert(crate::parse::parse_null(t, vp) is None);
            lemma_parse_result_of_ser(t, vp, rv);
        },
        None => {
            assert(v == crate::codec::null_tok());
            lemma_parse_null_at(t, vp);
        },
    }
}

#[verifier::rlimit(100)]
#[verifier::spinoff_prover]
proof fn lemma_record_step5(t: Seq<char>, p: int, m: crate::model::MonitorView)
    requires
        0 <= p,
        p + crate::codec::ser_monitor(m).len() <= t.len(),
        t.subrange(p, p + crate::codec::ser_monitor(m).len()) == crate::codec::ser_monitor(m),
    ensures
        skip_ws(t, p + o5_of(m) - 1) == p + o5_of(m) - 1 + 7,
        crate::parse::parse_monitor_entry(t, p + o5_of(m) - 1 + 7, acc4_of(m)) == Some(
            (acc5_of(m), p + ol_of(m) - 2),
        ),
        t[p + ol_of(m) - 2] == ',',
{
    let w = crate::codec::ser_monitor(m);
    let k = crate::codec::key_code();
    let v = ser_string(m.code);
    let kl = k.len() as int;
    let vl = v.len() as int;
    let a: int = o5_of(m) - 1;
    let b = ol_of(m) - 2;
    assert(b == a + 11 + kl + vl);
    assert(w.subrange(a, b) =~= seq!['\n'] + crate::codec::sp6() + crate::codec::quoted(k) + seq![
        ':',
        ' ',
    ] + v);
    lemma_record_window(t, p, m, a, k, v);
    lemma_keys_clean();
    lemma_keys_distinct();
    assert(no_escapes(k));
    lemma_string_head(m.code);
    lemma_field_lead(t, p + a, k, v);
    let vp = p + a + 11 + kl;
    assert(t.subrange(vp, vp + vl) == v);
    assert(b < w.len());
    lemma_char_at(t, p, w, b);
    assert(w[ol_of(m) - 2] == ',');
    lemma_parse_string_of_ser(t, vp, m.code);
}

#[verifier::rlimit(100)]
#[verifier::spinoff_prover]
proof fn lemma_record_step6(t: Seq<char>, p: int, m: crate::model::MonitorView)
    requires
        0 <= p,
        p + crate::codec::ser_monitor(m).len() <= t.len(),
        t.subrange(p, p + crate::codec::ser_monitor(m).len()) == crate::codec::ser_monitor(m),
    ensures
        skip_ws(t, p + ol_of(m) - 1) == p + ol_of(m) - 1 + 7,
        crate::parse::parse_monitor_entry(t, p + ol_of(m) - 1 + 7, acc5_of(m)) == Some(
            (acc6_of(m), p + oend_of(m) - 1),
        ),
        t[p + oend_of(m) - 1] == '\n',
{
    let w = crate::codec::ser_monitor(m);
    let k = crate::codec::key_type();
    let v = crate::codec::ser_opt_string(m.monitor_type);
    let kl = k.len() as int;
    let vl = v.len() as int;
    let a: int = ol_of(m) - 1;
    let b = oend_of(m) - 1;
    assert(b == a + 11 + kl + vl);
    assert(w.subrange(a, b) =~= seq!['\n'] + crate::codec::sp6() + crate::codec::quoted(k) + seq![
        ':',
        ' ',
    ] + v);
    lemma_record_window(t, p, m, a, k, v);
    lemma_keys_clean();
    lemma_keys_distinct();
    assert(no_escapes(k));
    lemma_opt_string_head(m.monitor_type);
    lemma_field_lead(t, p + a, k, v);
    let vp = p + a + 11 + kl;
    assert(t.subrange(vp, vp + vl) == v);
    assert(b < w.len());
    lemma_char_at(t, p, w, b);
    assert(w[oend_of(m) - 1] == '\n');
    match m.monitor_type {
        Some(sv) => {
            assert(t[vp] == v[0]) by {
                assert(t.subrange(vp, vp + vl)[0] == v[0]);
            }
            assert(t[vp] != 'n');
            assert(crate::parse::parse_null(t, vp) is None);
            lemma_parse_string_of_ser(t, vp, sv);
        },
        None => {
            assert(v == crate::codec::null_tok());
            lemma_parse_null_at(t, vp);
        },
    }
}


/// The back half of a record: from the result field's window on, the reader
/// gathers the last three fields and the closing brace.
#[verifier::rlimit(100)]
#[verifier::spinoff_prover]
proof fn lemma_parse_monitor_back(t: Seq<char>, p: int, m: crate::model::MonitorView)
    requires
        0 <= p,
        p + crate::codec::ser_monitor(m).len() <= t.len(),
        t.subrange(p, p + crate::codec::ser_monitor(m).len()) == crate::codec::ser_monitor(m),
    ensures
        crate::parse::parse_monitor_fields(t, p + o4_of(m) - 1, acc3_of(m)) == Some(
            (m, p + crate::codec::ser_monitor(m).len()),
        ),
{
    let w = crate::codec::ser_monitor(m);
    lemma_record_step4(t, p, m);
    lemma_record_step5(t, p, m);
    lemma_record_step6(t, p, m);
    let e4 = p + o5_of(m) - 2;
    let e5 = p + ol_of(m) - 2;
    let e6 = p + oend_of(m) - 1;
    assert(t[p + o4_of(m) - 1 + 7] == '"');
    assert(t[p + o5_of(m) - 1 + 7] == '"');
    assert(t[p + ol_of(m) - 1 + 7] == '"');
    assert(skip_ws(t, e4) == e4);
    assert(skip_ws(t, e5) == e5);
    // the closing run after the last entry
    assert(w.subrange(oend_of(m), oend_of(m) + 5) =~= seq![' ', ' ', ' ', ' ', '}']);
    assert forall|j: int| e6 <= j < e6 + 5 implies is_ws(#[trigger] t[j]) by {
        lemma_char_at(t, p, w, j - p);
        if j == e6 {
            assert(w[oend_of(m) - 1] == '\n');
        } else {
            assert(w.subrange(oend_of(m), oend_of(m) + 5)[j - p - oend_of(m)] == w[j - p]);
        }
    }
    lemma_char_at(t, p, w, oend_of(m) + 4);
    assert(w.subrange(oend_of(m), oend_of(m) + 5)[4] == w[oend_of(m) + 4]);
    assert(t[e6 + 5] == '}');
    lemma_skip_ws_run(t, e6, e6 + 5);
    assert(crate::parse::build_monitor(acc6_of(m)) == Some(m));
    assert(w.len() == oend_of(m) + 5);
    assert(crate::parse::parse_monitor_fields(t, e5 + 1, acc5_of(m)) == Some((m, e6 + 6)));
    assert(crate::parse::parse_monitor_fields(t, e4 + 1, acc4_of(m)) == Some((m, e6 + 6)));
    assert(crate::parse::parse_monitor_fields(t, p + o4_of(m) - 1, acc3_of(m)) == Some(
        (m, e6 + 6),
    ));
}

/// A record the writer produced reads back as itself, consuming exactly its
/// text.
#[verifier::rlimit(100)]
#[verifier::spinoff_prover]
proof fn lemma_parse_monitor_of_ser(t: Seq<char>, p: int, m: crate::model::MonitorView)
    requires
        0 <= p,
        p + crate::codec::ser_monitor(m).len() <= t.len(),
        t.subrange(p, p + crate::codec::ser_monitor(m).len()) == crate::codec::ser_monitor(m),
    ensures
        crate::parse::parse_monitor_obj(t, p) == Some((m, p + crate::codec::ser_monitor(m).len())),
{
    let w = crate::codec::ser_monitor(m);
    lemma_char_at(t, p, w, 0);
    assert(w[0] == '{');
    lemma_record_step1(t, p, m);
    lemma_record_step2(t, p, m);
    lemma_record_step3(t, p, m);
    lemma_parse_monitor_back(t, p, m);
    let e1 = p + o2_of(m) - 2;
    let e2 = p + o3_of(m) - 2;
    let e3 = p + o4_of(m) - 2;
    let done = p + crate::codec::ser_monitor(m).len() as int;
    assert(t[p + 1 + 7] == '"');
    assert(t[p + o2_of(m) - 1 + 7] == '"');
    assert(t[p + o3_of(m) - 1 + 7] == '"');
    assert(skip_ws(t, e1) == e1);
    assert(skip_ws(t, e2) == e2);
    assert(skip_ws(t, e3) == e3);
    assert(crate::parse::parse_monitor_fields(t, e2 + 1, acc2_of(m)) == Some((m, done)));
    assert(crate::parse::parse_monitor_fields(t, e1 + 1, acc1_of(m)) == Some((m, done)));
    assert(crate::parse::parse_monitor_fields(t, p + 1, crate::parse::empty_partial()) == Some(
        (m, done),
    ));
}

/// The records of a non-empty array, each preceded by its line lead and
/// followed by the closing bracket, read back as exactly that tail of the
/// sequence.
#[verifier::rlimit(100)]
#[verifier::spinoff_prover]
proof fn lemma_parse_records_of_ser(t: Seq<char>, i: int, s: Seq<crate::model::MonitorView>, k: int)
    requires
        0 <= k < s.len(),
        0 <= i,
        i + 5 + crate::codec::ser_records_from(s, k).len() + 4 <= t.len(),
        t.subrange(i, i + 5 + crate::codec::ser_records_from(s, k).len() + 4) == seq![
            '\n',
            ' ',
            ' ',
            ' ',
            ' ',
        ] + crate::codec::ser_records_from(s, k) + seq!['\n', ' ', ' ', ']'],
    ensures
        crate::parse::parse_records(t, i) == Some(
            (s.subrange(k, s.len() as int), i + 5 + crate::codec::ser_records_from(s, k).len() + 9
                - 5),
        ),
    decreases s.len() - k,
{
    let rs = crate::codec::ser_records_from(s, k);
    let w = seq!['\n', ' ', ' ', ' ', ' '] + rs + seq!['\n', ' ', ' ', ']'];
    let m = s[k];
    let wm = crate::codec::ser_monitor(m);
    let e = i + 5 + wm.len() as int;
    assert forall|j: int| i <= j < i + 5 implies is_ws(#[trigger] t[j]) by {
        lemma_char_at(t, i, w, j - i);
    }
    assert(rs[0] == wm[0]) by {
        if k == s.len() - 1 {
        } else {
            assert(rs == wm + seq![',', '\n', ' ', ' ', ' ', ' ']
                + crate::codec::ser_records_from(s, k + 1));
        }
    }
    lemma_char_at(t, i, w, 5);
    assert(w[5] == rs[0]);
    assert(wm[0] == '{');
    assert(t[i + 5] == '{');
    lemma_skip_ws_run(t, i, i + 5);
    if k == s.len() - 1 {
        assert(rs == wm);
        lemma_sub_transfer(t, i, w, 5, 5 + wm.len() as int);
        assert(w.subrange(5, 5 + wm.len() as int) =~= wm);
        lemma_parse_monitor_of_ser(t, i + 5, m);
        assert forall|j: int| e <= j < e + 3 implies is_ws(#[trigger] t[j]) by {
            lemma_char_at(t, i, w, j - i);
            assert(w[j - i] == (seq!['\n', ' ', ' ', ']'])[j - i - 5 - rs.len()]);
        }
        lemma_char_at(t, i, w, 5 + rs.len() as int + 3);
        assert(w[5 + rs.len() as int + 3] == ']');
        assert(t[e + 3] == ']');
        lemma_skip_ws_run(t, e, e + 3);
        assert(seq![m] =~= s.subrange(k, s.len() as int));
    } else {
        let rest = crate::codec::ser_records_from(s, k + 1);
        assert(rs == wm + seq![',', '\n', ' ', ' ', ' ', ' '] + rest);
        lemma_sub_transfer(t, i, w, 5, 5 + wm.len() as int);
        assert(w.subrange(5, 5 + wm.len() as int) =~= wm);
        lemma_parse_monitor_of_ser(t, i + 5, m);
        lemma_char_at(t, i, w, 5 + wm.len() as int);
        assert(w[5 + wm.len() as int] == ',');
        assert(t[e] == ',');
        assert(skip_ws(t, e) == e);
        // the tail window begins right after the comma
        assert(t.subrange(e + 1, e + 1 + 5 + rest.len() + 4) =~= seq!['\n', ' ', ' ', ' ', ' ']
            + rest + seq!['\n', ' ', ' ', ']']) by {
            let wt = seq!['\n', ' ', ' ', ' ', ' '] + rest + seq!['\n', ' ', ' ', ']'];
            assert forall|x: int| 0 <= x < wt.len() implies t.subrange(
                e + 1,
                e + 1 + 5 + rest.len() + 4,
            )[x] == wt[x] by {
                lemma_char_at(t, i, w, e + 1 + x - i);
            }
        }
        lemma_parse_records_of_ser(t, e + 1, s, k + 1);
        assert(seq![m] + s.subrange(k + 1, s.len() as int) =~= s.subrange(k, s.len() as int));
    }
}

/// The written monitors array reads back as the whole set, consuming exactly
/// its text.
#[verifier::rlimit(100)]
#[verifier::spinoff_prover]
proof fn lemma_parse_arr_of_ser(t: Seq<char>, x: int, s: Seq<crate::model::MonitorView>)
    requires
        0 <= x,
        x + crate::codec::ser_monitors(s).len() <= t.len(),
        t.subrange(x, x + crate::codec::ser_monitors(s).len()) == crate::codec::ser_monitors(s),
    ensures
        crate::parse::parse_monitors_arr(t, x) == Some(
            (s, x + crate::codec::ser_monitors(s).len()),
        ),
{
    let arr = crate::codec::ser_monitors(s);
    lemma_char_at(t, x, arr, 0);
    assert(arr[0] == '[');
    if s.len() == 0 {
        assert(arr =~= seq!['[', ']']);
        lemma_char_at(t, x, arr, 1);
        assert(t[x + 1] == ']');
        assert(skip_ws(t, x + 1) == x + 1);
        assert(Seq::<crate::model::MonitorView>::empty() =~= s);
    } else {
        let rs = crate::codec::ser_records_from(s, 0);
        assert(arr == seq!['[', '\n', ' ', ' ', ' ', ' '] + rs + seq!['\n', ' ', ' ', ']']);
        lemma_char_at(t, x, arr, 1);
        assert(t[x + 1] == '\n');
        lemma_char_at(t, x, arr, 6);
        assert(t[x + 6] == rs[0]);
        assert(rs[0] == crate::codec::ser_monitor(s[0])[0]) by {
            if s.len() > 1 {
                assert(rs == crate::codec::ser_monitor(s[0]) + seq![',', '\n', ' ', ' ', ' ', ' ']
                    + crate::codec::ser_records_from(s, 1));
            }
        }
        assert(t[x + 6] == '{');
        assert forall|j: int| x + 1 <= j < x + 6 implies is_ws(#[trigger] t[j]) by {
            lemma_char_at(t, x, arr, j - x);
        }
        lemma_skip_ws_run(t, x + 1, x + 6);
        lemma_sub_transfer(t, x, arr, 1, arr.len() as int);
        assert(arr.subrange(1, arr.len() as int) =~= seq!['\n', ' ', ' ', ' ', ' '] + rs + seq![
            '\n',
            ' ',
            ' ',
            ']',
        ]);
        lemma_parse_records_of_ser(t, x + 1, s, 0);
        assert(s.subrange(0, s.len() as int) =~= s);
        assert(x + 1 + 5 + rs.len() + 4 == x + arr.len());
    }
}

/// The opening of the document: the brace, the key `monitors`, the colon and
/// the space, down to the opening bracket of the array.
#[verifier::rlimit(100)]
#[verifier::spinoff_prover]
proof fn lemma_doc_shell(s: Seq<crate::model::MonitorView>)
    ensures
        ({
            let t = crate::codec::ser_data(s);
            let km = crate::codec::key_monitors();
            let x = 16int;
            &&& t.len() == x + crate::codec::ser_monitors(s).len() + 2
            &&& skip_ws(t, 0) == 0
            &&& 0 < t.len() && t[0] == '{'
            &&& skip_ws(t, 1) == 4
            &&& parse_string(t, 4) == Some((km, 4 + km.len() as int + 2))
            &&& skip_ws(t, 4 + km.len() as int + 2) == 4 + km.len() as int + 2
            &&& t[4 + km.len() as int + 2] == ':'
            &&& skip_ws(t, 4 + km.len() as int + 3) == x
            &&& t.subrange(x, x + crate::codec::ser_monitors(s).len())
                == crate::codec::ser_monitors(s)
            &&& t[t.len() - 2] == '\n'
            &&& t[t.len() - 1] == '}'
        }),
{
    let t = crate::codec::ser_data(s);
    let km = crate::codec::key_monitors();
    let arr = crate::codec::ser_monitors(s);
    let x = 16int;
    assert(km.len() == 8);
    assert(t == seq!['{', '\n', ' ', ' '] + crate::codec::quoted(km) + seq![':', ' '] + arr
        + seq!['\n', '}']);
    assert(t.len() == x + arr.len() + 2);
    assert(t.subrange(0, t.len() as int) =~= t);
    lemma_char_at(t, 0, t, 0);
    assert(t[0] == '{');
    assert(skip_ws(t, 0) == 0);
    assert forall|j: int| 1 <= j < 4 implies is_ws(#[trigger] t[j]) by {
        lemma_char_at(t, 0, t, j);
    }
    lemma_char_at(t, 0, t, 4);
    assert(t[4] == '"');
    lemma_skip_ws_run(t, 1, 4);
    lemma_keys_clean();
    assert(no_escapes(km));
    lemma_sub_transfer(t, 0, t, 4, 4 + km.len() as int + 4);
    assert(t.subrange(4, 4 + km.len() as int + 4) =~= crate::codec::quoted(km) + seq![':', ' ']);
    lemma_entry_prefix(t, 4, km);
    lemma_char_at(t, 0, t, x - 1);
    assert(t[x - 1] == ' ');
    lemma_char_at(t, 0, t, x);
    assert(t[x] == arr[0]);
    assert(arr.len() >= 2);
    assert(arr[0] == '[');
    assert(!is_ws('['));
    lemma_skip_ws_run(t, x - 1, x);
    lemma_sub_transfer(t, 0, t, x, x + arr.len() as int);
    assert(t.subrange(x, x + arr.len() as int) =~= arr);
    lemma_char_at(t, 0, t, x + arr.len() as int);
    lemma_char_at(t, 0, t, x + arr.len() as int + 1);
}

/// Round trip: the serialized text of any set of records reads back as
/// exactly that set. Together with the exact contracts of the serializer and
/// the reader, serializing a set and deserializing the text yields a value
/// equal in all fields to the original, for any set, of any length, with or
/// without its optional fields.
#[verifier::rlimit(100)]
#[verifier::spinoff_prover]
pub proof fn lemma_round_trip(s: Seq<crate::model::MonitorView>)
    ensures
        crate::parse::parse_data(crate::codec::ser_data(s)) == Some(s),
{
    let t = crate::codec::ser_data(s);
    let km = crate::codec::key_monitors();
    let arr = crate::codec::ser_monitors(s);
    let x = 16int;
    lemma_doc_shell(s);
    assert(km.len() == 8);
    lemma_parse_arr_of_ser(t, x, s);
    let ae = x + arr.len() as int;
    assert(t[ae] == '\n');
    assert(t[ae + 1] == '}');
    lemma_skip_ws_run(t, ae, ae + 1);
    assert(skip_ws(t, ae + 2) == ae + 2);
    assert(ae + 2 == t.len());
}

/// After at least one refresh, a persisted snapshot always reads back as a
/// set in which every record carries a result.
pub proof fn lemma_snapshot_has_results(
    before: Seq<crate::model::MonitorView>,
    after: Seq<crate::model::MonitorView>,
    values: Seq<i32>,
    now: i64,
)
    requires
        crate::model::refresh_of(before, after, values, now),
    ensures
        crate::parse::parse_data(crate::codec::ser_data(after)) == Some(after),
        forall|i: int|
            0 <= i < after.len() ==> (#[trigger] after[i].result) is Some,
{
    lemma_round_trip(after);
    crate::model::lemma_refresh_sets_every_result(before, after, values, now);
}

} // verus!
