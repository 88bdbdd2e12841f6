use vstd::prelude::*;
use crate::model::{Monitor, MonitorData, MonitorResult, MonitorView};
use crate::snapshot::{dec_digits, digit_char, digit_exec};

verus! {

// ---------------------------------------------------------------------------
// The serialized text format. The set is written as a JSON-shaped object
// `{ "monitors": [ ... ] }`, pretty-printed with two-space indentation;
// every field of a record is written, an absent optional field as `null`.
// ---------------------------------------------------------------------------

/// The hexadecimal digit character for `d` in 0..16, lower case.
pub open spec fn hex_char(d: int) -> char {
    if d < 10 {
        crate::snapshot::digit_char(d)
    } else if d == 10 {
        'a'
    } else if d == 11 {
        'b'
    } else if d == 12 {
        'c'
    } else if d == 13 {
        'd'
    } else if d == 14 {
        'e'
    } else {
        'f'
    }
}

/// The escape for one character inside a quoted string: quote, backslash,
/// newline, tab, carriage return, backspace and form feed are written as
/// two-character escapes, every other control character as `\u00XX`, and
/// every remaining character stands for itself.
pub open spec fn esc_char(c: char) -> Seq<char> {
    if c == '"' {
        seq!['\\', '"']
    } else if c == '\\' {
        seq!['\\', '\\']
    } else if c == '\n' {
        seq!['\\', 'n']
    } else if c == '\t' {
        seq!['\\', 't']
    } else if c == '\r' {
        seq!['\\', 'r']
    } else if c == '\u{0008}' {
        seq!['\\', 'b']
    } else if c == '\u{000C}' {
        seq!['\\', 'f']
    } else if (c as u32) < 32 {
        seq!['\\', 'u', '0', '0', hex_char((c as u32) as int / 16), hex_char((c as u32) as int % 16)]
    } else {
        seq![c]
    }
}

/// The body of a quoted string: every character escaped in turn.
pub open spec fn esc_string(s: Seq<char>) -> Seq<char>
    decreases s.len(),
{
    if s.len() == 0 {
        Seq::empty()
    } else {
        esc_char(s[0]) + esc_string(s.drop_first())
    }
}

/// A quoted, escaped string.
pub open spec fn ser_string(s: Seq<char>) -> Seq<char> {
    seq!['"'] + esc_string(s) + seq!['"']
}

/// A quoted key, written without escapes: no key holds a character that
/// needs one.
pub open spec fn quoted(k: Seq<char>) -> Seq<char> {
    seq!['"'] + k + seq!['"']
}

/// A signed decimal integer.
pub open spec fn ser_int(n: int) -> Seq<char> {
    if n < 0 {
        seq!['-'] + dec_digits(-n)
    } else {
        dec_digits(n)
    }
}

pub open spec fn null_tok() -> Seq<char> {
    seq!['n', 'u', 'l', 'l']
}

pub open spec fn ser_opt_u32(o: Option<u32>) -> Seq<char> {
    match o {
        Some(n) => ser_int(n as int),
        None => null_tok(),
    }
}

pub open spec fn ser_opt_string(o: Option<Seq<char>>) -> Seq<char> {
    match o {
        Some(s) => ser_string(s),
        None => null_tok(),
    }
}

pub open spec fn key_monitors() -> Seq<char> {
    seq!['m', 'o', 'n', 'i', 't', 'o', 'r', 's']
}

pub open spec fn key_name() -> Seq<char> {
    seq!['n', 'a', 'm', 'e']
}

pub open spec fn key_monitor_id() -> Seq<char> {
    seq!['m', 'o', 'n', 'i', 't', 'o', 'r', '_', 'i', 'd']
}

pub open spec fn key_script() -> Seq<char> {
    seq!['s', 'c', 'r', 'i', 'p', 't']
}

pub open spec fn key_result() -> Seq<char> {
    seq!['r', 'e', 's', 'u', 'l', 't']
}

pub open spec fn key_value() -> Seq<char> {
    seq!['v', 'a', 'l', 'u', 'e']
}

pub open spec fn key_processed_at() -> Seq<char> {
    seq!['p', 'r', 'o', 'c', 'e', 's', 's', 'e', 'd', '_', 'a', 't']
}

pub open spec fn key_code() -> Seq<char> {
    seq!['c', 'o', 'd', 'e']
}

pub open spec fn key_type() -> Seq<char> {
    seq!['t', 'y', 'p', 'e']
}

/// Six spaces: the indentation of a record's fields.
pub open spec fn sp6() -> Seq<char> {
    seq![' ', ' ', ' ', ' ', ' ', ' ']
}

/// Eight spaces: the indentation of a result object's fields.
pub open spec fn sp8() -> Seq<char> {
    seq![' ', ' ', ' ', ' ', ' ', ' ', ' ', ' ']
}

/// The opening of a field: indentation, quoted key, colon, one space.
pub open spec fn field_open(ind: Seq<char>, k: Seq<char>) -> Seq<char> {
    ind + quoted(k) + seq![':', ' ']
}

/// One field at record depth: indentation, quoted key, colon, value.
pub open spec fn ser_field(k: Seq<char>, v: Seq<char>) -> Seq<char> {
    field_open(sp6(), k) + v + seq![',', '\n']
}

/// The last field of a record carries no trailing comma.
pub open spec fn ser_last_field(k: Seq<char>, v: Seq<char>) -> Seq<char> {
    field_open(sp6(), k) + v + seq!['\n']
}

/// A result object, written at record-field depth.
pub open spec fn ser_result(r: MonitorResult) -> Seq<char> {
    seq!['{', '\n'] + field_open(sp8(), key_value()) + ser_int(r.value as int) + seq![',', '\n']
        + field_open(sp8(), key_processed_at()) + ser_int(r.processed_at as int) + seq![
        '\n',
        ' ',
        ' ',
        ' ',
        ' ',
        ' ',
        ' ',
        '}',
    ]
}

pub open spec fn ser_opt_result(o: Option<MonitorResult>) -> Seq<char> {
    match o {
        Some(r) => ser_result(r),
        None => null_tok(),
    }
}

/// The opening half of a record: brace, name, monitor_id and script fields.
pub open spec fn ser_monitor_head(m: MonitorView) -> Seq<char> {
    seq!['{', '\n'] + ser_field(key_name(), ser_string(m.name)) + ser_field(
        key_monitor_id(),
        ser_opt_u32(m.monitor_id),
    ) + ser_field(key_script(), ser_opt_string(m.script))
}

/// The closing half of a record: result, code and type fields, then the
/// closing brace at element depth.
pub open spec fn ser_monitor_tail(m: MonitorView) -> Seq<char> {
    ser_field(key_result(), ser_opt_result(m.result)) + ser_field(key_code(), ser_string(m.code))
        + ser_last_field(key_type(), ser_opt_string(m.monitor_type)) + seq![' ', ' ', ' ', ' ', '}']
}

/// One record: every field written in a fixed order.
pub open spec fn ser_monitor(m: MonitorView) -> Seq<char> {
    ser_monitor_head(m) + ser_monitor_tail(m)
}

/// The records from position `k` on, separated by a comma, a newline and the
/// element indentation.
pub open spec fn ser_records_from(s: Seq<MonitorView>, k: int) -> Seq<char>
    decreases s.len() - k,
{
    if k < 0 || k >= s.len() {
        Seq::empty()
    } else if k == s.len() - 1 {
        ser_monitor(s[k])
    } else {
        ser_monitor(s[k]) + seq![',', '\n', ' ', ' ', ' ', ' '] + ser_records_from(s, k + 1)
    }
}

/// The monitors array: empty as `[]`, otherwise one element per line.
pub open spec fn ser_monitors(s: Seq<MonitorView>) -> Seq<char> {
    if s.len() == 0 {
        seq!['[', ']']
    } else {
        seq!['[', '\n', ' ', ' ', ' ', ' '] + ser_records_from(s, 0) + seq![
            '\n',
            ' ',
            ' ',
            ']',
        ]
    }
}

/// The whole set.
pub open spec fn ser_data(s: Seq<MonitorView>) -> Seq<char> {
    seq!['{', '\n', ' ', ' '] + quoted(key_monitors()) + seq![':', ' '] + ser_monitors(s) + seq![
        '\n',
        '}',
    ]
}

// ---------------------------------------------------------------------------
// The executable serializer.
// ---------------------------------------------------------------------------

proof fn lemma_esc_push(s: Seq<char>, c: char)
    ensures
        esc_string(s.push(c)) == esc_string(s) + esc_char(c),
    decreases s.len(),
{
    if s.len() == 0 {
        assert(s.push(c).len() == 1);
        assert(s.push(c)[0] == c);
        assert(s.push(c).drop_first() =~= Seq::<char>::empty());
        assert(esc_string(Seq::<char>::empty()) =~= Seq::<char>::empty());
        assert(esc_string(s.push(c)) =~= esc_char(c));
        assert(esc_string(s) + esc_char(c) =~= esc_char(c));
    } else {
        lemma_esc_push(s.drop_first(), c);
        assert(s.push(c).drop_first() =~= s.drop_first().push(c));
        assert(esc_string(s.push(c)) =~= esc_string(s) + esc_char(c));
    }
}

/// The hexadecimal digit character for `d` in 0..16, lower case.
fn hex_exec(d: u32) -> (c: char)
    requires
        d < 16,
    ensures
        c == hex_char(d as int),
{
    if d < 10 {
        crate::snapshot::digit_exec(d)
    } else if d == 10 {
        'a'
    } else if d == 11 {
        'b'
    } else if d == 12 {
        'c'
    } else if d == 13 {
        'd'
    } else if d == 14 {
        'e'
    } else {
        'f'
    }
}

fn push_escaped(out: &mut Vec<char>, s: &Vec<char>)
    ensures
        final(out)@ == old(out)@ + esc_string(s@),
{
    let mut i: usize = 0;
    proof {
        assert(s@.take(0) =~= Seq::<char>::empty());
        assert(out@ =~= old(out)@ + esc_string(s@.take(0)));
    }
    while i < s.len()
        invariant
            i <= s@.len(),
            out@ == old(out)@ + esc_string(s@.take(i as int)),
        decreases s@.len() - i,
    {
        let c = s[i];
        if c == '"' {
            out.push('\\');
            out.push('"');
        } else if c == '\\' {
            out.push('\\');
            out.push('\\');
        } else if c == '\n' {
            out.push('\\');
            out.push('n');
        } else if c == '\t' {
            out.push('\\');
            out.push('t');
        } else if c == '\r' {
            out.push('\\');
            out.push('r');
        } else if c == '\u{0008}' {
            out.push('\\');
            out.push('b');
        } else if c == '\u{000C}' {
            out.push('\\');
            out.push('f');
        } else if (c as u32) < 32 {
            out.push('\\');
            out.push('u');
            out.push('0');
            out.push('0');
            out.push(hex_exec((c as u32) / 16));
            out.push(hex_exec((c as u32) % 16));
        } else {
            out.push(c);
        }
        proof {
            lemma_esc_push(s@.take(i as int), c);
            assert(s@.take(i + 1) =~= s@.take(i as int).push(c));
            assert(out@ =~= old(out)@ + esc_string(s@.take(i + 1)));
        }
        i += 1;
    }
    proof {
        assert(s@.take(s@.len() as int) =~= s@);
    }
}

/// Appends a quoted, escaped string.
fn push_string(out: &mut Vec<char>, s: &String)
    ensures
        final(out)@ == old(out)@ + ser_string(s@),
{
    out.push('"');
    let chars = crate::text::str_to_chars(s.as_str());
    push_escaped(out, &chars);
    out.push('"');
    proof {
        assert(out@ =~= old(out)@ + ser_string(s@));
    }
}

fn push_u64(out: &mut Vec<char>, n: u64)
    ensures
        final(out)@ == old(out)@ + dec_digits(n as int),
    decreases n,
{
    if n < 10 {
        out.push(digit_exec(n as u32));
        proof {
            assert(out@ =~= old(out)@ + dec_digits(n as int));
        }
    } else {
        push_u64(out, n / 10);
        out.push(digit_exec((n % 10) as u32));
        proof {
            assert(out@ =~= old(out)@ + dec_digits(n as int));
        }
    }
}

fn push_i64(out: &mut Vec<char>, n: i64)
    ensures
        final(out)@ == old(out)@ + ser_int(n as int),
{
    if n >= 0 {
        push_u64(out, n as u64);
    } else {
        out.push('-');
        let m: u64 = if n == i64::MIN {
            9223372036854775808u64
        } else {
            (-n) as u64
        };
        proof {
            assert(m as int == -(n as int));
        }
        push_u64(out, m);
        proof {
            assert(out@ =~= old(out)@ + ser_int(n as int));
        }
    }
}

fn push_null(out: &mut Vec<char>)
    ensures
        final(out)@ == old(out)@ + null_tok(),
{
    out.push('n');
    out.push('u');
    out.push('l');
    out.push('l');
    proof {
        assert(out@ =~= old(out)@ + null_tok());
    }
}

/// Appends every character of the sequence literal held by `lit`.
fn push_lit(out: &mut Vec<char>, lit: &Vec<char>)
    ensures
        final(out)@ == old(out)@ + lit@,
{
    crate::text::append_chars(out, lit);
}

fn push_field_open(out: &mut Vec<char>, key: &Vec<char>)
    ensures
        final(out)@ == old(out)@ + field_open(sp6(), key@),
{
    out.push(' ');
    out.push(' ');
    out.push(' ');
    out.push(' ');
    out.push(' ');
    out.push(' ');
    out.push('"');
    push_lit(out, key);
    out.push('"');
    out.push(':');
    out.push(' ');
    proof {
        assert(out@ =~= old(out)@ + field_open(sp6(), key@));
    }
}

fn push_field_open8(out: &mut Vec<char>, key: &Vec<char>)
    ensures
        final(out)@ == old(out)@ + field_open(sp8(), key@),
{
    out.push(' ');
    out.push(' ');
    out.push(' ');
    out.push(' ');
    out.push(' ');
    out.push(' ');
    out.push(' ');
    out.push(' ');
    out.push('"');
    push_lit(out, key);
    out.push('"');
    out.push(':');
    out.push(' ');
    proof {
        assert(out@ =~= old(out)@ + field_open(sp8(), key@));
    }
}

fn push_result(out: &mut Vec<char>, r: &MonitorResult)
    ensures
        final(out)@ == old(out)@ + ser_result(*r),
{
    out.push('{');
    out.push('\n');
    let kv: Vec<char> = vec!['v', 'a', 'l', 'u', 'e'];
    proof {
        assert(kv@ =~= key_value());
    }
    push_field_open8(out, &kv);
    push_i64(out, r.value as i64);
    out.push(',');
    out.push('\n');
    let ghost mid = out@;
    proof {
        assert(mid =~= old(out)@ + seq!['{', '\n'] + field_open(sp8(), key_value()) + ser_int(
            r.value as int,
        ) + seq![',', '\n']);
    }
    let kp: Vec<char> = vec!['p', 'r', 'o', 'c', 'e', 's', 's', 'e', 'd', '_', 'a', 't'];
    proof {
        assert(kp@ =~= key_processed_at());
    }
    push_field_open8(out, &kp);
    push_i64(out, r.processed_at);
    out.push('\n');
    out.push(' ');
    out.push(' ');
    out.push(' ');
    out.push(' ');
    out.push(' ');
    out.push(' ');
    out.push('}');
    proof {
        assert(out@ =~= mid + field_open(sp8(), key_processed_at()) + ser_int(
            r.processed_at as int,
        ) + seq!['\n', ' ', ' ', ' ', ' ', ' ', ' ', '}']);
        assert(out@ =~= old(out)@ + ser_result(*r));
    }
}

#[verifier::rlimit(100)]
fn push_monitor_head(out: &mut Vec<char>, m: &Monitor)
    ensures
        final(out)@ == old(out)@ + ser_monitor_head(m@),
{
    out.push('{');
    out.push('\n');
    let kn: Vec<char> = vec!['n', 'a', 'm', 'e'];
    proof {
        assert(kn@ =~= key_name());
    }
    push_field_open(out, &kn);
    push_string(out, &m.name);
    out.push(',');
    out.push('\n');
    let ghost c1 = out@;
    proof {
        assert(c1 =~= old(out)@ + seq!['{', '\n'] + ser_field(key_name(), ser_string(m.name@)));
    }
    let ki: Vec<char> = vec!['m', 'o', 'n', 'i', 't', 'o', 'r', '_', 'i', 'd'];
    proof {
        assert(ki@ =~= key_monitor_id());
    }
    push_field_open(out, &ki);
    match &m.monitor_id {
        Some(n) => {
            push_u64(out, *n as u64);
        },
        None => {
            push_null(out);
        },
    }
    out.push(',');
    out.push('\n');
    let ghost c2 = out@;
    proof {
        assert(c2 =~= c1 + ser_field(key_monitor_id(), ser_opt_u32(m.monitor_id)));
    }
    let ks: Vec<char> = vec!['s', 'c', 'r', 'i', 'p', 't'];
    proof {
        assert(ks@ =~= key_script());
    }
    push_field_open(out, &ks);
    match &m.script {
        Some(s) => {
            push_string(out, s);
        },
        None => {
            push_null(out);
        },
    }
    out.push(',');
    out.push('\n');
    proof {
        assert(out@ =~= c2 + ser_field(key_script(), ser_opt_string(m@.script)));
        assert(out@ =~= old(out)@ + ser_monitor_head(m@));
    }
}

#[verifier::rlimit(100)]
fn push_monitor_tail(out: &mut Vec<char>, m: &Monitor)
    ensures
        final(out)@ == old(out)@ + ser_monitor_tail(m@),
{
    let kr: Vec<char> = vec!['r', 'e', 's', 'u', 'l', 't'];
    proof {
        assert(kr@ =~= key_result());
    }
    push_field_open(out, &kr);
    match &m.result {
        Some(r) => {
            push_result(out, r);
        },
        None => {
            push_null(out);
        },
    }
    out.push(',');
    out.push('\n');
    let ghost c4 = out@;
    proof {
        assert(c4 =~= old(out)@ + ser_field(key_result(), ser_opt_result(m.result)));
    }
    let kc: Vec<char> = vec!['c', 'o', 'd', 'e'];
    proof {
        assert(kc@ =~= key_code());
    }
    push_field_open(out, &kc);
    push_string(out, &m.code);
    out.push(',');
    out.push('\n');
    let ghost c5 = out@;
    proof {
        assert(c5 =~= c4 + ser_field(key_code(), ser_string(m.code@)));
    }
    let kt: Vec<char> = vec!['t', 'y', 'p', 'e'];
    proof {
        assert(kt@ =~= key_type());
    }
    push_field_open(out, &kt);
    match &m.monitor_type {
        Some(s) => {
            push_string(out, s);
        },
        None => {
            push_null(out);
        },
    }
    out.push('\n');
    out.push(' ');
    out.push(' ');
    out.push(' ');
    out.push(' ');
    out.push('}');
    proof {
        assert(out@ =~= c5 + ser_last_field(key_type(), ser_opt_string(m@.monitor_type)) + seq![
            ' ',
            ' ',
            ' ',
            ' ',
            '}',
        ]);
        assert(out@ =~= old(out)@ + ser_monitor_tail(m@));
    }
}

fn push_monitor(out: &mut Vec<char>, m: &Monitor)
    ensures
        final(out)@ == old(out)@ + ser_monitor(m@),
{
    push_monitor_head(out, m);
    push_monitor_tail(out, m);
    proof {
        assert(out@ =~= old(out)@ + ser_monitor(m@));
    }
}

fn push_records(out: &mut Vec<char>, v: &Vec<Monitor>, k: usize)
    requires
        k < v@.len(),
    ensures
        final(out)@ == old(out)@ + ser_records_from(crate::model::monitors_view(v@), k as int),
    decreases v@.len() - k,
{
    let n = v.len();
    push_monitor(out, &v[k]);
    proof {
        assert(crate::model::monitors_view(v@)[k as int] == v@[k as int]@);
    }
    if k + 1 < n {
        out.push(',');
        out.push('\n');
        out.push(' ');
        out.push(' ');
        out.push(' ');
        out.push(' ');
        let ghost mid = out@;
        proof {
            assert(mid =~= old(out)@ + ser_monitor(v@[k as int]@) + seq![',', '\n', ' ', ' ', ' ', ' ']);
        }
        push_records(out, v, k + 1);
        proof {
            assert(out@ =~= old(out)@ + ser_records_from(
                crate::model::monitors_view(v@),
                k as int,
            ));
        }
    } else {
        proof {
            assert(out@ =~= old(out)@ + ser_records_from(
                crate::model::monitors_view(v@),
                k as int,
            ));
        }
    }
}

/// Serializes the whole set to its pretty-printed text, exactly as
/// `ser_data` describes.
pub fn to_json_pretty(data: &MonitorData) -> (r: String)
    ensures
        r@ == ser_data(data@),
{
    let mut out: Vec<char> = Vec::new();
    out.push('{');
    out.push('\n');
    out.push(' ');
    out.push(' ');
    let km: Vec<char> = vec!['m', 'o', 'n', 'i', 't', 'o', 'r', 's'];
    proof {
        assert(km@ =~= key_monitors());
    }
    out.push('"');
    push_lit(&mut out, &km);
    out.push('"');
    out.push(':');
    out.push(' ');
    let ghost c1 = out@;
    proof {
        assert(c1 =~= seq!['{', '\n', ' ', ' '] + quoted(key_monitors()) + seq![':', ' ']);
    }
    if data.monitors.len() == 0 {
        out.push('[');
        out.push(']');
        proof {
            assert(data@.len() == 0);
            assert(out@ =~= c1 + ser_monitors(data@));
        }
    } else {
        out.push('[');
        out.push('\n');
        out.push(' ');
        out.push(' ');
        out.push(' ');
        out.push(' ');
        let ghost c2 = out@;
        proof {
            assert(c2 =~= c1 + seq!['[', '\n', ' ', ' ', ' ', ' ']);
        }
        push_records(&mut out, &data.monitors, 0);
        out.push('\n');
        out.push(' ');
        out.push(' ');
        out.push(']');
        proof {
            assert(out@ =~= c2 + ser_records_from(data@, 0) + seq!['\n', ' ', ' ', ']']);
            assert(out@ =~= c1 + ser_monitors(data@));
        }
    }
    out.push('\n');
    out.push('}');
    proof {
        assert(out@ =~= ser_data(data@));
    }
    crate::text::chars_to_string(&out)
}

} // verus!
