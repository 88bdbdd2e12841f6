use vstd::prelude::*;
use crate::clock::LocalTimeParts;

verus! {

/// The decimal digit character for `d` in 0..10.
pub open spec fn digit_char(d: int) -> char {
    if d == 0 {
        '0'
    } else if d == 1 {
        '1'
    } else if d == 2 {
        '2'
    } else if d == 3 {
        '3'
    } else if d == 4 {
        '4'
    } else if d == 5 {
        '5'
    } else if d == 6 {
        '6'
    } else if d == 7 {
        '7'
    } else if d == 8 {
        '8'
    } else {
        '9'
    }
}

/// The decimal digits of a non-negative number, most significant first.
pub open spec fn dec_digits(n: int) -> Seq<char>
    decreases n,
{
    if n < 10 {
        seq![digit_char(n)]
    } else {
        dec_digits(n / 10).push(digit_char(n % 10))
    }
}

/// Two zero-padded decimal digits, for `n` in 0..100.
pub open spec fn two_digits(n: int) -> Seq<char> {
    seq![digit_char(n / 10), digit_char(n % 10)]
}

/// Four zero-padded decimal digits, for `n` in 0..10000.
pub open spec fn four_digits(n: int) -> Seq<char> {
    seq![digit_char(n / 1000), digit_char((n / 100) % 10), digit_char((n / 10) % 10), digit_char(n % 10)]
}

/// The half-day marker of the 12-hour clock.
pub open spec fn ampm(pm: bool) -> Seq<char> {
    if pm {
        seq!['p', 'm']
    } else {
        seq!['a', 'm']
    }
}

/// The fixed ending of every snapshot filename.
pub open spec fn filename_tail() -> Seq<char> {
    seq!['_', 'm', 'o', 'n', 'i', 't', 'o', 'r', 's', '.', 'j', 's', 'o', 'n']
}

/// Everything of the filename before the minute: day, month, year and the
/// 12-hour hour, separated as the format writes them.
pub open spec fn filename_head(p: LocalTimeParts) -> Seq<char> {
    two_digits(p.day as int) + seq!['_'] + two_digits(p.month as int) + seq!['_'] + four_digits(
        p.year as int,
    ) + seq!['_'] + dec_digits(p.hour12 as int) + seq!['-']
}

/// The snapshot filename for the local time `p`:
/// `DD_MM_YYYY_h-MMam_monitors.json` (or `pm`), with no padding on the hour.
pub open spec fn filename_spec(p: LocalTimeParts) -> Seq<char> {
    filename_head(p) + two_digits(p.minute as int) + ampm(p.pm) + filename_tail()
}

/// The digit character for `d` in 0..10.
pub(crate) fn digit_exec(d: u32) -> (c: char)
    requires
        d < 10,
    ensures
        c == digit_char(d as int),
{
    if d == 0 {
        '0'
    } else if d == 1 {
        '1'
    } else if d == 2 {
        '2'
    } else if d == 3 {
        '3'
    } else if d == 4 {
        '4'
    } else if d == 5 {
        '5'
    } else if d == 6 {
        '6'
    } else if d == 7 {
        '7'
    } else if d == 8 {
        '8'
    } else {
        '9'
    }
}

fn push_two_digits(out: &mut Vec<char>, n: u32)
    requires
        n < 100,
    ensures
        final(out)@ == old(out)@ + two_digits(n as int),
{
    out.push(digit_exec(n / 10));
    out.push(digit_exec(n % 10));
    proof {
        assert(out@ =~= old(out)@ + two_digits(n as int));
    }
}

fn push_four_digits(out: &mut Vec<char>, n: u32)
    requires
        n < 10000,
    ensures
        final(out)@ == old(out)@ + four_digits(n as int),
{
    out.push(digit_exec(n / 1000));
    out.push(digit_exec((n / 100) % 10));
    out.push(digit_exec((n / 10) % 10));
    out.push(digit_exec(n % 10));
    proof {
        assert(out@ =~= old(out)@ + four_digits(n as int));
    }
}

/// Builds the snapshot filename for the local time `p`, or nothing when a
/// component is outside its civil range.
pub fn build_filename(p: LocalTimeParts) -> (r: Option<String>)
    ensures
        p.wf() ==> (r matches Some(s) && s@ == filename_spec(p)),
        !p.wf() ==> r is None,
{
    if !(1 <= p.day && p.day <= 31 && 1 <= p.month && p.month <= 12 && 0 <= p.year && p.year
        <= 9999 && 1 <= p.hour12 && p.hour12 <= 12 && p.minute <= 59) {
        return None;
    }
    let mut v: Vec<char> = Vec::new();
    push_two_digits(&mut v, p.day);
    v.push('_');
    push_two_digits(&mut v, p.month);
    v.push('_');
    push_four_digits(&mut v, p.year as u32);
    v.push('_');
    if p.hour12 < 10 {
        v.push(digit_exec(p.hour12));
        proof {
            assert(dec_digits(p.hour12 as int) =~= seq![digit_char(p.hour12 as int)]);
        }
    } else {
        v.push('1');
        v.push(digit_exec(p.hour12 % 10));
        proof {
            assert(p.hour12 as int / 10 == 1);
            assert(dec_digits(1) =~= seq![digit_char(1)]);
            assert(dec_digits(p.hour12 as int) =~= seq![
                digit_char(1),
                digit_char(p.hour12 as int % 10),
            ]);
        }
    }
    v.push('-');
    proof {
        assert(v@ =~= filename_head(p));
    }
    push_two_digits(&mut v, p.minute);
    if p.pm {
        v.push('p');
        v.push('m');
    } else {
        v.push('a');
        v.push('m');
    }
    let tail: Vec<char> = vec!['_', 'm', 'o', 'n', 'i', 't', 'o', 'r', 's', '.', 'j', 's', 'o', 'n'];
    proof {
        assert(tail@ =~= filename_tail());
    }
    crate::text::append_chars(&mut v, &tail);
    proof {
        assert(v@ =~= filename_spec(p));
    }
    Some(crate::text::chars_to_string(&v))
}

/// Distinct minutes give distinct filenames: since the persister wakes once
/// a minute, two persistence cycles one period apart never collide on the
/// output file.
pub proof fn lemma_filenames_differ(a: LocalTimeParts, b: LocalTimeParts)
    requires
        a.wf(),
        b.wf(),
        a.minute != b.minute,
    ensures
        filename_spec(a) != filename_spec(b),
{
    let fa = filename_spec(a);
    let fb = filename_spec(b);
    if fa == fb {
        assert(fa.len() == filename_head(a).len() + 18);
        assert(fb.len() == filename_head(b).len() + 18);
        let ha = filename_head(a).len() as int;
        let hb = filename_head(b).len() as int;
        assert(ha == hb);
        assert(fa[ha] == digit_char(a.minute as int / 10));
        assert(fa[ha + 1] == digit_char(a.minute as int % 10));
        assert(fb[hb] == digit_char(b.minute as int / 10));
        assert(fb[hb + 1] == digit_char(b.minute as int % 10));
        assert(a.minute as int / 10 == b.minute as int / 10);
        assert(a.minute as int % 10 == b.minute as int % 10);
        assert(a.minute == b.minute);
    }
}


/// What one persistence cycle writes: the timestamped filename, the local
/// time it was taken at, and the serialized text of the whole set at that
/// instant.
pub struct SnapshotFile {
    pub filename: String,
    pub taken_at: LocalTimeParts,
    pub contents: String,
}

/// The computation of one persistence cycle: serializes the whole set and
/// names the output file after the current local time. Returns nothing only
/// when the local clock reported a year outside four decimal digits, the one
/// component of the wall clock the format cannot carry.
pub fn prepare_snapshot(data: &crate::model::MonitorData) -> (r: Option<SnapshotFile>)
    ensures
        r matches Some(f) ==> {
            &&& f.contents@ == crate::codec::ser_data(data@)
            &&& f.taken_at.wf()
            &&& f.filename@ == filename_spec(f.taken_at)
        },
{
    let parts = crate::clock::local_now_parts();
    match build_filename(parts) {
        Some(name) => {
            let contents = crate::codec::to_json_pretty(data);
            Some(SnapshotFile { filename: name, taken_at: parts, contents })
        },
        None => None,
    }
}

} // verus!
