//! The persistence codec: a task store is written as one text record —
//! an array of objects with `name`, `description`, `priority` and `createdAt`
//! fields — and read back losslessly. Both directions are specified over
//! character sequences and proved inverse to each other.

use crate::digits::{digit, digit_val, four_digits};
use crate::digits::{lemma_digit_val_of_digit, push_four_digits, push_two_digits};
use crate::strutil::{chars_of, string_of};
use crate::task::{Priority, Task, TaskView, Timestamp};
use vstd::prelude::*;
use vstd::seq_lib::lemma_concat_associative;
use vstd::string::*;

verus! {

/// Malformed or schema-incompatible persisted data.
#[derive(Debug)]
pub struct ParseError {}

// ---------------------------------------------------------------------------
// Serialization, at the specification level.
// ---------------------------------------------------------------------------
/// The opening of a record: a brace and the quoted `name` key.
pub open spec fn key_name() -> Seq<char> {
    seq!['{', '"', 'n', 'a', 'm', 'e', '"', ':']
}

/// The quoted `description` key, preceded by the separating comma.
pub open spec fn key_description() -> Seq<char> {
    seq![',', '"', 'd', 'e', 's', 'c', 'r', 'i', 'p', 't', 'i', 'o', 'n', '"', ':']
}

/// The quoted `priority` key, preceded by the separating comma.
pub open spec fn key_priority() -> Seq<char> {
    seq![',', '"', 'p', 'r', 'i', 'o', 'r', 'i', 't', 'y', '"', ':']
}

/// The quoted `createdAt` key, preceded by the separating comma.
pub open spec fn key_created_at() -> Seq<char> {
    seq![',', '"', 'c', 'r', 'e', 'a', 't', 'e', 'd', 'A', 't', '"', ':']
}

/// A character as it stands inside a quoted string: quote and backslash get
/// a backslash escape, every other character stands for itself.
pub open spec fn esc_char(c: char) -> Seq<char> {
    if c == '"' || c == '\\' {
        seq!['\\', c]
    } else {
        seq![c]
    }
}

/// The characters of `s`, each escaped.
pub open spec fn ser_chars(s: Seq<char>) -> Seq<char>
    decreases s.len(),
{
    if s.len() == 0 {
        Seq::<char>::empty()
    } else {
        esc_char(s[0]) + ser_chars(s.skip(1))
    }
}

/// A quoted, escaped string.
pub open spec fn ser_string(s: Seq<char>) -> Seq<char> {
    seq!['"'] + ser_chars(s) + seq!['"']
}

/// The persisted name of a priority level.
pub open spec fn prio_name(p: Priority) -> Seq<char> {
    match p {
        Priority::Unset => seq!['U', 'n', 's', 'e', 't'],
        Priority::Low => seq!['L', 'o', 'w'],
        Priority::Medium => seq!['M', 'e', 'd', 'i', 'u', 'm'],
        Priority::High => seq!['H', 'i', 'g', 'h'],
        Priority::VeryHigh => seq!['V', 'e', 'r', 'y', 'H', 'i', 'g', 'h'],
    }
}

/// The persisted rendering of a timestamp: `YYYY-MM-DDTHH:MM:SS`, nineteen
/// characters.
pub open spec fn time_chars(t: Timestamp) -> Seq<char> {
    seq![
        digit(t.year as int / 1000),
        digit((t.year as int / 100) % 10),
        digit((t.year as int / 10) % 10),
        digit(t.year as int % 10),
        '-',
        digit(t.month as int / 10),
        digit(t.month as int % 10),
        '-',
        digit(t.day as int / 10),
        digit(t.day as int % 10),
        'T',
        digit(t.hour as int / 10),
        digit(t.hour as int % 10),
        ':',
        digit(t.minute as int / 10),
        digit(t.minute as int % 10),
        ':',
        digit(t.second as int / 10),
        digit(t.second as int % 10),
    ]
}

/// A digit character is never a quote or a backslash.
proof fn lemma_digit_plain(n: int)
    ensures
        digit(n) != '"' && digit(n) != '\\',
{
}

/// The timestamp rendering contains no quote and no backslash, so escaping
/// leaves it unchanged.
proof fn lemma_time_chars_plain(t: Timestamp)
    ensures
        forall|i: int|
            0 <= i < time_chars(t).len() ==> time_chars(t)[i] != '"' && time_chars(t)[i] != '\\',
        ser_chars(time_chars(t)) == time_chars(t),
{
    assert forall|i: int|
        0 <= i < time_chars(t).len() implies time_chars(t)[i] != '"' && time_chars(t)[i]
        != '\\' by {
        lemma_digit_plain(t.year as int / 1000);
        lemma_digit_plain((t.year as int / 100) % 10);
        lemma_digit_plain((t.year as int / 10) % 10);
        lemma_digit_plain(t.year as int % 10);
        lemma_digit_plain(t.month as int / 10);
        lemma_digit_plain(t.month as int % 10);
        lemma_digit_plain(t.day as int / 10);
        lemma_digit_plain(t.day as int % 10);
        lemma_digit_plain(t.hour as int / 10);
        lemma_digit_plain(t.hour as int % 10);
        lemma_digit_plain(t.minute as int / 10);
        lemma_digit_plain(t.minute as int % 10);
        lemma_digit_plain(t.second as int / 10);
        lemma_digit_plain(t.second as int % 10);
    }
    lemma_ser_chars_plain(time_chars(t));
}

/// One persisted task record.
pub open spec fn ser_task(t: TaskView) -> Seq<char> {
    key_name() + ser_string(t.name) + key_description() + ser_string(t.description)
        + key_priority() + ser_string(prio_name(t.priority)) + key_created_at() + ser_string(
        time_chars(t.created_at),
    ) + seq!['}']
}

/// The records after the first, each preceded by a comma.
pub open spec fn ser_tasks_rest(ts: Seq<TaskView>) -> Seq<char>
    decreases ts.len(),
{
    if ts.len() == 0 {
        Seq::<char>::empty()
    } else {
        seq![','] + ser_task(ts[0]) + ser_tasks_rest(ts.skip(1))
    }
}

/// The whole persisted store: the ordered records in brackets.
pub open spec fn spec_serialize(ts: Seq<TaskView>) -> Seq<char> {
    if ts.len() == 0 {
        seq!['[', ']']
    } else {
        seq!['['] + ser_task(ts[0]) + ser_tasks_rest(ts.skip(1)) + seq![']']
    }
}

// ---------------------------------------------------------------------------
// Serialization, executable.
// ---------------------------------------------------------------------------
/// Appends the characters of `s` unchanged.
fn push_lit(out: &mut Vec<char>, s: &str)
    ensures
        final(out)@ == old(out)@ + s@,
{
    let n: usize = s.unicode_len();
    let mut i: usize = 0;
    while i < n
        invariant
            i <= n,
            n == s@.len(),
            out@ == old(out)@ + s@.take(i as int),
        decreases n - i,
    {
        out.push(s.get_char(i));
        i = i + 1;
        proof {
            assert(out@ =~= old(out)@ + s@.take(i as int));
        }
    }
    proof {
        assert(old(out)@ + s@.take(n as int) =~= old(out)@ + s@);
    }
}

/// Escaping distributes over appending one character at the end.
proof fn lemma_ser_chars_snoc(s: Seq<char>, c: char)
    ensures
        ser_chars(s.push(c)) == ser_chars(s) + esc_char(c),
    decreases s.len(),
{
    if s.len() == 0 {
        assert(s.push(c).skip(1) =~= Seq::<char>::empty());
        assert(ser_chars(Seq::<char>::empty()) == Seq::<char>::empty());
        assert(ser_chars(s.push(c)) == esc_char(s.push(c)[0]) + ser_chars(s.push(c).skip(1)));
        assert(s.push(c)[0] == c);
        assert(ser_chars(s.push(c)) =~= ser_chars(s) + esc_char(c));
    } else {
        assert(s.push(c).skip(1) =~= s.skip(1).push(c));
        lemma_ser_chars_snoc(s.skip(1), c);
        assert(ser_chars(s.push(c)) =~= ser_chars(s) + esc_char(c));
    }
}

/// Appends the quoted, escaped rendering of `s`.
fn push_string(out: &mut Vec<char>, s: &str)
    ensures
        final(out)@ == old(out)@ + ser_string(s@),
{
    out.push('"');
    let n: usize = s.unicode_len();
    let mut i: usize = 0;
    while i < n
        invariant
            i <= n,
            n == s@.len(),
            out@ == old(out)@ + seq!['"'] + ser_chars(s@.take(i as int)),
        decreases n - i,
    {
        let c: char = s.get_char(i);
        if c == '"' || c == '\\' {
            out.push('\\');
        }
        out.push(c);
        i = i + 1;
        proof {
            assert(s@.take(i as int) =~= s@.take(i - 1).push(c));
            lemma_ser_chars_snoc(s@.take(i - 1), c);
            assert(out@ =~= old(out)@ + seq!['"'] + ser_chars(s@.take(i as int)));
        }
    }
    out.push('"');
    proof {
        assert(s@.take(n as int) =~= s@);
        assert(out@ =~= old(out)@ + ser_string(s@));
    }
}

/// Appends the nineteen-character timestamp rendering.
fn push_time(out: &mut Vec<char>, t: Timestamp)
    requires
        t.wf(),
    ensures
        final(out)@ == old(out)@ + time_chars(t),
{
    proof {
        assert(four_digits(t.year as int) == seq![
            digit(t.year as int / 1000),
            digit((t.year as int / 100) % 10),
            digit((t.year as int / 10) % 10),
            digit(t.year as int % 10),
        ]);
    }
    push_four_digits(out, t.year);
    out.push('-');
    push_two_digits(out, t.month as u16);
    out.push('-');
    push_two_digits(out, t.day as u16);
    out.push('T');
    push_two_digits(out, t.hour as u16);
    out.push(':');
    push_two_digits(out, t.minute as u16);
    out.push(':');
    push_two_digits(out, t.second as u16);
    proof {
        assert(out@ =~= old(out)@ + time_chars(t));
    }
}

/// The persisted name of a priority level, as a string.
pub fn priority_codec_name(p: Priority) -> (r: String)
    ensures
        r@ == prio_name(p),
{
    proof {
        reveal_strlit("Unset");
        reveal_strlit("Low");
        reveal_strlit("Medium");
        reveal_strlit("High");
        reveal_strlit("VeryHigh");
    }
    let r = match p {
        Priority::Unset => String::from_str("Unset"),
        Priority::Low => String::from_str("Low"),
        Priority::Medium => String::from_str("Medium"),
        Priority::High => String::from_str("High"),
        Priority::VeryHigh => String::from_str("VeryHigh"),
    };
    proof {
        assert(r@ =~= prio_name(p));
    }
    r
}

/// Appends one task record.
#[verifier::rlimit(100)]
fn push_task(out: &mut Vec<char>, t: &Task)
    requires
        t@.wf(),
    ensures
        final(out)@ == old(out)@ + ser_task(t@),
{
    proof {
        reveal_strlit("{\"name\":");
        reveal_strlit(",\"description\":");
        reveal_strlit(",\"priority\":");
        reveal_strlit(",\"createdAt\":");
        assert("{\"name\":"@ =~= key_name());
        assert(",\"description\":"@ =~= key_description());
        assert(",\"priority\":"@ =~= key_priority());
        assert(",\"createdAt\":"@ =~= key_created_at());
    }
    let ghost pre = out@;
    let ghost a1 = key_name();
    let ghost a2 = ser_string(t@.name);
    let ghost a3 = key_description();
    let ghost a4 = ser_string(t@.description);
    let ghost a5 = key_priority();
    let ghost a6 = ser_string(prio_name(t@.priority));
    let ghost a7 = key_created_at();
    let ghost a8 = ser_string(time_chars(t@.created_at));
    let ghost a9 = seq!['}'];
    let ghost tc = time_chars(t@.created_at);
    let ghost q = seq!['"'];
    push_lit(out, "{\"name\":");
    push_string(out, t.name.as_str());
    push_lit(out, ",\"description\":");
    push_string(out, t.description.as_str());
    push_lit(out, ",\"priority\":");
    let pname: String = priority_codec_name(t.priority);
    push_string(out, pname.as_str());
    push_lit(out, ",\"createdAt\":");
    let ghost o7 = out@;
    out.push('"');
    proof {
        assert(out@ =~= o7 + q);
    }
    push_time(out, t.created_at);
    let ghost o8 = out@;
    out.push('"');
    out.push('}');
    proof {
        assert(out@ =~= ((o8 + q) + a9));
        // the time token needs no escaping, so its quoted form is plain
        lemma_time_chars_plain(t@.created_at);
        assert(a8 == (q + tc) + q);
        // reassociate the quoted time token onto the accumulated output
        lemma_concat_associative(o7, q, tc);
        lemma_concat_associative(o7, q + tc, q);
        assert(o8 + q == o7 + a8);
        // normalize `pre + ser_task` to the left-nested shape the pushes built
        let b2 = a1 + a2;
        let b3 = b2 + a3;
        let b4 = b3 + a4;
        let b5 = b4 + a5;
        let b6 = b5 + a6;
        let b7 = b6 + a7;
        let b8 = b7 + a8;
        let b9 = b8 + a9;
        assert(ser_task(t@) == b9);
        lemma_concat_associative(pre, a1, a2);
        lemma_concat_associative(pre, b2, a3);
        lemma_concat_associative(pre, b3, a4);
        lemma_concat_associative(pre, b4, a5);
        lemma_concat_associative(pre, b5, a6);
        lemma_concat_associative(pre, b6, a7);
        lemma_concat_associative(pre, b7, a8);
        lemma_concat_associative(pre, b8, a9);
        assert(o7 == pre + b7);
        assert(out@ == pre + ser_task(t@));
    }
}

/// Escaping a sequence without quotes or backslashes leaves it unchanged.
proof fn lemma_ser_chars_plain(s: Seq<char>)
    requires
        forall|i: int| 0 <= i < s.len() ==> s[i] != '"' && s[i] != '\\',
    ensures
        ser_chars(s) == s,
    decreases s.len(),
{
    if s.len() == 0 {
        assert(ser_chars(s) =~= s);
    } else {
        lemma_ser_chars_plain(s.skip(1));
        assert(ser_chars(s) =~= s);
    }
}

/// The whole store as one text record.
#[verifier::rlimit(100)]
pub fn serialize_tasks(tasks: &Vec<Task>) -> (r: String)
    requires
        forall|i: int| 0 <= i < tasks@.len() ==> (#[trigger] tasks@[i])@.wf(),
    ensures
        r@ == spec_serialize(tasks@.map_values(|t: Task| t@)),
{
    let ghost tsv = tasks@.map_values(|t: Task| t@);
    let mut out: Vec<char> = Vec::new();
    out.push('[');
    let n: usize = tasks.len();
    if n == 0 {
        out.push(']');
        proof {
            assert(out@ =~= spec_serialize(tsv));
        }
        return string_of(&out);
    }
    push_task(&mut out, &tasks[0]);
    proof {
        assert(tsv.subrange(1, 1) =~= Seq::<TaskView>::empty());
        assert(ser_tasks_rest(Seq::<TaskView>::empty()) == Seq::<char>::empty());
        assert(out@ =~= (seq!['['] + ser_task(tsv[0])) + ser_tasks_rest(tsv.subrange(1, 1)));
    }
    let mut i: usize = 1;
    while i < n
        invariant
            1 <= i <= n,
            n == tsv.len(),
            tsv == tasks@.map_values(|t: Task| t@),
            forall|k: int| 0 <= k < tasks@.len() ==> (#[trigger] tasks@[k])@.wf(),
            out@ == seq!['['] + ser_task(tsv[0]) + ser_tasks_rest(tsv.subrange(1, i as int)),
        decreases n - i,
    {
        let ghost o0 = out@;
        out.push(',');
        proof {
            assert(out@ =~= o0 + seq![',']);
        }
        push_task(&mut out, &tasks[i]);
        i = i + 1;
        proof {
            let x = seq!['['] + ser_task(tsv[0]);
            let r = ser_tasks_rest(tsv.subrange(1, i - 1));
            let s = ser_task(tsv[i - 1]);
            lemma_ser_tasks_rest_snoc(tsv, i as int);
            lemma_concat_associative(x, r, seq![',']);
            lemma_concat_associative(x, r + seq![','], s);
            assert(out@ == x + ser_tasks_rest(tsv.subrange(1, i as int)));
        }
    }
    out.push(']');
    proof {
        assert(tsv.subrange(1, n as int) =~= tsv.skip(1));
        assert(out@ =~= (seq!['['] + ser_task(tsv[0]) + ser_tasks_rest(tsv.skip(1))) + seq![']']);
        assert(out@ == spec_serialize(tsv));
    }
    string_of(&out)
}

/// Extending the records-after-the-first by one appends one comma-prefixed
/// record.
proof fn lemma_ser_tasks_rest_snoc(ts: Seq<TaskView>, i: int)
    requires
        2 <= i <= ts.len(),
    ensures
        ser_tasks_rest(ts.subrange(1, i)) == ser_tasks_rest(ts.subrange(1, i - 1)) + seq![',']
            + ser_task(ts[i - 1]),
    decreases i,
{
    if i == 2 {
        assert(ts.subrange(1, 2).skip(1) =~= Seq::<TaskView>::empty());
        assert(ts.subrange(1, 1) =~= Seq::<TaskView>::empty());
        assert(ts.subrange(1, 2)[0] == ts[1]);
        assert(ser_tasks_rest(ts.subrange(1, 2)) =~= ser_tasks_rest(ts.subrange(1, 1)) + seq![',']
            + ser_task(ts[1]));
    } else {
        lemma_ser_tasks_rest_snoc(ts.skip(1), i - 1);
        assert(ts.skip(1).subrange(1, i - 1) =~= ts.subrange(2, i));
        assert(ts.skip(1).subrange(1, i - 2) =~= ts.subrange(2, i - 1));
        assert(ts.subrange(1, i).skip(1) =~= ts.subrange(2, i));
        assert(ts.subrange(1, i - 1).skip(1) =~= ts.subrange(2, i - 1));
        assert(ts.subrange(1, i)[0] == ts[1]);
        assert(ts.subrange(1, i - 1)[0] == ts[1]);
        assert(ts.skip(1)[i - 2] == ts[i - 1]);
        assert(ser_tasks_rest(ts.subrange(1, i)) =~= ser_tasks_rest(ts.subrange(1, i - 1))
            + seq![','] + ser_task(ts[i - 1]));
    }
}


// ---------------------------------------------------------------------------
// Parsing, at the specification level.
// ---------------------------------------------------------------------------
/// Reads the body of a quoted string up to its closing quote: the unescaped
/// characters, and what follows the closing quote.
pub open spec fn parse_str_chars(s: Seq<char>) -> Option<(Seq<char>, Seq<char>)>
    decreases s.len(),
{
    if s.len() == 0 {
        None
    } else if s[0] == '"' {
        Some((Seq::<char>::empty(), s.skip(1)))
    } else if s[0] == '\\' {
        if s.len() >= 2 && (s[1] == '"' || s[1] == '\\') {
            match parse_str_chars(s.skip(2)) {
                Some(p) => Some((seq![s[1]] + p.0, p.1)),
                None => None,
            }
        } else {
            None
        }
    } else {
        match parse_str_chars(s.skip(1)) {
            Some(p) => Some((seq![s[0]] + p.0, p.1)),
            None => None,
        }
    }
}

/// Reads a quoted string: an opening quote, then its body.
pub open spec fn parse_string(s: Seq<char>) -> Option<(Seq<char>, Seq<char>)> {
    if s.len() > 0 && s[0] == '"' {
        parse_str_chars(s.skip(1))
    } else {
        None
    }
}

/// Reads the exact characters of `lit` and returns what follows them.
pub open spec fn skip_lit(s: Seq<char>, lit: Seq<char>) -> Option<Seq<char>> {
    if s.len() >= lit.len() && s.take(lit.len() as int) == lit {
        Some(s.skip(lit.len() as int))
    } else {
        None
    }
}

/// The priority level named by a string token, if any.
pub open spec fn prio_of_chars(v: Seq<char>) -> Option<Priority> {
    if v == prio_name(Priority::Unset) {
        Some(Priority::Unset)
    } else if v == prio_name(Priority::Low) {
        Some(Priority::Low)
    } else if v == prio_name(Priority::Medium) {
        Some(Priority::Medium)
    } else if v == prio_name(Priority::High) {
        Some(Priority::High)
    } else if v == prio_name(Priority::VeryHigh) {
        Some(Priority::VeryHigh)
    } else {
        None
    }
}

/// The value of the two digits at position `i`.
pub open spec fn time_field(v: Seq<char>, i: int) -> Option<int> {
    match (digit_val(v[i]), digit_val(v[i + 1])) {
        (Some(a), Some(b)) => Some(10 * a + b),
        _ => None,
    }
}

/// The value of the four leading year digits.
pub open spec fn year_field(v: Seq<char>) -> Option<int> {
    match (digit_val(v[0]), digit_val(v[1]), digit_val(v[2]), digit_val(v[3])) {
        (Some(a), Some(b), Some(c), Some(d)) => Some(1000 * a + 100 * b + 10 * c + d),
        _ => None,
    }
}

/// The timestamp a nineteen-character token denotes, if it is well shaped
/// and its fields lie in their calendar ranges.
pub open spec fn time_of_chars(v: Seq<char>) -> Option<Timestamp> {
    if v.len() == 19 && v[4] == '-' && v[7] == '-' && v[10] == 'T' && v[13] == ':' && v[16]
        == ':' {
        match (year_field(v), time_field(v, 5), time_field(v, 8), time_field(v, 11), time_field(v, 14), time_field(v, 17)) {
            (Some(y), Some(mo), Some(d), Some(h), Some(mi), Some(sec)) => {
                if 1 <= mo <= 12 && 1 <= d <= 31 && h <= 23 && mi <= 59 && sec <= 59 {
                    Some(
                        Timestamp {
                            year: y as u16,
                            month: mo as u8,
                            day: d as u8,
                            hour: h as u8,
                            minute: mi as u8,
                            second: sec as u8,
                        },
                    )
                } else {
                    None
                }
            },
            _ => None,
        }
    } else {
        None
    }
}

/// Reads one task record and returns it with what follows it.
pub open spec fn parse_task(s: Seq<char>) -> Option<(TaskView, Seq<char>)> {
    match skip_lit(s, key_name()) {
        None => None,
        Some(s1) => match parse_string(s1) {
            None => None,
            Some((name, s2)) => match skip_lit(s2, key_description()) {
                None => None,
                Some(s3) => match parse_string(s3) {
                    None => None,
                    Some((description, s4)) => match skip_lit(s4, key_priority()) {
                        None => None,
                        Some(s5) => match parse_string(s5) {
                            None => None,
                            Some((ptok, s6)) => match prio_of_chars(ptok) {
                                None => None,
                                Some(priority) => match skip_lit(s6, key_created_at()) {
                                    None => None,
                                    Some(s7) => match parse_string(s7) {
                                        None => None,
                                        Some((ttok, s8)) => match time_of_chars(ttok) {
                                            None => None,
                                            Some(created_at) => match skip_lit(s8, seq!['}']) {
                                                None => None,
                                                Some(s9) => Some(
                                                    (
                                                        TaskView {
                                                            name,
                                                            description,
                                                            priority,
                                                            created_at,
                                                        },
                                                        s9,
                                                    ),
                                                ),
                                            },
                                        },
                                    },
                                },
                            },
                        },
                    },
                },
            },
        },
    }
}

/// Reads what follows a task record: either the closing bracket ending the
/// input, or a comma and the remaining records. `fuel` bounds the number of
/// records still to read.
pub open spec fn parse_rest(s: Seq<char>, fuel: nat) -> Option<Seq<TaskView>>
    decreases fuel,
{
    if s.len() == 1 && s[0] == ']' {
        Some(Seq::<TaskView>::empty())
    } else if s.len() > 0 && s[0] == ',' {
        if fuel == 0 {
            None
        } else {
            match parse_task(s.skip(1)) {
                None => None,
                Some((t, r)) => match parse_rest(r, (fuel - 1) as nat) {
                    None => None,
                    Some(ts) => Some(seq![t] + ts),
                },
            }
        }
    } else {
        None
    }
}

/// The task sequence a whole persisted store denotes, or `None` on
/// malformed input.
pub open spec fn spec_deserialize(s: Seq<char>) -> Option<Seq<TaskView>> {
    if s.len() >= 1 && s[0] == '[' {
        if s.len() == 2 && s[1] == ']' {
            Some(Seq::<TaskView>::empty())
        } else {
            match parse_task(s.skip(1)) {
                None => None,
                Some((t, r)) => match parse_rest(r, s.len() as nat) {
                    None => None,
                    Some(ts) => Some(seq![t] + ts),
                },
            }
        }
    } else {
        None
    }
}

// ---------------------------------------------------------------------------
// The parser inverts the serializer.
// ---------------------------------------------------------------------------
/// Reading a serialized string body finds exactly the original characters.
proof fn lemma_parse_ser_chars(x: Seq<char>, rest: Seq<char>)
    ensures
        parse_str_chars(ser_chars(x) + seq!['"'] + rest) == Some((x, rest)),
    decreases x.len(),
{
    let s = ser_chars(x) + seq!['"'] + rest;
    if x.len() == 0 {
        assert(s[0] == '"');
        assert(s.skip(1) =~= rest);
        assert(Seq::<char>::empty() =~= x);
    } else {
        let c = x[0];
        assert(ser_chars(x) == esc_char(c) + ser_chars(x.skip(1)));
        if c == '"' || c == '\\' {
            assert(esc_char(c) == seq!['\\', c]);
            assert(s[0] == '\\');
            assert(s.len() >= 2);
            assert(s[1] == c);
            assert(s.skip(2) =~= ser_chars(x.skip(1)) + seq!['"'] + rest);
            lemma_parse_ser_chars(x.skip(1), rest);
            assert(seq![s[1]] + x.skip(1) =~= x);
        } else {
            assert(esc_char(c) == seq![c]);
            assert(s[0] == c);
            assert(s.skip(1) =~= ser_chars(x.skip(1)) + seq!['"'] + rest);
            lemma_parse_ser_chars(x.skip(1), rest);
            assert(seq![s[0]] + x.skip(1) =~= x);
        }
    }
}

/// Reading a serialized string finds exactly the original string.
proof fn lemma_parse_string_inverts(x: Seq<char>, rest: Seq<char>)
    ensures
        parse_string(ser_string(x) + rest) == Some((x, rest)),
{
    let s = ser_string(x) + rest;
    assert(s[0] == '"');
    assert(s.len() > 0);
    assert(s.skip(1) =~= ser_chars(x) + seq!['"'] + rest);
    lemma_parse_ser_chars(x, rest);
}

/// Skipping a literal off the front of `lit + rest` leaves `rest`.
proof fn lemma_skip_lit_inverts(lit: Seq<char>, rest: Seq<char>)
    ensures
        skip_lit(lit + rest, lit) == Some(rest),
{
    let s = lit + rest;
    assert(s.take(lit.len() as int) =~= lit);
    assert(s.skip(lit.len() as int) =~= rest);
}

/// The five priority names name their own levels.
proof fn lemma_prio_inverts(p: Priority)
    ensures
        prio_of_chars(prio_name(p)) == Some(p),
{
    assert(prio_name(Priority::Unset).len() == 5);
    assert(prio_name(Priority::Low).len() == 3);
    assert(prio_name(Priority::Medium).len() == 6);
    assert(prio_name(Priority::High).len() == 4);
    assert(prio_name(Priority::VeryHigh).len() == 8);
}

/// The year digits of a rendered timestamp read back as the year.
proof fn lemma_year_field(t: Timestamp)
    requires
        t.year <= 9999,
    ensures
        year_field(time_chars(t)) == Some(t.year as int),
{
    let v = time_chars(t);
    let y = t.year as int;
    assert(v[0] == digit(y / 1000));
    assert(v[1] == digit((y / 100) % 10));
    assert(v[2] == digit((y / 10) % 10));
    assert(v[3] == digit(y % 10));
    lemma_digit_val_of_digit(y / 1000);
    lemma_digit_val_of_digit((y / 100) % 10);
    lemma_digit_val_of_digit((y / 10) % 10);
    lemma_digit_val_of_digit(y % 10);
    assert(1000 * (y / 1000) + 100 * ((y / 100) % 10) + 10 * ((y / 10) % 10) + y % 10 == y)
        by (nonlinear_arith)
        requires
            0 <= y < 10000,
    ;
}

/// Two digit characters at position `i` read back as the value they render.
proof fn lemma_two_digit_field(v: Seq<char>, i: int, m: int)
    requires
        0 <= m < 100,
        0 <= i,
        i + 1 < v.len(),
        v[i] == digit(m / 10),
        v[i + 1] == digit(m % 10),
    ensures
        time_field(v, i) == Some(m),
{
    lemma_digit_val_of_digit(m / 10);
    lemma_digit_val_of_digit(m % 10);
    assert(10 * (m / 10) + m % 10 == m);
}

/// Reading back a rendered timestamp yields the same timestamp.
#[verifier::rlimit(100)]
proof fn lemma_time_inverts(t: Timestamp)
    requires
        t.wf(),
    ensures
        time_of_chars(time_chars(t)) == Some(t),
{
    let v = time_chars(t);
    assert(v.len() == 19);
    assert(v[4] == '-' && v[7] == '-' && v[10] == 'T' && v[13] == ':' && v[16] == ':');
    lemma_year_field(t);
    lemma_two_digit_field(v, 5, t.month as int);
    lemma_two_digit_field(v, 8, t.day as int);
    lemma_two_digit_field(v, 11, t.hour as int);
    lemma_two_digit_field(v, 14, t.minute as int);
    lemma_two_digit_field(v, 17, t.second as int);
}

/// Reading back a serialized task record yields the same task and leaves
/// what followed the record.
#[verifier::rlimit(100)]
proof fn lemma_parse_task_inverts(t: TaskView, rest: Seq<char>)
    requires
        t.wf(),
    ensures
        parse_task(ser_task(t) + rest) == Some((t, rest)),
{
    let a1 = key_name();
    let a2 = ser_string(t.name);
    let a3 = key_description();
    let a4 = ser_string(t.description);
    let a5 = key_priority();
    let a6 = ser_string(prio_name(t.priority));
    let a7 = key_created_at();
    let a8 = ser_string(time_chars(t.created_at));
    let a9 = seq!['}'];
    let b2 = a1 + a2;
    let b3 = b2 + a3;
    let b4 = b3 + a4;
    let b5 = b4 + a5;
    let b6 = b5 + a6;
    let b7 = b6 + a7;
    let b8 = b7 + a8;
    let b9 = b8 + a9;
    assert(ser_task(t) == b9);
    // peel the pieces off the front, reassociating one at a time
    let r9 = a9 + rest;
    let r8 = a8 + r9;
    let r7 = a7 + r8;
    let r6 = a6 + r7;
    let r5 = a5 + r6;
    let r4 = a4 + r5;
    let r3 = a3 + r4;
    let r2 = a2 + r3;
    lemma_concat_associative(b8, a9, rest);
    lemma_concat_associative(b7, a8, r9);
    lemma_concat_associative(b6, a7, r8);
    lemma_concat_associative(b5, a6, r7);
    lemma_concat_associative(b4, a5, r6);
    lemma_concat_associative(b3, a4, r5);
    lemma_concat_associative(b2, a3, r4);
    lemma_concat_associative(a1, a2, r3);
    assert(ser_task(t) + rest == a1 + r2);
    lemma_skip_lit_inverts(a1, r2);
    lemma_parse_string_inverts(t.name, r3);
    lemma_skip_lit_inverts(a3, r4);
    lemma_parse_string_inverts(t.description, r5);
    lemma_skip_lit_inverts(a5, r6);
    lemma_parse_string_inverts(prio_name(t.priority), r7);
    lemma_prio_inverts(t.priority);
    lemma_skip_lit_inverts(a7, r8);
    lemma_parse_string_inverts(time_chars(t.created_at), r9);
    lemma_time_inverts(t.created_at);
    lemma_skip_lit_inverts(a9, rest);
    assert(parse_task(ser_task(t) + rest) == Some((TaskView { name: t.name, description: t.description, priority: t.priority, created_at: t.created_at }, rest)));
    assert(TaskView { name: t.name, description: t.description, priority: t.priority, created_at: t.created_at } == t);
}

/// Each serialized record contributes at least one character.
proof fn lemma_ser_tasks_rest_len(ts: Seq<TaskView>)
    ensures
        ser_tasks_rest(ts).len() >= ts.len(),
    decreases ts.len(),
{
    if ts.len() > 0 {
        lemma_ser_tasks_rest_len(ts.skip(1));
    }
}

/// Reading back the serialized records after the first, up to the closing
/// bracket, yields the same records.
#[verifier::rlimit(100)]
proof fn lemma_parse_rest_inverts(ts: Seq<TaskView>, fuel: nat)
    requires
        forall|i: int| 0 <= i < ts.len() ==> (#[trigger] ts[i]).wf(),
        fuel >= ts.len(),
    ensures
        parse_rest(ser_tasks_rest(ts) + seq![']'], fuel) == Some(ts),
    decreases ts.len(),
{
    let q2 = seq![']'];
    let s = ser_tasks_rest(ts) + q2;
    if ts.len() == 0 {
        assert(s =~= seq![']']);
        assert(Seq::<TaskView>::empty() =~= ts);
    } else {
        let c = seq![','];
        let st0 = ser_task(ts[0]);
        let rest1 = ser_tasks_rest(ts.skip(1));
        assert(ser_tasks_rest(ts) == (c + st0) + rest1);
        lemma_concat_associative(c + st0, rest1, q2);
        lemma_concat_associative(c, st0, rest1 + q2);
        lemma_concat_associative(st0, rest1, q2);
        assert(s == c + (st0 + (rest1 + q2)));
        assert(s[0] == ',');
        assert(s.skip(1) =~= st0 + (rest1 + q2));
        lemma_parse_task_inverts(ts[0], rest1 + q2);
        assert(forall|i: int| 0 <= i < ts.skip(1).len() ==> (#[trigger] ts.skip(1)[i]).wf());
        lemma_parse_rest_inverts(ts.skip(1), (fuel - 1) as nat);
        assert(seq![ts[0]] + ts.skip(1) =~= ts);
    }
}

/// Serialization round-trips: reading back the persisted rendering of any
/// sequence of well-formed tasks yields exactly that sequence, all fields
/// preserved.
#[verifier::rlimit(100)]
pub proof fn lemma_serialize_round_trip(ts: Seq<TaskView>)
    requires
        forall|i: int| 0 <= i < ts.len() ==> (#[trigger] ts[i]).wf(),
    ensures
        spec_deserialize(spec_serialize(ts)) == Some(ts),
{
    if ts.len() == 0 {
        assert(spec_serialize(ts) == seq!['[', ']']);
    } else {
        let b = seq!['['];
        let q2 = seq![']'];
        let st0 = ser_task(ts[0]);
        let rest1 = ser_tasks_rest(ts.skip(1));
        let s = spec_serialize(ts);
        assert(s == ((b + st0) + rest1) + q2);
        lemma_concat_associative(b + st0, rest1, q2);
        lemma_concat_associative(b, st0, rest1 + q2);
        lemma_concat_associative(st0, rest1, q2);
        assert(s == b + (st0 + (rest1 + q2)));
        assert(s[0] == '[');
        assert(st0.len() >= 8);
        assert(s.len() > 2);
        assert(s.skip(1) =~= st0 + (rest1 + q2));
        lemma_parse_task_inverts(ts[0], rest1 + q2);
        assert(forall|i: int| 0 <= i < ts.skip(1).len() ==> (#[trigger] ts.skip(1)[i]).wf());
        lemma_ser_tasks_rest_len(ts.skip(1));
        assert(s.len() >= ts.skip(1).len());
        lemma_parse_rest_inverts(ts.skip(1), s.len() as nat);
        assert(seq![ts[0]] + ts.skip(1) =~= ts);
    }
}


// ---------------------------------------------------------------------------
// Parsing, executable.
// ---------------------------------------------------------------------------
/// Reads a quoted string body starting at `i`, returning the unescaped
/// characters and the position after the closing quote.
fn p_str_chars(v: &Vec<char>, i: usize) -> (r: Option<(Vec<char>, usize)>)
    requires
        i <= v@.len(),
    ensures
        match r {
            Some(p) => i < p.1 <= v@.len() && parse_str_chars(v@.skip(i as int)) == Some(
                (p.0@, v@.skip(p.1 as int)),
            ),
            None => parse_str_chars(v@.skip(i as int)) is None,
        },
    decreases v@.len() - i,
{
    let ghost s = v@.skip(i as int);
    if i == v.len() {
        return None;
    }
    let c: char = v[i];
    proof {
        assert(s[0] == c);
        assert(s.skip(1) =~= v@.skip(i + 1));
    }
    if c == '"' {
        let tok: Vec<char> = Vec::new();
        proof {
            assert(tok@ =~= Seq::<char>::empty());
        }
        return Some((tok, i + 1));
    }
    if c == '\\' {
        if i + 1 < v.len() {
            let c2: char = v[i + 1];
            proof {
                assert(s.len() >= 2 && s[1] == c2);
                assert(s.skip(2) =~= v@.skip(i + 2));
            }
            if c2 == '"' || c2 == '\\' {
                match p_str_chars(v, i + 2) {
                    Some((mut tok, j)) => {
                        tok.insert(0, c2);
                        proof {
                            assert(tok@ =~= seq![s[1]] + tok@.skip(1));
                        }
                        return Some((tok, j));
                    },
                    None => {
                        return None;
                    },
                }
            }
            return None;
        }
        proof {
            assert(s.len() == 1);
        }
        return None;
    }
    match p_str_chars(v, i + 1) {
        Some((mut tok, j)) => {
            tok.insert(0, c);
            proof {
                assert(tok@ =~= seq![s[0]] + tok@.skip(1));
            }
            Some((tok, j))
        },
        None => None,
    }
}

/// Reads a quoted string starting at `i`.
fn p_string(v: &Vec<char>, i: usize) -> (r: Option<(Vec<char>, usize)>)
    requires
        i <= v@.len(),
    ensures
        match r {
            Some(p) => i < p.1 <= v@.len() && parse_string(v@.skip(i as int)) == Some(
                (p.0@, v@.skip(p.1 as int)),
            ),
            None => parse_string(v@.skip(i as int)) is None,
        },
{
    let ghost s = v@.skip(i as int);
    if i < v.len() && v[i] == '"' {
        proof {
            assert(s.len() > 0 && s[0] == '"');
            assert(s.skip(1) =~= v@.skip(i + 1));
        }
        p_str_chars(v, i + 1)
    } else {
        None
    }
}

/// Reads the exact characters of `lit` starting at `i`.
fn p_lit(v: &Vec<char>, i: usize, lit: &str) -> (r: Option<usize>)
    requires
        i <= v@.len(),
    ensures
        match r {
            Some(j) => i <= j <= v@.len() && j - i == lit@.len() && skip_lit(
                v@.skip(i as int),
                lit@,
            ) == Some(v@.skip(j as int)),
            None => skip_lit(v@.skip(i as int), lit@) is None,
        },
{
    let ghost s = v@.skip(i as int);
    let n: usize = lit.unicode_len();
    let nv: usize = v.len();
    if nv - i < n {
        return None;
    }
    let mut k: usize = 0;
    while k < n
        invariant
            0 <= k <= n,
            n == lit@.len(),
            nv == v@.len(),
            i + n <= nv,
            s == v@.skip(i as int),
            forall|m: int| 0 <= m < k ==> s[m] == lit@[m],
        decreases n - k,
    {
        let c: char = v[i + k];
        proof {
            assert(s[k as int] == c);
        }
        if c != lit.get_char(k) {
            proof {
                assert(s.take(n as int)[k as int] == s[k as int]);
                assert(s.take(n as int) != lit@);
            }
            return None;
        }
        k = k + 1;
    }
    proof {
        assert(s.take(n as int) =~= lit@);
        assert(s.skip(n as int) =~= v@.skip(i + n));
    }
    Some(i + n)
}

/// The value of a decimal digit character.
fn dv_char(c: char) -> (r: Option<u8>)
    ensures
        match r {
            Some(d) => digit_val(c) == Some(d as int) && d < 10,
            None => digit_val(c) is None,
        },
{
    if c == '0' {
        Some(0)
    } else if c == '1' {
        Some(1)
    } else if c == '2' {
        Some(2)
    } else if c == '3' {
        Some(3)
    } else if c == '4' {
        Some(4)
    } else if c == '5' {
        Some(5)
    } else if c == '6' {
        Some(6)
    } else if c == '7' {
        Some(7)
    } else if c == '8' {
        Some(8)
    } else if c == '9' {
        Some(9)
    } else {
        None
    }
}

/// Whether the token equals the given literal, character for character.
fn vec_eq_str(v: &Vec<char>, s: &str) -> (r: bool)
    ensures
        r == (v@ == s@),
{
    let n: usize = s.unicode_len();
    if v.len() != n {
        proof {
            if v@ == s@ {
                assert(v@.len() == s@.len());
            }
        }
        return false;
    }
    let mut i: usize = 0;
    while i < n
        invariant
            0 <= i <= n,
            n == s@.len(),
            n == v@.len(),
            forall|k: int| 0 <= k < i ==> v@[k] == s@[k],
        decreases n - i,
    {
        if v[i] != s.get_char(i) {
            proof {
                if v@ == s@ {
                    assert(v@[i as int] == s@[i as int]);
                }
            }
            return false;
        }
        i = i + 1;
    }
    proof {
        assert(v@ =~= s@);
    }
    true
}

/// The priority level a string token names.
fn p_prio(tok: &Vec<char>) -> (r: Option<Priority>)
    ensures
        r == prio_of_chars(tok@),
{
    proof {
        reveal_strlit("Unset");
        reveal_strlit("Low");
        reveal_strlit("Medium");
        reveal_strlit("High");
        reveal_strlit("VeryHigh");
        assert("Unset"@ =~= prio_name(Priority::Unset));
        assert("Low"@ =~= prio_name(Priority::Low));
        assert("Medium"@ =~= prio_name(Priority::Medium));
        assert("High"@ =~= prio_name(Priority::High));
        assert("VeryHigh"@ =~= prio_name(Priority::VeryHigh));
    }
    if vec_eq_str(tok, "Unset") {
        Some(Priority::Unset)
    } else if vec_eq_str(tok, "Low") {
        Some(Priority::Low)
    } else if vec_eq_str(tok, "Medium") {
        Some(Priority::Medium)
    } else if vec_eq_str(tok, "High") {
        Some(Priority::High)
    } else if vec_eq_str(tok, "VeryHigh") {
        Some(Priority::VeryHigh)
    } else {
        None
    }
}

/// The timestamp a string token denotes.
#[verifier::rlimit(100)]
fn p_time(tok: &Vec<char>) -> (r: Option<Timestamp>)
    ensures
        r == time_of_chars(tok@),
        r matches Some(t) ==> t.wf(),
{
    if tok.len() != 19 {
        return None;
    }
    if !(tok[4] == '-' && tok[7] == '-' && tok[10] == 'T' && tok[13] == ':' && tok[16] == ':') {
        return None;
    }
    let y0 = dv_char(tok[0]);
    let y1 = dv_char(tok[1]);
    let y2 = dv_char(tok[2]);
    let y3 = dv_char(tok[3]);
    let mo0 = dv_char(tok[5]);
    let mo1 = dv_char(tok[6]);
    let d0 = dv_char(tok[8]);
    let d1 = dv_char(tok[9]);
    let h0 = dv_char(tok[11]);
    let h1 = dv_char(tok[12]);
    let mi0 = dv_char(tok[14]);
    let mi1 = dv_char(tok[15]);
    let s0 = dv_char(tok[17]);
    let s1 = dv_char(tok[18]);
    match (y0, y1, y2, y3, mo0, mo1, d0, d1, h0, h1, mi0, mi1, s0, s1) {
        (
            Some(a),
            Some(b),
            Some(c),
            Some(d),
            Some(e),
            Some(f),
            Some(g),
            Some(h),
            Some(p),
            Some(q),
            Some(u),
            Some(w),
            Some(x),
            Some(z),
        ) => {
            let year: u16 = 1000 * (a as u16) + 100 * (b as u16) + 10 * (c as u16) + (d as u16);
            let month: u8 = 10 * e + f;
            let day: u8 = 10 * g + h;
            let hour: u8 = 10 * p + q;
            let minute: u8 = 10 * u + w;
            let second: u8 = 10 * x + z;
            if 1 <= month && month <= 12 && 1 <= day && day <= 31 && hour <= 23 && minute <= 59
                && second <= 59 {
                Some(Timestamp { year, month, day, hour, minute, second })
            } else {
                None
            }
        },
        _ => None,
    }
}

/// Reads one task record starting at `i`.
#[verifier::rlimit(100)]
fn p_task(v: &Vec<char>, i: usize) -> (r: Option<(Task, usize)>)
    requires
        i <= v@.len(),
    ensures
        match r {
            Some(p) => i < p.1 <= v@.len() && parse_task(v@.skip(i as int)) == Some(
                (p.0@, v@.skip(p.1 as int)),
            ) && p.0@.wf(),
            None => parse_task(v@.skip(i as int)) is None,
        },
{
    proof {
        reveal_strlit("{\"name\":");
        reveal_strlit(",\"description\":");
        reveal_strlit(",\"priority\":");
        reveal_strlit(",\"createdAt\":");
        reveal_strlit("}");
        assert("{\"name\":"@ =~= key_name());
        assert(",\"description\":"@ =~= key_description());
        assert(",\"priority\":"@ =~= key_priority());
        assert(",\"createdAt\":"@ =~= key_created_at());
        assert("}"@ =~= seq!['}']);
    }
    let j1: usize = match p_lit(v, i, "{\"name\":") {
        Some(j) => j,
        None => {
            return None;
        },
    };
    let (name_tok, j2): (Vec<char>, usize) = match p_string(v, j1) {
        Some(p) => p,
        None => {
            return None;
        },
    };
    let j3: usize = match p_lit(v, j2, ",\"description\":") {
        Some(j) => j,
        None => {
            return None;
        },
    };
    let (desc_tok, j4): (Vec<char>, usize) = match p_string(v, j3) {
        Some(p) => p,
        None => {
            return None;
        },
    };
    let j5: usize = match p_lit(v, j4, ",\"priority\":") {
        Some(j) => j,
        None => {
            return None;
        },
    };
    let (prio_tok, j6): (Vec<char>, usize) = match p_string(v, j5) {
        Some(p) => p,
        None => {
            return None;
        },
    };
    let priority: Priority = match p_prio(&prio_tok) {
        Some(p) => p,
        None => {
            return None;
        },
    };
    let j7: usize = match p_lit(v, j6, ",\"createdAt\":") {
        Some(j) => j,
        None => {
            return None;
        },
    };
    let (time_tok, j8): (Vec<char>, usize) = match p_string(v, j7) {
        Some(p) => p,
        None => {
            return None;
        },
    };
    let created_at: Timestamp = match p_time(&time_tok) {
        Some(t) => t,
        None => {
            return None;
        },
    };
    let j9: usize = match p_lit(v, j8, "}") {
        Some(j) => j,
        None => {
            return None;
        },
    };
    let task = Task {
        name: string_of(&name_tok),
        description: string_of(&desc_tok),
        priority,
        created_at,
    };
    Some((task, j9))
}

/// Reads what follows a task record: the closing bracket ending the input,
/// or a comma and the remaining records.
#[verifier::rlimit(100)]
fn p_rest(v: &Vec<char>, i: usize, fuel: usize) -> (r: Option<Vec<Task>>)
    requires
        i <= v@.len(),
    ensures
        match r {
            Some(ts) => parse_rest(v@.skip(i as int), fuel as nat) == Some(
                ts@.map_values(|t: Task| t@),
            ) && forall|k: int| 0 <= k < ts@.len() ==> (#[trigger] ts@[k])@.wf(),
            None => parse_rest(v@.skip(i as int), fuel as nat) is None,
        },
    decreases fuel,
{
    let ghost s = v@.skip(i as int);
    let n: usize = v.len();
    if n - i == 1 && v[i] == ']' {
        proof {
            assert(s.len() == 1 && s[0] == ']');
        }
        let ts: Vec<Task> = Vec::new();
        proof {
            assert(ts@.map_values(|t: Task| t@) =~= Seq::<TaskView>::empty());
        }
        return Some(ts);
    }
    if n - i > 0 && v[i] == ',' {
        proof {
            assert(s.len() > 0 && s[0] == ',');
            assert(!(s.len() == 1 && s[0] == ']'));
            assert(s.skip(1) =~= v@.skip(i + 1));
        }
        if fuel == 0 {
            return None;
        }
        match p_task(v, i + 1) {
            Some((t, j)) => {
                match p_rest(v, j, fuel - 1) {
                    Some(mut ts) => {
                        let ghost pre = ts@;
                        ts.insert(0, t);
                        proof {
                            assert(ts@.map_values(|x: Task| x@) =~= seq![t@] + pre.map_values(
                                |x: Task| x@,
                            ));
                        }
                        Some(ts)
                    },
                    None => None,
                }
            },
            None => None,
        }
    } else {
        proof {
            if s.len() == 1 && s[0] == ']' {
            } else {
                assert(parse_rest(s, fuel as nat) is None);
            }
        }
        None
    }
}

/// Reads a whole persisted store: the inverse of serialization. Fails with
/// `ParseError` exactly on input that no well-shaped store produces.
pub fn deserialize(s: &str) -> (r: Result<Vec<Task>, ParseError>)
    ensures
        match r {
            Ok(ts) => spec_deserialize(s@) == Some(ts@.map_values(|t: Task| t@)) && forall|k: int|
                0 <= k < ts@.len() ==> (#[trigger] ts@[k])@.wf(),
            Err(_) => spec_deserialize(s@) is None,
        },
{
    let v: Vec<char> = chars_of(s);
    let n: usize = v.len();
    if n == 0 {
        return Err(ParseError {});
    }
    if v[0] != '[' {
        return Err(ParseError {});
    }
    if n == 2 && v[1] == ']' {
        let ts: Vec<Task> = Vec::new();
        proof {
            assert(ts@.map_values(|t: Task| t@) =~= Seq::<TaskView>::empty());
        }
        return Ok(ts);
    }
    proof {
        assert(!(s@.len() == 2 && s@[1] == ']'));
    }
    match p_task(&v, 1) {
        Some((t, j)) => {
            match p_rest(&v, j, n) {
                Some(mut ts) => {
                    let ghost pre = ts@;
                    ts.insert(0, t);
                    proof {
                        assert(ts@.map_values(|x: Task| x@) =~= seq![t@] + pre.map_values(
                            |x: Task| x@,
                        ));
                    }
                    Ok(ts)
                },
                None => Err(ParseError {}),
            }
        },
        None => Err(ParseError {}),
    }
}

} // verus!
