//! Terminal recordings in the asciicast v2 format: a header line, then one
//! `[time, "o", data]` event per chunk of output.
//!
//! A check's live output and its finished recording are the same text, so what
//! is written here has to be readable by [`extract_output`] at any moment.

use vstd::prelude::*;

use crate::text::{
    chars_of, decimal, find_chars, find_sub, hexadecimal, index_of, is_digit,
    lemma_decimal_round_trip, lemma_find_sub, lemma_four_hexadecimal_digits, lemma_index_of,
    lemma_index_of_is, lines, lines_of, parse_hexadecimal, parsed_hexadecimal, push_decimal,
    push_hexadecimal, rfind_chars, rfind_sub, starts, text_of, texts, trim, trimmed, without_cr,
    zero_padded,
};

verus! {

/// `char::from_u32` gives the character of a Unicode scalar value, and none
/// for any other number.
pub assume_specification[ char::from_u32 ](n: u32) -> (r: Option<char>)
    ensures
        r is Some <==> (n < 0xd800 || 0xe000 <= n <= 0x10ffff),
        r matches Some(c) ==> c == n as char,
;

/// The rows of the terminal that a recording is made at.
pub const ROWS: u16 = 24;

/// The columns of the terminal that a recording is made at.
pub const COLS: u16 = 80;

/// One character inside a JSON string.
pub open spec fn escaped_char(c: char) -> Seq<char> {
    if c == '"' {
        seq!['\\', '"']
    } else if c == '\\' {
        seq!['\\', '\\']
    } else if c == '\n' {
        seq!['\\', 'n']
    } else if c == '\r' {
        seq!['\\', 'r']
    } else if c == '\t' {
        seq!['\\', 't']
    } else if (c as u32) < 32 {
        seq!['\\', 'u'] + zero_padded(hexadecimal(c as nat), 4)
    } else {
        seq![c]
    }
}

/// `s` inside a JSON string.
pub open spec fn escaped(s: Seq<char>) -> Seq<char>
    decreases s.len(),
{
    if s.len() == 0 {
        seq![]
    } else {
        escaped_char(s[0]) + escaped(s.skip(1))
    }
}

/// `s` as a quoted JSON string.
pub open spec fn quoted(s: Seq<char>) -> Seq<char> {
    seq!['"'] + escaped(s) + seq!['"']
}

/// Appends one character as it stands inside a JSON string.
fn push_escaped(c: char, out: &mut String)
    ensures
        final(out)@ == old(out)@ + escaped_char(c),
{
    if c == '"' {
        out.push('\\');
        out.push('"');
    } else if c == '\\' {
        out.push('\\');
        out.push('\\');
    } else if c == '\n' {
        out.push('\\');
        out.push('n');
    } else if c == '\r' {
        out.push('\\');
        out.push('r');
    } else if c == '\t' {
        out.push('\\');
        out.push('t');
    } else if (c as u32) < 32 {
        out.push('\\');
        out.push('u');
        push_hexadecimal(out, c as u64, 4);
    } else {
        out.push(c);
    }
    proof {
        assert(out@ =~= old(out)@ + escaped_char(c));
    }
}

/// Appends `value` to `out` as a quoted JSON string: the quote, the backslash
/// and the control codes are escaped, and the rest stands for itself.
pub fn push_json_string(value: &str, out: &mut String)
    ensures
        final(out)@ == old(out)@ + quoted(value@),
{
    let v = chars_of(value);
    out.push('"');
    let mut i: usize = 0;
    proof {
        assert(v@.skip(0) =~= v@);
    }
    while i < v.len()
        invariant
            v@ == value@,
            i <= v@.len(),
            out@ + escaped(v@.skip(i as int)) == old(out)@.push('"') + escaped(value@),
        decreases v@.len() - i,
    {
        let ghost rest = v@.skip(i as int);
        let ghost before = out@;
        push_escaped(v[i], out);
        proof {
            assert(rest.skip(1) =~= v@.skip(i + 1));
            assert(out@ + escaped(v@.skip(i + 1)) =~= before + escaped(rest));
        }
        i += 1;
    }
    proof {
        assert(escaped(v@.skip(i as int)) =~= seq![]);
        assert(out@ =~= old(out)@.push('"') + escaped(value@));
    }
    out.push('"');
    proof {
        assert(out@ =~= old(out)@ + quoted(value@));
    }
}

/// The header line, naming the terminal's fixed size.
pub open spec fn header() -> Seq<char> {
    "{\"version\": 2, \"width\": "@ + decimal(COLS as nat) + ", \"height\": "@ + decimal(
        ROWS as nat,
    ) + "}\n"@
}

/// The header line of every recording.
pub fn asciicast_header() -> (r: String)
    ensures
        r@ == header(),
{
    let mut out = "{\"version\": 2, \"width\": ".to_owned();
    push_decimal(&mut out, COLS as u64);
    out.append(", \"height\": ");
    push_decimal(&mut out, ROWS as u64);
    out.append("}\n");
    out
}

/// One output event: the time it came at, written out, and what came.
pub open spec fn event_line(time: Seq<char>, data: Seq<char>) -> Seq<char> {
    "["@ + time + ", \"o\", "@ + quoted(data) + "]\n"@
}

/// Appends one output event to a recording. `time` is the number of seconds
/// into the run, with six places after the point.
pub fn push_event(out: &mut String, time: &str, data: &str)
    ensures
        final(out)@ == old(out)@ + event_line(time@, data@),
{
    out.append("[");
    out.append(time);
    out.append(", \"o\", ");
    push_json_string(data, out);
    out.append("]\n");
    proof {
        assert(out@ =~= old(out)@ + event_line(time@, data@));
    }
}

/// The character that the digits of a `\u` escape name, if they name one.
pub open spec fn escape_code(digits: Seq<char>) -> Seq<char> {
    match parsed_hexadecimal(digits) {
        Some(n) => if n < 0xd800 || 0xe000 <= n <= 0x10ffff {
            seq![n as char]
        } else {
            seq![]
        },
        None => seq![],
    }
}

/// `s` with its JSON escapes undone. An escape that is not known stands for
/// its character, and one that is cut short for nothing.
pub open spec fn unescaped(s: Seq<char>) -> Seq<char>
    decreases s.len(),
{
    if s.len() == 0 {
        seq![]
    } else if s[0] != '\\' {
        seq![s[0]] + unescaped(s.skip(1))
    } else if s.len() == 1 {
        seq![]
    } else if s[1] == 'n' {
        seq!['\n'] + unescaped(s.skip(2))
    } else if s[1] == 'r' {
        seq!['\r'] + unescaped(s.skip(2))
    } else if s[1] == 't' {
        seq!['\t'] + unescaped(s.skip(2))
    } else if s[1] == 'u' {
        let end = if s.len() < 6 {
            s.len() as int
        } else {
            6
        };
        escape_code(s.subrange(2, end)) + unescaped(s.skip(end))
    } else {
        seq![s[1]] + unescaped(s.skip(2))
    }
}

/// `escaped` with its JSON escapes undone.
pub fn unescape_json_string(escaped: &str) -> (r: String)
    ensures
        r@ == unescaped(escaped@),
{
    let v = chars_of(escaped);
    let mut out = String::new();
    let mut i: usize = 0;
    proof {
        assert(v@.skip(0) =~= v@);
        assert(out@ + unescaped(v@) =~= unescaped(v@));
    }
    while i < v.len()
        invariant
            v@ == escaped@,
            i <= v@.len(),
            out@ + unescaped(v@.skip(i as int)) == unescaped(escaped@),
        decreases v@.len() - i,
    {
        let ghost rest = v@.skip(i as int);
        let ghost before = out@;
        let n: usize = v.len();
        if v[i] != '\\' {
            out.push(v[i]);
            proof {
                assert(rest.skip(1) =~= v@.skip(i + 1));
                assert(out@ + unescaped(v@.skip(i + 1)) =~= before + unescaped(rest));
            }
            i += 1;
        } else if n - i == 1 {
            proof {
                assert(unescaped(rest) =~= seq![]);
                assert(unescaped(v@.skip(i + 1)) =~= seq![]);
            }
            i += 1;
        } else if v[i + 1] == 'u' {
            let end: usize = if n - i < 6 {
                n
            } else {
                i + 6
            };
            let code = parse_hexadecimal(&v, i + 2, end);
            proof {
                assert(v@.subrange(i + 2, end as int) =~= rest.subrange(2, end - i));
            }
            if let Some(number) = code {
                if let Some(c) = char::from_u32(number) {
                    out.push(c);
                }
            }
            proof {
                assert(rest.skip(end - i) =~= v@.skip(end as int));
                assert(out@ =~= before + escape_code(rest.subrange(2, end - i)));
                assert(out@ + unescaped(v@.skip(end as int)) =~= before + unescaped(rest));
            }
            i = end;
        } else {
            let c = v[i + 1];
            if c == 'n' {
                out.push('\n');
            } else if c == 'r' {
                out.push('\r');
            } else if c == 't' {
                out.push('\t');
            } else {
                out.push(c);
            }
            proof {
                assert(rest.skip(2) =~= v@.skip(i + 2));
                assert(out@ + unescaped(v@.skip(i + 2)) =~= before + unescaped(rest));
            }
            i += 2;
        }
    }
    proof {
        assert(unescaped(v@.skip(i as int)) =~= seq![]);
        assert(out@ =~= unescaped(escaped@));
    }
    out
}

/// What one event line holds, if it is one: what stands between the first
/// output mark and the last end of an event.
pub open spec fn event_output(line: Seq<char>) -> Option<Seq<char>> {
    match find_sub(line, "\"o\", \""@) {
        Some(i) => {
            let rest = line.skip(i + "\"o\", \""@.len());
            match rfind_sub(rest, "\"]"@) {
                Some(end) => Some(unescaped(rest.take(end))),
                None => None,
            }
        },
        None => None,
    }
}

/// The output that one event line holds.
pub fn event_data(line: &str) -> (r: Option<String>)
    ensures
        match r {
            Some(data) => event_output(line@) == Some(data@),
            None => event_output(line@) is None,
        },
{
    let v = chars_of(line);
    let n: usize = v.len();
    let mark = chars_of("\"o\", \"");
    let close = chars_of("\"]");
    proof {
        assert(v@.skip(0) =~= v@);
    }
    match find_chars(&v, 0, &mark) {
        Some(i) => {
            let from: usize = i + mark.len();
            proof {
                assert(v@.subrange(from as int, v@.len() as int) =~= line@.skip(from as int));
            }
            match rfind_chars(&v, from, n, &close) {
                Some(end) => {
                    let inner = text_of(&v, from, end);
                    proof {
                        assert(inner@ =~= line@.skip(from as int).take(end - from));
                    }
                    Some(unescape_json_string(inner.as_str()))
                },
                None => None,
            }
        },
        None => None,
    }
}

/// The output of every event among `lines`, in order.
pub open spec fn outputs(lines: Seq<Seq<char>>) -> Seq<char>
    decreases lines.len(),
{
    if lines.len() == 0 {
        seq![]
    } else {
        outputs(lines.drop_last()) + match event_output(lines.last()) {
            Some(data) => data,
            None => seq![],
        }
    }
}

/// The terminal output that a recording holds: every line after the first is
/// an event, and one that is not is passed over.
pub open spec fn output_of(recording: Seq<char>) -> Seq<char> {
    let lines = lines_of(recording);
    if lines.len() == 0 {
        seq![]
    } else {
        outputs(lines.skip(1))
    }
}

/// The terminal output that a recording holds.
pub fn extract_output(recording: &str) -> (r: String)
    ensures
        r@ == output_of(recording@),
{
    let all = lines(recording);
    let mut out = String::new();
    if all.len() == 0 {
        proof {
            assert(texts(all@).len() == 0);
        }
        return out;
    }
    let ghost seen = texts(all@).skip(1);
    let mut i: usize = 1;
    proof {
        assert(seen.take(0) =~= seq![]);
    }
    while i < all.len()
        invariant
            1 <= i <= all@.len(),
            seen == texts(all@).skip(1),
            out@ == outputs(seen.take(i - 1)),
        decreases all@.len() - i,
    {
        let ghost before = out@;
        if let Some(data) = event_data(all[i].as_str()) {
            out.append(data.as_str());
        }
        proof {
            assert(seen.take(i as int).drop_last() =~= seen.take(i - 1));
            assert(seen.take(i as int).last() == all@[i as int]@);
            assert(out@ =~= outputs(seen.take(i as int)));
        }
        i += 1;
    }
    proof {
        assert(seen.take(seen.len() as int) =~= seen);
    }
    out
}

/// Whether a recording holds nothing to show.
pub fn recording_has_no_output(recording: &str) -> (r: bool)
    ensures
        r == (trimmed(output_of(recording@)).len() == 0),
{
    let out = extract_output(recording);
    let shown = trim(out.as_str());
    shown.as_str().is_empty()
}

/// Undoing the escapes of a character, whatever follows it, gives it back.
proof fn lemma_unescape_char(c: char, rest: Seq<char>)
    ensures
        unescaped(escaped_char(c) + rest) == seq![c] + unescaped(rest),
{
    let s = escaped_char(c) + rest;
    if c == '"' || c == '\\' || c == '\n' || c == '\r' || c == '\t' {
        assert(s.skip(2) =~= rest);
    } else if (c as u32) < 32 {
        lemma_four_hexadecimal_digits(c as nat);
        assert(s.subrange(2, 6) =~= zero_padded(hexadecimal(c as nat), 4));
        assert(s.skip(6) =~= rest);
        assert(escape_code(s.subrange(2, 6)) =~= seq![c]);
    } else {
        assert(s.skip(1) =~= rest);
    }
}

/// What is escaped for a recording comes back unchanged.
pub proof fn law_unescape_undoes_escape(s: Seq<char>)
    ensures
        unescaped(escaped(s)) == s,
    decreases s.len(),
{
    if s.len() > 0 {
        lemma_unescape_char(s[0], escaped(s.skip(1)));
        law_unescape_undoes_escape(s.skip(1));
        assert(seq![s[0]] + s.skip(1) =~= s);
    } else {
        assert(s =~= seq![]);
    }
}

/// A character inside a JSON string leaves no control character.
proof fn lemma_escaped_char_is_plain(c: char)
    ensures
        forall|i: int| 0 <= i < escaped_char(c).len() ==> (#[trigger] escaped_char(c)[i]) as u32 >= 32,
{
    if (c as u32) < 32 {
        lemma_four_hexadecimal_digits(c as nat);
    }
    let head = escaped_char(c);
    assert forall|i: int| 0 <= i < head.len() implies (#[trigger] head[i]) as u32 >= 32 by {
        if (c as u32) < 32 && c != '\n' && c != '\r' && c != '\t' && i >= 2 {
            assert(head[i] == zero_padded(hexadecimal(c as nat), 4)[i - 2]);
        }
    }
}

/// Inside a JSON string no control character is left, so an event is one
/// line.
pub proof fn law_escaped_is_one_line(s: Seq<char>)
    ensures
        forall|i: int| 0 <= i < escaped(s).len() ==> (#[trigger] escaped(s)[i]) as u32 >= 32,
    decreases s.len(),
{
    if s.len() > 0 {
        let head = escaped_char(s[0]);
        let tail = escaped(s.skip(1));
        law_escaped_is_one_line(s.skip(1));
        lemma_escaped_char_is_plain(s[0]);
        assert forall|i: int| 0 <= i < escaped(s).len() implies (#[trigger] escaped(s)[i]) as u32
            >= 32 by {
            if i >= head.len() {
                assert(escaped(s)[i] == tail[i - head.len()]);
            }
        }
    }
}

/// Whether `time` can stand in an event: it holds neither a quote nor the
/// end of a line.
pub open spec fn plain_time(time: Seq<char>) -> bool {
    forall|i: int|
        0 <= i < time.len() ==> (#[trigger] time[i]) != '"' && time[i] != '\n' && time[i] != '\r'
}

/// An event line without its end gives its data back.
pub proof fn law_event_round_trip(time: Seq<char>, data: Seq<char>)
    requires
        plain_time(time),
    ensures
        event_output("["@ + time + ", \"o\", "@ + quoted(data) + "]"@) == Some(data),
{
    reveal_strlit("[");
    reveal_strlit("]");
    reveal_strlit(", \"o\", ");
    reveal_strlit("\"o\", \"");
    reveal_strlit("\"]");
    let line = "["@ + time + ", \"o\", "@ + quoted(data) + "]"@;
    let mark = "\"o\", \""@;
    let close = "\"]"@;
    let at = 1 + time.len() + 2;
    let body = escaped(data);
    assert(line.skip(at as int).take(6) =~= mark);
    assert(starts(line.skip(at as int), mark));
    lemma_find_sub(line, mark);
    let found = find_sub(line, mark)->0;
    if found < at {
        assert(line.skip(found).take(6)[0] == line[found]);
        assert(line[found] == '"');
        if found >= 1 && found < 1 + time.len() {
            assert(line[found] == time[found - 1]);
        }
        assert(false);
    }
    if found > at {
        assert(!starts(line.skip(at as int), mark));
    }
    let rest = line.skip((at + 6) as int);
    assert(rest =~= body + close);
    assert(rest.skip(rest.len() - 2) =~= close);
    assert(rest.take(rest.len() - 2) =~= body);
    law_unescape_undoes_escape(data);
}

/// A recording: the header, then one event for each pair of a time and its
/// output.
pub open spec fn recording_of(events: Seq<(Seq<char>, Seq<char>)>) -> Seq<char>
    decreases events.len(),
{
    if events.len() == 0 {
        header()
    } else {
        recording_of(events.drop_last()) + event_line(events.last().0, events.last().1)
    }
}

/// The outputs of `events`, put together.
pub open spec fn data_of(events: Seq<(Seq<char>, Seq<char>)>) -> Seq<char>
    decreases events.len(),
{
    if events.len() == 0 {
        seq![]
    } else {
        data_of(events.drop_last()) + events.last().1
    }
}

/// Ended lines before a text are lines of the whole.
proof fn lemma_lines_append(s: Seq<char>, line: Seq<char>)
    requires
        s.len() == 0 || s.last() == '\n',
        forall|i: int| 0 <= i < line.len() ==> (#[trigger] line[i]) != '\n' && line[i] != '\r',
    ensures
        lines_of(s + line.push('\n')) == lines_of(s).push(line),
    decreases s.len(),
{
    let t = s + line.push('\n');
    if s.len() == 0 {
        assert(t =~= line.push('\n'));
        lemma_index_of_is(t, '\n', line.len() as int);
        assert(t.take(line.len() as int) =~= line);
        assert(without_cr(line) == line) by {
            if line.len() > 0 {
                assert(line[line.len() - 1] != '\r');
            }
        }
        assert(t.skip((line.len() + 1) as int) =~= seq![]);
        assert(lines_of(seq![]) =~= seq![]);
        assert(lines_of(t) =~= seq![line]);
        assert(lines_of(s).push(line) =~= seq![line]);
    } else {
        lemma_index_of(s, '\n');
        let i = index_of(s, '\n');
        assert(s.contains('\n')) by {
            assert(s[s.len() - 1] == '\n');
        }
        assert forall|j: int| 0 <= j < i implies t[j] != '\n' by {
            assert(t[j] == s[j]);
        }
        lemma_index_of_is(t, '\n', i);
        assert(t.take(i) =~= s.take(i));
        let u = s.skip(i + 1);
        assert(t.skip(i + 1) =~= u + line.push('\n'));
        if u.len() > 0 {
            assert(u.last() == s.last());
        }
        lemma_lines_append(u, line);
        assert(lines_of(t) =~= lines_of(s).push(line));
    }
}

proof fn lemma_header_lines()
    ensures
        lines_of(header()).len() == 1,
        header().len() > 0,
        header().last() == '\n',
{
    reveal_strlit("{\"version\": 2, \"width\": ");
    reveal_strlit(", \"height\": ");
    reveal_strlit("}\n");
    let w = decimal(COLS as nat);
    let h = decimal(ROWS as nat);
    lemma_decimal_round_trip(COLS as nat, COLS as nat);
    lemma_decimal_round_trip(ROWS as nat, ROWS as nat);
    let line = header().drop_last();
    assert forall|i: int| 0 <= i < line.len() implies (#[trigger] line[i]) != '\n' && line[i]
        != '\r' by {
        let a = "{\"version\": 2, \"width\": "@.len() as int;
        let b = a + w.len();
        let c = b + ", \"height\": "@.len();
        if a <= i < b {
            assert(line[i] == w[i - a]);
            assert(is_digit(w[i - a]));
        } else if c <= i < c + h.len() {
            assert(line[i] == h[i - c]);
            assert(is_digit(h[i - c]));
        }
    }
    lemma_lines_append(seq![], line);
    assert(seq![] + line.push('\n') =~= header());
    assert(lines_of(seq![]) =~= seq![]);
}

proof fn lemma_recording(events: Seq<(Seq<char>, Seq<char>)>)
    requires
        forall|i: int| 0 <= i < events.len() ==> plain_time((#[trigger] events[i]).0),
    ensures
        recording_of(events).len() > 0,
        recording_of(events).last() == '\n',
        lines_of(recording_of(events)).len() == events.len() + 1,
        outputs(lines_of(recording_of(events)).skip(1)) == data_of(events),
    decreases events.len(),
{
    if events.len() == 0 {
        lemma_header_lines();
        assert(lines_of(header()).skip(1) =~= seq![]);
        assert(data_of(events) =~= outputs(seq![]));
    } else {
        let before = events.drop_last();
        let (time, data) = events.last();
        assert forall|i: int| 0 <= i < before.len() implies plain_time((#[trigger] before[i]).0) by {
            assert(before[i] == events[i]);
        }
        lemma_recording(before);
        assert(plain_time(events[events.len() - 1].0));
        reveal_strlit("[");
        reveal_strlit("]");
        reveal_strlit("]\n");
        reveal_strlit(", \"o\", ");
        let line = "["@ + time + ", \"o\", "@ + quoted(data) + "]"@;
        assert(event_line(time, data) =~= line.push('\n'));
        law_escaped_is_one_line(data);
        assert forall|i: int| 0 <= i < line.len() implies (#[trigger] line[i]) != '\n' && line[i]
            != '\r' by {
            let a = 1 + time.len();
            let b = a + ", \"o\", "@.len() + 1;
            if 1 <= i < a {
                assert(line[i] == time[i - 1]);
            } else if b <= i < b + escaped(data).len() {
                assert(line[i] == escaped(data)[i - b]);
            }
        }
        lemma_lines_append(recording_of(before), line);
        law_event_round_trip(time, data);
        let all = lines_of(recording_of(events));
        let prior = lines_of(recording_of(before));
        assert(all == prior.push(line));
        assert(all.skip(1).drop_last() =~= prior.skip(1));
        assert(all.skip(1).last() == line);
        assert(recording_of(events).last() == '\n');
    }
}

/// What [`extract_output`] reads out of a recording is exactly the output that
/// [`push_event`] put into it, whatever bytes the output held.
pub proof fn law_recording_round_trip(events: Seq<(Seq<char>, Seq<char>)>)
    requires
        forall|i: int| 0 <= i < events.len() ==> plain_time((#[trigger] events[i]).0),
    ensures
        output_of(recording_of(events)) == data_of(events),
{
    lemma_recording(events);
}

/// Law: a recording says that it is one, of a terminal of eighty columns and
/// twenty-four rows, and each of its events when it came.
pub proof fn law_recording_says_what_it_is(time: Seq<char>, data: Seq<char>)
    ensures
        header() == "{\"version\": 2, \"width\": "@ + decimal(80) + ", \"height\": "@ + decimal(24)
            + "}\n"@,
        event_line(time, data) == "["@ + time + ", \"o\", "@ + quoted(data) + "]\n"@,
{
}

} // verus!
