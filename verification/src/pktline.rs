//! Packet lines, the framing of git's wire protocol: four hexadecimal digits
//! give a line's length with themselves counted in, and `0000` is a flush.

use vstd::prelude::*;
use vstd::utf8::encode_utf8;

use crate::bytes::{bytes_of, push_bytes};
use crate::text::{
    hexadecimal, is_alphanumeric, lemma_four_hexadecimal_digits, parse_hexadecimal,
    parsed_hexadecimal, push_hexadecimal, zero_padded,
};

verus! {

/// The digits of a line's length.
pub open spec fn length_digits(size: nat) -> Seq<char> {
    zero_padded(hexadecimal(if size + 4 <= usize::MAX { size + 4 } else { usize::MAX as nat }), 4)
}

/// `data` framed as one packet line.
pub open spec fn framed(data: Seq<u8>) -> Seq<u8> {
    encode_utf8(length_digits(data.len())) + data
}

/// `data` framed as one packet line.
pub fn pkt_line(data: &[u8]) -> (r: Vec<u8>)
    ensures
        r@ == framed(data@),
{
    let n: usize = data.len();
    let total: usize = if n <= usize::MAX - 4 {
        n + 4
    } else {
        usize::MAX
    };
    let mut prefix = String::new();
    push_hexadecimal(&mut prefix, total as u64, 4);
    proof {
        assert(prefix@ =~= length_digits(data@.len()));
    }
    let mut r: Vec<u8> = Vec::new();
    push_bytes(&mut r, prefix.as_str().as_bytes());
    push_bytes(&mut r, data);
    proof {
        assert(r@ =~= framed(data@));
    }
    r
}

/// Appends `text` framed as one packet line.
pub fn push_pkt_text(out: &mut Vec<u8>, text: &str)
    ensures
        final(out)@ == old(out)@ + framed(encode_utf8(text@)),
{
    let line = pkt_line(text.as_bytes());
    push_bytes(out, &line);
}

/// The flush marker.
pub open spec fn flush() -> Seq<u8> {
    seq![48u8, 48u8, 48u8, 48u8]
}

/// Appends the flush marker.
pub fn push_flush(out: &mut Vec<u8>)
    ensures
        final(out)@ == old(out)@ + flush(),
{
    out.push(48);
    out.push(48);
    out.push(48);
    out.push(48);
    proof {
        assert(out@ =~= old(out)@ + flush());
    }
}

/// The length that the first four bytes of `body` give.
pub open spec fn line_length(body: Seq<u8>) -> Option<nat> {
    parsed_hexadecimal(body.take(4).map_values(|b: u8| b as char))
}

/// The length that the four bytes at `at` give.
fn read_length(body: &[u8], at: usize) -> (r: Option<usize>)
    requires
        at + 4 <= body@.len(),
    ensures
        match r {
            Some(n) => line_length(body@.skip(at as int)) == Some(n as nat),
            None => line_length(body@.skip(at as int)) is None,
        },
{
    let n: usize = body.len();
    let mut v: Vec<char> = Vec::new();
    v.push(body[at] as char);
    v.push(body[at + 1] as char);
    v.push(body[at + 2] as char);
    v.push(body[at + 3] as char);
    let r = parse_hexadecimal(&v, 0, 4);
    proof {
        assert(v@.subrange(0, 4) =~= body@.skip(at as int).take(4).map_values(|b: u8| b as char));
    }
    match r {
        Some(n) => Some(n as usize),
        None => None,
    }
}

/// Every packet line of `body`, in order, flush markers passed over, up to the
/// first thing that is not a line.
pub open spec fn frames(body: Seq<u8>) -> Seq<Seq<u8>>
    decreases body.len(),
{
    if body.len() < 4 {
        seq![]
    } else {
        match line_length(body) {
            None => seq![],
            Some(n) => if n == 0 {
                frames(body.skip(4))
            } else if n < 4 || body.len() < n {
                seq![]
            } else {
                seq![body.subrange(4, n as int)] + frames(body.skip(n as int))
            },
        }
    }
}

/// The views of a sequence of byte vectors.
pub open spec fn blocks(v: Seq<Vec<u8>>) -> Seq<Seq<u8>> {
    v.map_values(|b: Vec<u8>| b@)
}

/// Every packet line of `body`, flush markers passed over: right for a request
/// that is packet lines from start to end.
pub fn pkt_lines(body: &[u8]) -> (r: Vec<Vec<u8>>)
    ensures
        blocks(r@) == frames(body@),
{
    let size: usize = body.len();
    let mut out: Vec<Vec<u8>> = Vec::new();
    let mut at: usize = 0;
    proof {
        assert(body@.skip(0) =~= body@);
        assert(blocks(out@) + frames(body@) =~= frames(body@));
    }
    while size - at >= 4
        invariant_except_break
            size == body@.len(),
            at <= size,
            blocks(out@) + frames(body@.skip(at as int)) == frames(body@),
        ensures
            blocks(out@) == frames(body@),
        decreases size - at,
    {
        let ghost rest = body@.skip(at as int);
        let ghost before = blocks(out@);
        match read_length(body, at) {
            None => {
                proof {
                    assert(before + frames(rest) =~= before);
                }
                break ;
            },
            Some(n) => {
                if n == 0 {
                    proof {
                        assert(rest.skip(4) =~= body@.skip(at + 4));
                    }
                    at += 4;
                } else if n < 4 || size - at < n {
                    proof {
                        assert(before + frames(rest) =~= before);
                    }
                    break ;
                } else {
                    let line = bytes_of(body, at + 4, at + n);
                    out.push(line);
                    proof {
                        assert(line@ =~= rest.subrange(4, n as int));
                        assert(blocks(out@) =~= before.push(line@));
                        assert(rest.skip(n as int) =~= body@.skip(at + n));
                        assert(blocks(out@) + frames(body@.skip(at + n)) =~= before + frames(rest));
                    }
                    at += n;
                }
            },
        }
        proof {
            if size - at < 4 {
                assert(frames(body@.skip(at as int)) =~= seq![]);
                assert(blocks(out@) =~= frames(body@));
            }
        }
    }
    out
}

/// The packet lines of `body` before its first flush, and the bytes after it:
/// a push is commands, a flush, then the pack with no framing.
pub open spec fn cut(body: Seq<u8>) -> (Seq<Seq<u8>>, Seq<u8>)
    decreases body.len(),
{
    if body.len() < 4 {
        (seq![], body)
    } else {
        match line_length(body) {
            None => (seq![], body),
            Some(n) => if n == 0 {
                (seq![], body.skip(4))
            } else if n < 4 || body.len() < n {
                (seq![], body)
            } else {
                let (commands, rest) = cut(body.skip(n as int));
                (seq![body.subrange(4, n as int)] + commands, rest)
            },
        }
    }
}

/// The packet lines of `body` before its first flush, and the bytes after it.
pub fn split_commands(body: &[u8]) -> (r: (Vec<Vec<u8>>, Vec<u8>))
    ensures
        (blocks(r.0@), r.1@) == cut(body@),
{
    let size: usize = body.len();
    let mut out: Vec<Vec<u8>> = Vec::new();
    let mut at: usize = 0;
    proof {
        assert(body@.skip(0) =~= body@);
        assert(blocks(out@) + cut(body@).0 =~= cut(body@).0);
    }
    while size - at >= 4
        invariant_except_break
            size == body@.len(),
            at <= size,
            blocks(out@) + cut(body@.skip(at as int)).0 == cut(body@).0,
            cut(body@.skip(at as int)).1 == cut(body@).1,
        ensures
            size == body@.len(),
            at <= size,
            blocks(out@) == cut(body@).0,
            body@.skip(at as int) == cut(body@).1,
        decreases size - at,
    {
        let ghost rest = body@.skip(at as int);
        let ghost before = blocks(out@);
        proof {
            assert(before + seq![] =~= before);
        }
        match read_length(body, at) {
            None => {
                break ;
            },
            Some(n) => {
                if n == 0 {
                    proof {
                        assert(rest.skip(4) =~= body@.skip(at + 4));
                    }
                    at += 4;
                    break ;
                } else if n < 4 || size - at < n {
                    break ;
                } else {
                    let line = bytes_of(body, at + 4, at + n);
                    out.push(line);
                    proof {
                        assert(line@ =~= rest.subrange(4, n as int));
                        assert(blocks(out@) =~= before.push(line@));
                        assert(rest.skip(n as int) =~= body@.skip(at + n));
                        assert(blocks(out@) + cut(body@.skip(at + n)).0 =~= before + cut(rest).0);
                    }
                    at += n;
                }
            },
        }
        proof {
            if size - at < 4 {
                assert(blocks(out@) + seq![] =~= blocks(out@));
            }
        }
    }
    let pack = bytes_of(body, at, size);
    proof {
        assert(pack@ =~= body@.skip(at as int));
    }
    (out, pack)
}

/// Packet lines in a row.
pub open spec fn framed_all(lines: Seq<Seq<u8>>) -> Seq<u8>
    decreases lines.len(),
{
    if lines.len() == 0 {
        seq![]
    } else {
        framed(lines[0]) + framed_all(lines.skip(1))
    }
}

/// Whether every line is short enough for four digits.
pub open spec fn all_fit(lines: Seq<Seq<u8>>) -> bool {
    forall|i: int| 0 <= i < lines.len() ==> (#[trigger] lines[i]).len() + 4 <= 0xffff
}

/// A framed line announces its length.
proof fn lemma_framed(data: Seq<u8>, rest: Seq<u8>)
    requires
        data.len() + 4 <= 0xffff,
    ensures
        framed(data).len() == data.len() + 4,
        line_length(framed(data) + rest) == Some((data.len() + 4) as nat),
        (framed(data) + rest).subrange(4, 4 + data.len() as int) == data,
        (framed(data) + rest).skip(4 + data.len() as int) == rest,
{
    let digits = length_digits(data.len());
    lemma_four_hexadecimal_digits((data.len() + 4) as nat);
    assert(vstd::utf8::is_ascii_chars(digits)) by {
        assert forall|i: int| 0 <= i < digits.len() implies (#[trigger] digits[i]) as u32 <= 127 by {
            assert(is_alphanumeric(zero_padded(hexadecimal((data.len() + 4) as nat), 4)[i]));
        }
    }
    vstd::utf8::is_ascii_chars_encode_utf8(digits);
    let all = framed(data) + rest;
    assert(all.take(4).map_values(|b: u8| b as char) =~= digits);
    assert(all.subrange(4, 4 + data.len() as int) =~= data);
    assert(all.skip(4 + data.len() as int) =~= rest);
}

/// What is framed line by line is read back line by line.
pub proof fn law_frames_round_trip(lines: Seq<Seq<u8>>)
    requires
        all_fit(lines),
    ensures
        frames(framed_all(lines)) == lines,
    decreases lines.len(),
{
    if lines.len() == 0 {
        assert(frames(framed_all(lines)) =~= lines);
    } else {
        let tail = lines.skip(1);
        assert(lines[0].len() + 4 <= 0xffff);
        assert forall|i: int| 0 <= i < tail.len() implies (#[trigger] tail[i]).len() + 4
            <= 0xffff by {
            assert(tail[i] == lines[i + 1]);
        }
        law_frames_round_trip(tail);
        lemma_framed(lines[0], framed_all(tail));
        assert(seq![lines[0]] + tail =~= lines);
    }
}

/// A push's commands and its pack come apart again at the flush.
pub proof fn law_push_round_trip(commands: Seq<Seq<u8>>, pack: Seq<u8>)
    requires
        all_fit(commands),
    ensures
        cut(framed_all(commands) + flush() + pack) == (commands, pack),
    decreases commands.len(),
{
    let body = framed_all(commands) + flush() + pack;
    if commands.len() == 0 {
        assert(body =~= flush() + pack);
        lemma_flush(pack);
        assert(commands =~= seq![]);
    } else {
        let tail = commands.skip(1);
        assert(commands[0].len() + 4 <= 0xffff);
        assert forall|i: int| 0 <= i < tail.len() implies (#[trigger] tail[i]).len() + 4
            <= 0xffff by {
            assert(tail[i] == commands[i + 1]);
        }
        law_push_round_trip(tail, pack);
        let rest = framed_all(tail) + flush() + pack;
        assert(body =~= framed(commands[0]) + rest);
        lemma_framed(commands[0], rest);
        assert(seq![commands[0]] + tail =~= commands);
    }
}

/// A packet of a request.
pub enum Packet {
    /// A line.
    Line(Seq<u8>),
    /// A flush marker.
    Flush,
}

/// Packets in a row.
pub open spec fn packed(packets: Seq<Packet>) -> Seq<u8>
    decreases packets.len(),
{
    if packets.len() == 0 {
        seq![]
    } else {
        (match packets[0] {
            Packet::Line(data) => framed(data),
            Packet::Flush => flush(),
        }) + packed(packets.skip(1))
    }
}

/// The lines among packets.
pub open spec fn lines_among(packets: Seq<Packet>) -> Seq<Seq<u8>>
    decreases packets.len(),
{
    if packets.len() == 0 {
        seq![]
    } else {
        match packets[0] {
            Packet::Line(data) => seq![data] + lines_among(packets.skip(1)),
            Packet::Flush => lines_among(packets.skip(1)),
        }
    }
}

/// A flush marker announces no length.
proof fn lemma_flush(rest: Seq<u8>)
    ensures
        line_length(flush() + rest) == Some(0nat),
        (flush() + rest).skip(4) == rest,
{
    let body = flush() + rest;
    let four = body.take(4).map_values(|b: u8| b as char);
    assert(four =~= seq!['0', '0', '0', '0']);
    lemma_four_hexadecimal_digits(0);
    reveal_with_fuel(hexadecimal, 2);
    assert(zero_padded(hexadecimal(0), 4) =~= four);
    assert(body.skip(4) =~= rest);
}

/// Flush markers before, between and after lines are passed over: every line is
/// read back, in order, and nothing else.
pub proof fn law_markers_are_passed_over(packets: Seq<Packet>)
    requires
        all_fit(lines_among(packets)),
    ensures
        frames(packed(packets)) == lines_among(packets),
    decreases packets.len(),
{
    if packets.len() == 0 {
        assert(frames(packed(packets)) =~= lines_among(packets));
    } else {
        let tail = packets.skip(1);
        let lines = lines_among(packets);
        match packets[0] {
            Packet::Line(data) => {
                assert(lines[0] == data);
                assert forall|i: int| 0 <= i < lines_among(tail).len() implies (
                #[trigger] lines_among(tail)[i]).len() + 4 <= 0xffff by {
                    assert(lines[i + 1] == lines_among(tail)[i]);
                }
                law_markers_are_passed_over(tail);
                lemma_framed(data, packed(tail));
            },
            Packet::Flush => {
                law_markers_are_passed_over(tail);
                lemma_flush(packed(tail));
            },
        }
    }
}

/// A framed line is the first of those that are read.
pub proof fn lemma_frames_front(data: Seq<u8>, rest: Seq<u8>)
    requires
        data.len() + 4 <= 0xffff,
    ensures
        frames(framed(data) + rest) == seq![data] + frames(rest),
{
    lemma_framed(data, rest);
}

/// Nothing is read from a flush marker.
pub proof fn lemma_frames_flush(rest: Seq<u8>)
    ensures
        frames(flush() + rest) == frames(rest),
{
    lemma_flush(rest);
}

/// The lines among packets in two rows are those of each.
pub proof fn lemma_lines_among_concat(a: Seq<Packet>, b: Seq<Packet>)
    ensures
        lines_among(a + b) == lines_among(a) + lines_among(b),
    decreases a.len(),
{
    if a.len() == 0 {
        assert(a + b =~= b);
        assert(lines_among(a) + lines_among(b) =~= lines_among(b));
    } else {
        lemma_lines_among_concat(a.skip(1), b);
        assert((a + b).skip(1) =~= a.skip(1) + b);
        assert((a + b)[0] == a[0]);
        assert(lines_among(a + b) =~= lines_among(a) + lines_among(b));
    }
}

/// Law: a packet line begins with four hexadecimal digits that give its length,
/// themselves counted in, and goes on with its data; a flush is four zeros.
pub proof fn law_length_counts_its_digits(data: Seq<u8>)
    requires
        data.len() + 4 <= 0xffff,
    ensures
        framed(data).len() == data.len() + 4,
        framed(data).skip(4) == data,
        parsed_hexadecimal(framed(data).take(4).map_values(|b: u8| b as char)) == Some(
            framed(data).len(),
        ),
        flush() == seq!['0' as u8, '0' as u8, '0' as u8, '0' as u8],
{
    let none: Seq<u8> = seq![];
    lemma_framed(data, none);
    let all = framed(data) + none;
    assert(all =~= framed(data));
    assert(framed(data).skip(4) =~= all.subrange(4, 4 + data.len() as int));
}

} // verus!
