//! Form bodies: `application/x-www-form-urlencoded` fields, read from a
//! browser's post and written for one.

use vstd::prelude::*;
use vstd::utf8::{encode_utf8, is_ascii_chars, is_ascii_chars_encode_utf8};

use crate::bytes::{decoded, from_utf8_lossy, law_text_survives_bytes};
use crate::keyed::TextMap;
use crate::seqs::{kept, lemma_kept_step};
use crate::text::{
    digit_value, halves, joined, law_split_undoes_join, lemma_index_of_is, opt_text, pairs, split,
    split_on, split_once, texts, trim, trimmed, value_of,
};

verus! {

/// The value of a hexadecimal digit, `0..=15`.
pub fn hex_value(byte: u8) -> (r: Option<u8>)
    ensures
        match r {
            Some(d) => digit_value(byte as char) == Some(d as int) && d < 16,
            None => digit_value(byte as char) is None,
        },
{
    value_of(byte as char)
}

/// Bytes with every `+` made a space.
pub open spec fn spaced(bytes: Seq<u8>) -> Seq<u8> {
    bytes.map_values(
        |b: u8|
            if b == 43 {
                32u8
            } else {
                b
            },
    )
}

/// Bytes with every `%XX` made the byte it names; a `%` that names none stands
/// for itself.
pub open spec fn unpercented(bytes: Seq<u8>) -> Seq<u8>
    decreases bytes.len(),
{
    if bytes.len() == 0 {
        seq![]
    } else if bytes[0] == 37 && bytes.len() >= 3 && digit_value(bytes[1] as char) is Some
        && digit_value(bytes[2] as char) is Some {
        seq![
            (16 * digit_value(bytes[1] as char)->0 + digit_value(bytes[2] as char)->0) as u8,
        ] + unpercented(bytes.skip(3))
    } else {
        seq![bytes[0]] + unpercented(bytes.skip(1))
    }
}

/// One form field as its text.
pub open spec fn field_text(input: Seq<char>) -> Seq<char> {
    decoded(unpercented(spaced(encode_utf8(input))))
}

/// Decodes one form field: `+` to space and `%XX` to its byte.
pub fn percent_decode(input: &str) -> (r: String)
    ensures
        r@ == field_text(input@),
{
    let raw = input.as_bytes();
    let size: usize = raw.len();
    let ghost all = spaced(encode_utf8(input@));
    let mut out: Vec<u8> = Vec::new();
    let mut i: usize = 0;
    proof {
        assert(all.skip(0) =~= all);
        assert(out@ + unpercented(all) =~= unpercented(all));
    }
    while i < size
        invariant
            size == raw@.len(),
            i <= size,
            all == spaced(raw@),
            out@ + unpercented(all.skip(i as int)) == unpercented(all),
        decreases size - i,
    {
        let ghost rest = all.skip(i as int);
        let ghost prior = out@;
        let mut step: usize = 1;
        let mut byte: u8 = if raw[i] == 43 {
            32
        } else {
            raw[i]
        };
        if byte == 37 && size - i >= 3 {
            let hi = hex_value(raw[i + 1]);
            let lo = hex_value(raw[i + 2]);
            proof {
                lemma_spaced_digit(raw@[i + 1]);
                lemma_spaced_digit(raw@[i + 2]);
                assert(rest[1] == spaced(raw@)[i + 1]);
                assert(rest[2] == spaced(raw@)[i + 2]);
            }
            if let Some(hi) = hi {
                if let Some(lo) = lo {
                    byte = hi * 16 + lo;
                    step = 3;
                }
            }
        }
        out.push(byte);
        proof {
            assert(rest[0] == spaced(raw@)[i as int]);
            assert(rest.skip(step as int) =~= all.skip(i + step));
            assert(out@ + unpercented(all.skip(i + step)) =~= prior + unpercented(rest));
        }
        i += step;
    }
    proof {
        assert(unpercented(all.skip(i as int)) =~= seq![]);
        assert(out@ =~= unpercented(all));
    }
    from_utf8_lossy(&out)
}

/// A plus sign is no digit, and the space it becomes is none either.
proof fn lemma_spaced_digit(b: u8)
    ensures
        digit_value((if b == 43 { 32u8 } else { b }) as char) == digit_value(b as char),
{
}

/// A field of a form body: its name and its value.
pub open spec fn pair_of(text: Seq<char>) -> Option<(Seq<char>, Seq<char>)> {
    match halves(text, '=') {
        Some((key, value)) => Some((field_text(key), field_text(value))),
        None => None,
    }
}

/// The fields of a form body, in order.
pub open spec fn field_pairs(body: Seq<u8>) -> Seq<(Seq<char>, Seq<char>)> {
    kept(split_on(decoded(body), '&'), |text: Seq<char>| pair_of(text))
}

/// Whether the values of a map of strings are these texts.
pub open spec fn holds_fields(
    map: Map<Seq<char>, String>,
    fields: Map<Seq<char>, Seq<char>>,
) -> bool {
    &&& map.dom() == fields.dom()
    &&& forall|k: Seq<char>| #[trigger] map.contains_key(k) ==> map[k]@ == fields[k]
}

/// The fields of a form, the last one where a name comes twice.
pub open spec fn fields_map(list: Seq<(Seq<char>, Seq<char>)>) -> Map<Seq<char>, Seq<char>>
    decreases list.len(),
{
    if list.len() == 0 {
        Map::empty()
    } else {
        fields_map(list.drop_last()).insert(list.last().0, list.last().1)
    }
}

/// Parses a form body into its fields.
pub fn form(body: &[u8]) -> (r: TextMap<String>)
    ensures
        holds_fields(r@, fields_map(field_pairs(body@))),
{
    let text = from_utf8_lossy(body);
    let parts = split(text.as_str(), '&');
    let ghost all = texts(parts@);
    let ghost f = |text: Seq<char>| pair_of(text);
    let mut r: TextMap<String> = TextMap::new();
    let mut i: usize = 0;
    proof {
        assert(kept(all.take(0), f) =~= seq![]);
        assert(holds_fields(r@, fields_map(kept(all.take(0), f)))) by {
            assert(r@.dom() =~= Map::<Seq<char>, Seq<char>>::empty().dom());
        }
    }
    while i < parts.len()
        invariant
            i <= parts@.len(),
            all == texts(parts@),
            f == (|text: Seq<char>| pair_of(text)),
            holds_fields(r@, fields_map(kept(all.take(i as int), f))),
        decreases parts@.len() - i,
    {
        proof {
            lemma_kept_step(all, f, i as int);
            assert(all[i as int] == parts@[i as int]@);
        }
        if let Some((key, value)) = split_once(parts[i].as_str(), '=') {
            let name = percent_decode(key.as_str());
            let value_text = percent_decode(value.as_str());
            let ghost prior = kept(all.take(i as int), f);
            let ghost held = r@;
            let ghost n = name@;
            r.insert(name, value_text);
            proof {
                let now = kept(all.take(i + 1), f);
                assert(now == prior.push((n, value_text@)));
                assert(now.drop_last() =~= prior);
                assert(r@.dom() =~= fields_map(now).dom());
            }
        }
        i += 1;
    }
    proof {
        assert(all.take(all.len() as int) =~= all);
    }
    r
}

/// The value of a field of a form body.
pub open spec fn field_of(body: Seq<u8>, name: Seq<char>) -> Option<Seq<char>> {
    let fields = fields_map(field_pairs(body));
    if fields.contains_key(name) {
        Some(fields[name])
    } else {
        None
    }
}

/// One field's value from a form body.
pub fn field(body: &[u8], name: &str) -> (r: Option<String>)
    ensures
        opt_text(r) == field_of(body@, name@),
{
    let mut fields = form(body);
    proof {
        assert(fields@.contains_key(name@) == fields_map(field_pairs(body@)).contains_key(name@))
            by {
            assert(fields@.dom() == fields_map(field_pairs(body@)).dom());
        }
    }
    fields.remove(name)
}

/// A field's value, or nothing where there is no such field.
pub open spec fn field_or_empty(body: Seq<u8>, name: Seq<char>) -> Seq<char> {
    match field_of(body, name) {
        Some(value) => value,
        None => seq![],
    }
}

/// One field's value, or the empty string.
pub fn field_or_default(body: &[u8], name: &str) -> (r: String)
    ensures
        r@ == field_or_empty(body@, name@),
{
    match field(body, name) {
        Some(value) => value,
        None => String::new(),
    }
}

/// A form field's trimmed value, or the empty string.
pub fn trimmed_field(body: &[u8], name: &str) -> (r: String)
    ensures
        r@ == trimmed(field_or_empty(body@, name@)),
{
    let value = field_or_default(body, name);
    trim(value.as_str())
}

/// A hexadecimal digit in upper case.
pub open spec fn upper_digit(d: int) -> char {
    if d < 10 {
        (48 + d) as char
    } else {
        (55 + d) as char
    }
}

/// Whether a byte stands for itself in a form field: letters, digits, and
/// `*`, `-`, `.` and `_`.
pub open spec fn unreserved(b: u8) -> bool {
    ||| 48 <= b <= 57
    ||| 65 <= b <= 90
    ||| 97 <= b <= 122
    ||| b == 42
    ||| b == 45
    ||| b == 46
    ||| b == 95
}

/// One byte in a form field.
pub open spec fn encoded_byte(b: u8) -> Seq<char> {
    if unreserved(b) {
        seq![b as char]
    } else if b == 32 {
        seq!['+']
    } else {
        seq!['%', upper_digit((b / 16) as int), upper_digit((b % 16) as int)]
    }
}

/// Bytes in a form field.
pub open spec fn encoded(bytes: Seq<u8>) -> Seq<char>
    decreases bytes.len(),
{
    if bytes.len() == 0 {
        seq![]
    } else {
        encoded_byte(bytes[0]) + encoded(bytes.skip(1))
    }
}

/// A name and a value in a form body.
pub open spec fn encoded_pair(pair: (Seq<char>, Seq<char>)) -> Seq<char> {
    encoded(encode_utf8(pair.0)) + seq!['='] + encoded(encode_utf8(pair.1))
}

/// A form body.
pub open spec fn encoded_form(fields: Seq<(Seq<char>, Seq<char>)>) -> Seq<char> {
    joined(fields.map_values(|p: (Seq<char>, Seq<char>)| encoded_pair(p)), seq!['&'])
}

/// `form_urlencoded::Serializer::extend_pairs` appends each name and value in
/// turn, with `=` between them and `&` between the pairs. Letters, digits and
/// `*-._` stand for themselves, a space becomes `+`, and every other byte of
/// the UTF-8 encoding becomes `%` and two upper-case digits.
#[verifier::external_body]
pub(crate) fn serialize_form(fields: &Vec<(String, String)>) -> (r: String)
    ensures
        r@ == encoded_form(pairs(fields@)),
{
    form_urlencoded::Serializer::new(String::new()).extend_pairs(fields).finish()
}

/// An encoded byte is plain ASCII, and neither `&` nor `=`.
proof fn lemma_encoded_byte(b: u8)
    ensures
        0 < encoded_byte(b).len() <= 3,
        forall|i: int|
            0 <= i < encoded_byte(b).len() ==> {
                &&& (#[trigger] encoded_byte(b)[i]) != '&'
                &&& encoded_byte(b)[i] != '='
                &&& encoded_byte(b)[i] as u32 <= 127
            },
        !unreserved(b) && b != 32 ==> digit_value(upper_digit((b / 16) as int)) == Some(
            (b / 16) as int,
        ) && digit_value(upper_digit((b % 16) as int)) == Some((b % 16) as int),
{
}

/// Encoded bytes are plain ASCII, and hold neither `&` nor `=`.
proof fn lemma_encoded(bytes: Seq<u8>)
    ensures
        is_ascii_chars(encoded(bytes)),
        !encoded(bytes).contains('&'),
        !encoded(bytes).contains('='),
        forall|i: int|
            0 <= i < encoded(bytes).len() ==> (#[trigger] encoded(bytes)[i]) != '&'
                && encoded(bytes)[i] != '=' && encoded(bytes)[i] as u32 <= 127,
    decreases bytes.len(),
{
    if bytes.len() > 0 {
        lemma_encoded(bytes.skip(1));
        lemma_encoded_byte(bytes[0]);
        let head = encoded_byte(bytes[0]);
        let tail = encoded(bytes.skip(1));
        let all = encoded(bytes);
        assert forall|i: int| 0 <= i < all.len() implies (#[trigger] all[i]) != '&' && all[i]
            != '=' && all[i] as u32 <= 127 by {
            if i < head.len() {
                assert(all[i] == head[i]);
            } else {
                assert(all[i] == tail[i - head.len()]);
            }
        }
    }
}

/// The bytes of an encoded field.
proof fn lemma_encoded_bytes(bytes: Seq<u8>)
    ensures
        encode_utf8(encoded(bytes)) == encoded(bytes).map_values(|c: char| c as u8),
{
    lemma_encoded(bytes);
    is_ascii_chars_encode_utf8(encoded(bytes));
    assert(encode_utf8(encoded(bytes)) =~= encoded(bytes).map_values(|c: char| c as u8));
}

proof fn lemma_unpercent_byte(b: u8, rest: Seq<u8>)
    ensures
        unpercented(spaced(encoded_byte(b).map_values(|c: char| c as u8)) + rest) == seq![b]
            + unpercented(rest),
{
    let head = spaced(encoded_byte(b).map_values(|c: char| c as u8));
    lemma_encoded_byte(b);
    let s = head + rest;
    if unreserved(b) {
        assert(head =~= seq![b]);
        assert(s.skip(1) =~= rest);
    } else if b == 32 {
        assert(head =~= seq![32u8]);
        assert(s.skip(1) =~= rest);
    } else {
        let hi = upper_digit((b / 16) as int);
        let lo = upper_digit((b % 16) as int);
        assert(head.len() == 3);
        assert(s[0] == 37);
        assert(s[1] == hi as u8);
        assert(s[2] == lo as u8);
        assert(s.skip(3) =~= rest);
        assert(digit_value(s[1] as char) == Some((b / 16) as int));
        assert(digit_value(s[2] as char) == Some((b % 16) as int));
        assert((16 * (b / 16) + (b % 16)) as u8 == b);
    }
}

/// Decoding undoes encoding.
pub proof fn law_decode_undoes_encode(s: Seq<char>)
    ensures
        field_text(encoded(encode_utf8(s))) == s,
{
    let bytes = encode_utf8(s);
    lemma_encoded_bytes(bytes);
    lemma_unpercent_encoded(bytes);
    law_text_survives_bytes(s);
}

proof fn lemma_unpercent_encoded(bytes: Seq<u8>)
    ensures
        unpercented(spaced(encoded(bytes).map_values(|c: char| c as u8))) == bytes,
    decreases bytes.len(),
{
    let f = |c: char| c as u8;
    if bytes.len() == 0 {
        assert(encoded(bytes).map_values(f) =~= seq![]);
        assert(spaced(Seq::<u8>::empty()) =~= seq![]);
        assert(unpercented(Seq::<u8>::empty()) =~= bytes);
        assert(spaced(encoded(bytes).map_values(f)) =~= seq![]);
    } else {
        let head = encoded_byte(bytes[0]);
        let tail = encoded(bytes.skip(1));
        lemma_unpercent_encoded(bytes.skip(1));
        assert(spaced((head + tail).map_values(f)) =~= spaced(head.map_values(f)) + spaced(
            tail.map_values(f),
        ));
        lemma_unpercent_byte(bytes[0], spaced(tail.map_values(f)));
        assert(seq![bytes[0]] + bytes.skip(1) =~= bytes);
    }
}

/// A form that was written is read back field by field.
pub proof fn law_form_round_trip(fields: Seq<(Seq<char>, Seq<char>)>)
    requires
        fields.len() > 0,
    ensures
        field_pairs(encode_utf8(encoded_form(fields))) == fields,
{
    let parts = fields.map_values(|p: (Seq<char>, Seq<char>)| encoded_pair(p));
    let body = encoded_form(fields);
    law_text_survives_bytes(body);
    assert forall|i: int| 0 <= i < parts.len() implies !(#[trigger] parts[i]).contains('&') by {
        let key = encoded(encode_utf8(fields[i].0));
        let value = encoded(encode_utf8(fields[i].1));
        lemma_encoded(encode_utf8(fields[i].0));
        lemma_encoded(encode_utf8(fields[i].1));
        assert(parts[i] == key + seq!['='] + value);
        assert forall|j: int| 0 <= j < parts[i].len() implies parts[i][j] != '&' by {
            if j < key.len() {
                assert(parts[i][j] == key[j]);
            } else if j > key.len() {
                assert(parts[i][j] == value[j - key.len() - 1]);
            }
        }
    }
    law_split_undoes_join(parts, '&');
    let f = |text: Seq<char>| pair_of(text);
    lemma_pairs_read_back(fields, parts.len() as int);
    assert(parts.take(parts.len() as int) =~= parts);
    assert(fields.take(fields.len() as int) =~= fields);
}

proof fn lemma_pairs_read_back(fields: Seq<(Seq<char>, Seq<char>)>, n: int)
    requires
        0 <= n <= fields.len(),
    ensures
        kept(
            fields.map_values(|p: (Seq<char>, Seq<char>)| encoded_pair(p)).take(n),
            |text: Seq<char>| pair_of(text),
        ) == fields.take(n),
    decreases n,
{
    let parts = fields.map_values(|p: (Seq<char>, Seq<char>)| encoded_pair(p));
    let f = |text: Seq<char>| pair_of(text);
    if n == 0 {
        assert(kept(parts.take(0), f) =~= fields.take(0));
    } else {
        lemma_pairs_read_back(fields, n - 1);
        lemma_kept_step(parts, f, n - 1);
        let (name, value) = fields[n - 1];
        let key = encoded(encode_utf8(name));
        let text = encoded(encode_utf8(value));
        lemma_encoded(encode_utf8(name));
        let part = parts[n - 1];
        assert(part == key + seq!['='] + text);
        assert forall|j: int| 0 <= j < key.len() implies part[j] != '=' by {
            assert(part[j] == key[j]);
        }
        lemma_index_of_is(part, '=', key.len() as int);
        assert(part.take(key.len() as int) =~= key);
        assert(part.skip(1 + key.len() as int) =~= text);
        law_decode_undoes_encode(name);
        law_decode_undoes_encode(value);
        assert(fields.take(n) =~= fields.take(n - 1).push((name, value)));
    }
}

/// Law: in a form, a plus is a space, and a percent sign with two hexadecimal
/// digits of either case is the byte that they write; all else is itself.
pub proof fn law_forms_are_decoded(a: u8, b: u8, c: u8, rest: Seq<u8>)
    requires
        digit_value(a as char) is Some,
        digit_value(b as char) is Some,
        c != 37,
    ensures
        unpercented(seq![37u8, a, b] + rest) == seq![
            (16 * digit_value(a as char)->0 + digit_value(b as char)->0) as u8,
        ] + unpercented(rest),
        unpercented(seq![c] + rest) == seq![c] + unpercented(rest),
        spaced(seq![43u8]) == seq![32u8],
        c != 43 ==> spaced(seq![c]) == seq![c],
{
    let coded = seq![37u8, a, b] + rest;
    assert(coded.skip(3) =~= rest);
    assert((seq![c] + rest).skip(1) =~= rest);
    assert(spaced(seq![43u8]) =~= seq![32u8]);
    if c != 43 {
        assert(spaced(seq![c]) =~= seq![c]);
    }
}

/// Law: of two fields of one name the last one counts.
pub proof fn law_last_field_counts(
    fields: Seq<(Seq<char>, Seq<char>)>,
    name: Seq<char>,
    value: Seq<char>,
    other: Seq<char>,
)
    ensures
        fields_map(fields.push((name, value)))[name] == value,
        fields_map(fields.push((name, value))).contains_key(name),
        other != name ==> fields_map(fields.push((name, value))).contains_key(other) == fields_map(
            fields,
        ).contains_key(other),
        other != name && fields_map(fields).contains_key(other) ==> fields_map(
            fields.push((name, value)),
        )[other] == fields_map(fields)[other],
{
    assert(fields.push((name, value)).drop_last() =~= fields);
}

} // verus!
