//! Bytes as they come off the wire: reading them as text, and the searching
//! and trimming that header blocks need.

use vstd::prelude::*;
use vstd::utf8::{decode_utf8, encode_utf8, valid_utf8};

use crate::text::{
    find_sub, index_of, lemma_find_sub, lemma_index_of, lemma_index_of_is, split_on, starts,
};

verus! {

/// The text that stands for bytes that are not valid UTF-8.
pub uninterp spec fn lossy(bytes: Seq<u8>) -> Seq<char>;

/// Bytes read as text: what they encode where they are valid UTF-8, and what
/// stands for them where they are not.
pub open spec fn decoded(bytes: Seq<u8>) -> Seq<char> {
    if valid_utf8(bytes) {
        decode_utf8(bytes)
    } else {
        lossy(bytes)
    }
}

/// `String::from_utf8_lossy` gives the text that valid UTF-8 encodes, and some
/// text that depends on the bytes alone for any others. Which text that is
/// (where the replacement characters fall) is left unsaid.
#[verifier::external_body]
pub(crate) fn from_utf8_lossy(bytes: &[u8]) -> (r: String)
    ensures
        r@ == (if valid_utf8(bytes@) {
            decode_utf8(bytes@)
        } else {
            lossy(bytes@)
        }),
{
    String::from_utf8_lossy(bytes).into_owned()
}

/// Text written out as bytes reads back as it was.
pub proof fn law_text_survives_bytes(s: Seq<char>)
    ensures
        decoded(encode_utf8(s)) == s,
{
    broadcast use vstd::utf8::encode_utf8_valid_utf8;
    broadcast use vstd::utf8::encode_utf8_decode_utf8;

    assert(valid_utf8(encode_utf8(s)));
}

/// A copy of the bytes `from..to`.
pub fn bytes_of(v: &[u8], from: usize, to: usize) -> (r: Vec<u8>)
    requires
        from <= to <= v@.len(),
    ensures
        r@ == v@.subrange(from as int, to as int),
{
    let mut r: Vec<u8> = Vec::new();
    let mut i: usize = from;
    while i < to
        invariant
            from <= i <= to <= v@.len(),
            r@ == v@.subrange(from as int, i as int),
        decreases to - i,
    {
        r.push(v[i]);
        proof {
            assert(v@.subrange(from as int, i + 1) =~= v@.subrange(from as int, i as int).push(
                v@[i as int],
            ));
        }
        i += 1;
    }
    r
}

/// Appends `more` to `out`.
pub fn push_bytes(out: &mut Vec<u8>, more: &[u8])
    ensures
        final(out)@ == old(out)@ + more@,
{
    let mut i: usize = 0;
    proof {
        assert(more@.take(0) =~= seq![]);
        assert(out@ + more@.take(0) =~= out@);
    }
    while i < more.len()
        invariant
            i <= more@.len(),
            out@ == old(out)@ + more@.take(i as int),
        decreases more@.len() - i,
    {
        out.push(more[i]);
        proof {
            assert(more@.take(i + 1) =~= more@.take(i as int).push(more@[i as int]));
            assert(out@ =~= old(out)@ + more@.take(i + 1));
        }
        i += 1;
    }
    proof {
        assert(more@.take(more@.len() as int) =~= more@);
    }
}

/// The index of the first `b` at or after `from` and before `to`, or `to`.
pub fn find_byte(v: &[u8], from: usize, to: usize, b: u8) -> (r: usize)
    requires
        from <= to <= v@.len(),
    ensures
        from <= r <= to,
        r == from + index_of(v@.subrange(from as int, to as int), b),
{
    let mut i: usize = from;
    while i < to && v[i] != b
        invariant
            from <= i <= to <= v@.len(),
            forall|j: int| from <= j < i ==> v@[j] != b,
        decreases to - i,
    {
        i += 1;
    }
    proof {
        let s = v@.subrange(from as int, to as int);
        assert forall|j: int| 0 <= j < i - from implies s[j] != b by {
            assert(s[j] == v@[from + j]);
        }
        lemma_index_of_is(s, b, i - from);
    }
    i
}

/// Whether the bytes of `v` from `at` on begin with those of `p`.
pub fn matches_bytes(v: &[u8], at: usize, p: &[u8]) -> (r: bool)
    requires
        at <= v@.len(),
    ensures
        r == starts(v@.skip(at as int), p@),
{
    let n: usize = v.len();
    if n - at < p.len() {
        return false;
    }
    let mut i: usize = 0;
    while i < p.len()
        invariant
            n == v@.len(),
            at <= n,
            p@.len() <= n - at,
            i <= p@.len(),
            forall|j: int| 0 <= j < i ==> v@[at + j] == p@[j],
        decreases p@.len() - i,
    {
        if v[at + i] != p[i] {
            proof {
                let t = v@.skip(at as int).take(p@.len() as int);
                assert(t[i as int] == v@[at + i]);
            }
            return false;
        }
        i += 1;
    }
    proof {
        assert(v@.skip(at as int).take(p@.len() as int) =~= p@);
    }
    true
}

/// Where `needle` first occurs in `haystack`; an empty needle is nowhere.
pub open spec fn subsequence_at(haystack: Seq<u8>, needle: Seq<u8>) -> Option<int> {
    if needle.len() == 0 {
        None
    } else {
        find_sub(haystack, needle)
    }
}

/// Where `needle` first occurs in `haystack`.
pub fn find_subsequence(haystack: &[u8], needle: &[u8]) -> (r: Option<usize>)
    ensures
        match r {
            Some(i) => i + needle@.len() <= haystack@.len() && subsequence_at(haystack@, needle@)
                == Some(i as int),
            None => subsequence_at(haystack@, needle@) is None,
        },
{
    if needle.len() == 0 {
        return None;
    }
    let mut i: usize = 0;
    proof {
        lemma_find_sub(haystack@, needle@);
        assert(haystack@.skip(0) =~= haystack@);
    }
    loop
        invariant
            needle@.len() > 0,
            i <= haystack@.len(),
            match find_sub(haystack@.skip(i as int), needle@) {
                Some(k) => find_sub(haystack@, needle@) == Some(k + i),
                None => find_sub(haystack@, needle@) is None,
            },
        decreases haystack@.len() - i,
    {
        if matches_bytes(haystack, i, needle) {
            return Some(i);
        }
        if i == haystack.len() {
            return None;
        }
        proof {
            assert(haystack@.skip(i as int).skip(1) =~= haystack@.skip(i + 1));
        }
        i += 1;
    }
}

/// A line without the carriage return that ends it.
pub open spec fn cr_trimmed(line: Seq<u8>) -> Seq<u8> {
    if line.len() > 0 && line.last() == 13 {
        line.drop_last()
    } else {
        line
    }
}

/// A line without the carriage return that ends it.
pub fn trim_cr(line: &[u8]) -> (r: Vec<u8>)
    ensures
        r@ == cr_trimmed(line@),
{
    let n: usize = line.len();
    let end: usize = if n > 0 && line[n - 1] == 13 {
        n - 1
    } else {
        n
    };
    let r = bytes_of(line, 0, end);
    proof {
        assert(r@ =~= cr_trimmed(line@));
    }
    r
}

/// Whether `b` is a space or a tab.
pub open spec fn is_blank(b: u8) -> bool {
    b == 32 || b == 9
}

/// `value` without the spaces and tabs it begins with.
pub open spec fn space_trimmed_start(value: Seq<u8>) -> Seq<u8>
    decreases value.len(),
{
    if value.len() > 0 && is_blank(value[0]) {
        space_trimmed_start(value.skip(1))
    } else {
        value
    }
}

/// `value` without the spaces and tabs it ends with.
pub open spec fn space_trimmed_end(value: Seq<u8>) -> Seq<u8>
    decreases value.len(),
{
    if value.len() > 0 && is_blank(value.last()) {
        space_trimmed_end(value.drop_last())
    } else {
        value
    }
}

/// `value` without the spaces and tabs around it.
pub fn trim_space(value: &[u8]) -> (r: Vec<u8>)
    ensures
        r@ == space_trimmed_end(space_trimmed_start(value@)),
{
    let n: usize = value.len();
    let mut from: usize = 0;
    proof {
        assert(value@.skip(0) =~= value@);
    }
    while from < n && (value[from] == 32 || value[from] == 9)
        invariant
            n == value@.len(),
            from <= n,
            space_trimmed_start(value@.skip(from as int)) == space_trimmed_start(value@),
        decreases n - from,
    {
        proof {
            assert(value@.skip(from as int).skip(1) =~= value@.skip(from + 1));
        }
        from += 1;
    }
    let ghost inner = value@.skip(from as int);
    let mut to: usize = n;
    proof {
        assert(value@.subrange(from as int, n as int) =~= inner);
    }
    while to > from && (value[to - 1] == 32 || value[to - 1] == 9)
        invariant
            from <= to <= n,
            n == value@.len(),
            space_trimmed_end(value@.subrange(from as int, to as int)) == space_trimmed_end(inner),
        decreases to,
    {
        proof {
            assert(value@.subrange(from as int, to as int).drop_last() =~= value@.subrange(
                from as int,
                to - 1,
            ));
        }
        to -= 1;
    }
    bytes_of(value, from, to)
}

/// Bytes as the characters of the same numbers.
pub open spec fn latin(bytes: Seq<u8>) -> Seq<char> {
    bytes.map_values(|b: u8| b as char)
}

/// Bytes as the characters of the same numbers.
pub fn to_latin(bytes: &[u8]) -> (r: String)
    ensures
        r@ == latin(bytes@),
{
    let mut r = String::new();
    let mut i: usize = 0;
    while i < bytes.len()
        invariant
            i <= bytes@.len(),
            r@ == latin(bytes@.take(i as int)),
        decreases bytes@.len() - i,
    {
        r.push(bytes[i] as char);
        proof {
            assert(latin(bytes@.take(i + 1)) =~= latin(bytes@.take(i as int)).push(
                bytes@[i as int] as char,
            ));
        }
        i += 1;
    }
    proof {
        assert(bytes@.take(bytes@.len() as int) =~= bytes@);
    }
    r
}

/// The pieces of `v` between occurrences of `b`.
pub fn split_bytes(v: &[u8], b: u8) -> (r: Vec<Vec<u8>>)
    ensures
        r@.map_values(|x: Vec<u8>| x@) == split_on(v@, b),
{
    let size: usize = v.len();
    let mut r: Vec<Vec<u8>> = Vec::new();
    let mut from: usize = 0;
    let ghost view = |x: Vec<u8>| x@;
    proof {
        assert(v@.skip(0) =~= v@);
        assert(r@.map_values(view) + split_on(v@, b) =~= split_on(v@, b));
    }
    loop
        invariant
            size == v@.len(),
            from <= size,
            view == (|x: Vec<u8>| x@),
            r@.map_values(view) + split_on(v@.skip(from as int), b) == split_on(v@, b),
        decreases size - from,
    {
        let i = find_byte(v, from, size, b);
        let ghost rest = v@.skip(from as int);
        let piece = bytes_of(v, from, i);
        let ghost before = r@.map_values(view);
        proof {
            assert(v@.subrange(from as int, size as int) =~= rest);
            lemma_index_of(rest, b);
            assert(piece@ =~= rest.take(i - from));
        }
        r.push(piece);
        proof {
            assert(r@.map_values(view) =~= before.push(piece@));
        }
        if i == size {
            proof {
                assert(piece@ =~= rest);
                assert(r@.map_values(view) =~= split_on(v@, b));
            }
            return r;
        }
        proof {
            assert(rest.skip(i - from + 1) =~= v@.skip(i + 1));
            assert(r@.map_values(view) + split_on(v@.skip(i + 1), b) =~= before + split_on(rest, b));
        }
        from = i + 1;
    }
}

} // verus!
