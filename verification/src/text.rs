//! Text as sequences of characters: the searching, splitting, trimming and
//! joining that the rest of the library is written with.
//!
//! Every function here is stated over `Seq<char>`, the view of a `str`.

use vstd::prelude::*;
use vstd::utf8::encode_utf8;

use crate::seqs::{kept, lemma_kept_step};

verus! {

/// `String::push` appends one character.
pub assume_specification[ String::push ](s: &mut String, c: char)
    ensures
        final(s)@ == old(s)@.push(c),
;

/// The views of a sequence of strings.
pub open spec fn texts(v: Seq<String>) -> Seq<Seq<char>> {
    v.map_values(|s: String| s@)
}

/// The index of the first element of `s` equal to `c`, or `s.len()`.
pub open spec fn index_of<A>(s: Seq<A>, c: A) -> int
    decreases s.len(),
{
    if s.len() == 0 || s[0] == c {
        0
    } else {
        1 + index_of(s.skip(1), c)
    }
}

/// An index is `index_of` exactly when it is the first match.
pub proof fn lemma_index_of<A>(s: Seq<A>, c: A)
    ensures
        0 <= index_of(s, c) <= s.len(),
        forall|j: int| 0 <= j < index_of(s, c) ==> s[j] != c,
        index_of(s, c) < s.len() ==> s[index_of(s, c)] == c,
        index_of(s, c) < s.len() <==> s.contains(c),
    decreases s.len(),
{
    if s.len() > 0 && s[0] != c {
        lemma_index_of(s.skip(1), c);
        let k = index_of(s.skip(1), c);
        assert forall|j: int| 0 <= j < 1 + k implies s[j] != c by {
            if j > 0 {
                assert(s.skip(1)[j - 1] == s[j]);
            }
        }
        if k < s.len() - 1 {
            assert(s[k + 1] == s.skip(1)[k]);
        }
        if s.contains(c) {
            let w = choose|w: int| 0 <= w < s.len() && s[w] == c;
            assert(s.skip(1)[w - 1] == c);
        }
    } else if s.len() > 0 {
        assert(s[0] == c);
    }
}

/// The first match is the only index with its property.
pub proof fn lemma_index_of_is<A>(s: Seq<A>, c: A, i: int)
    requires
        0 <= i <= s.len(),
        forall|j: int| 0 <= j < i ==> s[j] != c,
        i < s.len() ==> s[i] == c,
    ensures
        index_of(s, c) == i,
{
    lemma_index_of(s, c);
}

/// The characters of `s`.
pub fn chars_of(s: &str) -> (r: Vec<char>)
    ensures
        r@ == s@,
{
    let mut r: Vec<char> = Vec::new();
    for c in it: s.chars()
        invariant
            it.seq() == s@,
            r@ == s@.take(it.index()),
    {
        proof {
            assert(s@.take(it.index() + 1) =~= s@.take(it.index()).push(c));
        }
        r.push(c);
    }
    proof {
        assert(s@.take(s@.len() as int) =~= s@);
    }
    r
}

/// The text of the characters `from..to` of `v`.
pub fn text_of(v: &[char], from: usize, to: usize) -> (r: String)
    requires
        from <= to <= v@.len(),
    ensures
        r@ == v@.subrange(from as int, to as int),
{
    let mut r = String::new();
    let mut i: usize = from;
    while i < to
        invariant
            from <= i <= to <= v@.len(),
            r@ == v@.subrange(from as int, i as int),
        decreases to - i,
    {
        r.push(v[i]);
        proof {
            assert(v@.subrange(from as int, i + 1) =~= v@.subrange(from as int, i as int).push(
                v@[i as int],
            ));
        }
        i += 1;
    }
    r
}

/// Whether two texts are the same.
pub fn same(a: &str, b: &str) -> (r: bool)
    ensures
        r == (a@ == b@),
{
    let x = a.to_owned();
    let y = b.to_owned();
    x == y
}

/// The index of the first `c` at or after `from`, or the length.
pub fn find_char(v: &[char], from: usize, c: char) -> (r: usize)
    requires
        from <= v@.len(),
    ensures
        from <= r <= v@.len(),
        r == from + index_of(v@.skip(from as int), c),
{
    let mut i: usize = from;
    while i < v.len() && v[i] != c
        invariant
            from <= i <= v@.len(),
            forall|j: int| from <= j < i ==> v@[j] != c,
        decreases v@.len() - i,
    {
        i += 1;
    }
    proof {
        let s = v@.skip(from as int);
        assert forall|j: int| 0 <= j < i - from implies s[j] != c by {
            assert(s[j] == v@[from + j]);
        }
        lemma_index_of_is(s, c, i - from);
    }
    i
}

/// Whether `s` begins with `p`.
pub open spec fn starts<A>(s: Seq<A>, p: Seq<A>) -> bool {
    p.len() <= s.len() && s.take(p.len() as int) == p
}

/// Whether `s` ends with `p`.
pub open spec fn ends<A>(s: Seq<A>, p: Seq<A>) -> bool {
    p.len() <= s.len() && s.skip(s.len() - p.len()) == p
}

/// What follows the prefix `p` of `s`.
pub open spec fn after_prefix<A>(s: Seq<A>, p: Seq<A>) -> Option<Seq<A>> {
    if starts(s, p) {
        Some(s.skip(p.len() as int))
    } else {
        None
    }
}

/// What comes before the suffix `p` of `s`.
pub open spec fn before_suffix<A>(s: Seq<A>, p: Seq<A>) -> Option<Seq<A>> {
    if ends(s, p) {
        Some(s.take(s.len() - p.len()))
    } else {
        None
    }
}

/// Whether the characters of `v` from `at` on begin with those of `p`.
pub fn matches_at(v: &[char], at: usize, p: &[char]) -> (r: bool)
    requires
        at <= v@.len(),
    ensures
        r == starts(v@.skip(at as int), p@),
{
    let n: usize = v.len();
    if n - at < p.len() {
        return false;
    }
    let mut i: usize = 0;
    while i < p.len()
        invariant
            n == v@.len(),
            at <= n,
            p@.len() <= n - at,
            i <= p@.len(),
            forall|j: int| 0 <= j < i ==> v@[at + j] == p@[j],
        decreases p@.len() - i,
    {
        if v[at + i] != p[i] {
            proof {
                let t = v@.skip(at as int).take(p@.len() as int);
                assert(t[i as int] == v@[at + i]);
            }
            return false;
        }
        i += 1;
    }
    proof {
        assert(v@.skip(at as int).take(p@.len() as int) =~= p@);
    }
    true
}

/// Whether `s` begins with `p`.
pub fn starts_with(s: &str, p: &str) -> (r: bool)
    ensures
        r == starts(s@, p@),
{
    let v = chars_of(s);
    let w = chars_of(p);
    proof {
        assert(v@.skip(0) =~= v@);
    }
    matches_at(&v, 0, &w)
}

/// Whether `s` ends with `p`.
pub fn ends_with(s: &str, p: &str) -> (r: bool)
    ensures
        r == ends(s@, p@),
{
    let v = chars_of(s);
    let w = chars_of(p);
    if v.len() < w.len() {
        return false;
    }
    let at: usize = v.len() - w.len();
    let r = matches_at(&v, at, &w);
    proof {
        assert(v@.skip(at as int).take(w@.len() as int) =~= v@.skip(at as int));
    }
    r
}

/// What follows the prefix `p` of `s`, if `s` begins with it.
pub fn strip_prefix<'a>(s: &'a str, p: &str) -> (r: Option<&'a str>)
    ensures
        match r {
            Some(t) => after_prefix(s@, p@) == Some(t@),
            None => after_prefix(s@, p@) is None,
        },
{
    if starts_with(s, p) {
        let n: usize = s.unicode_len();
        let k: usize = p.unicode_len();
        let t = s.substring_char(k, n);
        proof {
            assert(t@ =~= s@.skip(p@.len() as int));
        }
        Some(t)
    } else {
        None
    }
}

/// What comes before the suffix `p` of `s`, if `s` ends with it.
pub fn strip_suffix<'a>(s: &'a str, p: &str) -> (r: Option<&'a str>)
    ensures
        match r {
            Some(t) => before_suffix(s@, p@) == Some(t@),
            None => before_suffix(s@, p@) is None,
        },
{
    if ends_with(s, p) {
        let n: usize = s.unicode_len();
        let k: usize = p.unicode_len();
        let t = s.substring_char(0, n - k);
        proof {
            assert(t@ =~= s@.take(s@.len() - p@.len()));
        }
        Some(t)
    } else {
        None
    }
}

/// Where `p` first occurs in `s`.
pub open spec fn find_sub<A>(s: Seq<A>, p: Seq<A>) -> Option<int>
    decreases s.len(),
{
    if starts(s, p) {
        Some(0)
    } else if s.len() == 0 {
        None
    } else {
        match find_sub(s.skip(1), p) {
            Some(i) => Some(i + 1),
            None => None,
        }
    }
}

/// Whether `p` occurs in `s`.
pub open spec fn holds<A>(s: Seq<A>, p: Seq<A>) -> bool {
    exists|i: int| 0 <= i <= s.len() && #[trigger] starts(s.skip(i), p)
}

/// `find_sub` is the first place where `p` occurs, and finds one whenever
/// there is one.
pub proof fn lemma_find_sub<A>(s: Seq<A>, p: Seq<A>)
    ensures
        find_sub(s, p) is Some <==> holds(s, p),
        find_sub(s, p) matches Some(i) ==> {
            &&& 0 <= i <= s.len() - p.len()
            &&& starts(s.skip(i), p)
            &&& forall|j: int| 0 <= j < i ==> !#[trigger] starts(s.skip(j), p)
        },
    decreases s.len(),
{
    assert(s.skip(0) =~= s);
    if starts(s, p) {
        assert(starts(s.skip(0), p));
    } else if s.len() > 0 {
        let t = s.skip(1);
        lemma_find_sub(t, p);
        if find_sub(t, p) is Some {
            let i = find_sub(t, p)->0;
            assert(t.skip(i) =~= s.skip(i + 1));
            assert(starts(s.skip(i + 1), p));
            assert forall|j: int| 0 <= j < i + 1 implies !#[trigger] starts(s.skip(j), p) by {
                if j > 0 {
                    assert(t.skip(j - 1) =~= s.skip(j));
                }
            }
        } else if holds(s, p) {
            let i = choose|i: int| 0 <= i <= s.len() && #[trigger] starts(s.skip(i), p);
            assert(i > 0);
            assert(t.skip(i - 1) =~= s.skip(i));
            assert(starts(t.skip(i - 1), p));
        }
    } else if holds(s, p) {
        let i = choose|i: int| 0 <= i <= s.len() && #[trigger] starts(s.skip(i), p);
        assert(s.skip(i) =~= s);
    }
}

/// Where the characters of `p` first occur in `v` at or after `from`.
pub fn find_chars(v: &[char], from: usize, p: &[char]) -> (r: Option<usize>)
    requires
        from <= v@.len(),
    ensures
        match r {
            Some(i) => from <= i && i + p@.len() <= v@.len() && find_sub(
                v@.skip(from as int),
                p@,
            ) == Some(i - from),
            None => find_sub(v@.skip(from as int), p@) is None,
        },
{
    let mut i: usize = from;
    proof {
        lemma_find_sub(v@.skip(from as int), p@);
    }
    loop
        invariant
            from <= i <= v@.len(),
            match find_sub(v@.skip(i as int), p@) {
                Some(k) => find_sub(v@.skip(from as int), p@) == Some(k + i - from),
                None => find_sub(v@.skip(from as int), p@) is None,
            },
        decreases v@.len() - i,
    {
        if matches_at(v, i, p) {
            return Some(i);
        }
        if i == v.len() {
            return None;
        }
        proof {
            assert(v@.skip(i as int).skip(1) =~= v@.skip(i + 1));
        }
        i += 1;
    }
}

/// Whether `p` occurs in `s`.
pub fn contains(s: &str, p: &str) -> (r: bool)
    ensures
        r == holds(s@, p@),
{
    let v = chars_of(s);
    let w = chars_of(p);
    proof {
        assert(v@.skip(0) =~= v@);
        lemma_find_sub(s@, p@);
    }
    find_chars(&v, 0, &w).is_some()
}

/// The pieces of `s` between occurrences of `c`: always at least one piece.
pub open spec fn split_on<A>(s: Seq<A>, c: A) -> Seq<Seq<A>>
    decreases s.len(),
{
    let i = index_of(s, c);
    if 0 <= i < s.len() {
        seq![s.take(i)] + split_on(s.skip(i + 1), c)
    } else {
        seq![s]
    }
}

/// The pieces of `s` between occurrences of `c`.
pub fn split(s: &str, c: char) -> (r: Vec<String>)
    ensures
        texts(r@) == split_on(s@, c),
{
    let v = chars_of(s);
    let mut r: Vec<String> = Vec::new();
    let mut from: usize = 0;
    proof {
        assert(v@.skip(0) =~= v@);
        assert(texts(r@) + split_on(v@, c) =~= split_on(v@, c));
    }
    loop
        invariant
            v@ == s@,
            from <= v@.len(),
            texts(r@) + split_on(v@.skip(from as int), c) == split_on(s@, c),
        decreases v@.len() - from,
    {
        let i = find_char(&v, from, c);
        let ghost rest = v@.skip(from as int);
        let piece = text_of(&v, from, i);
        let ghost before = texts(r@);
        r.push(piece);
        proof {
            lemma_index_of(rest, c);
            assert(texts(r@) =~= before.push(piece@));
            assert(piece@ =~= rest.take(i - from));
        }
        if i == v.len() {
            proof {
                assert(piece@ =~= rest);
                assert(texts(r@) =~= split_on(s@, c));
            }
            return r;
        }
        proof {
            assert(rest.skip(i - from + 1) =~= v@.skip(i + 1));
            assert(texts(r@) + split_on(v@.skip(i + 1), c) =~= before + split_on(rest, c));
        }
        from = i + 1;
    }
}

/// Whether `c` is white space: the characters with Unicode's `White_Space`
/// property.
pub open spec fn is_white(c: char) -> bool {
    ||| '\u{9}' <= c <= '\u{d}'
    ||| c == ' '
    ||| c == '\u{85}'
    ||| c == '\u{a0}'
    ||| c == '\u{1680}'
    ||| '\u{2000}' <= c <= '\u{200a}'
    ||| c == '\u{2028}'
    ||| c == '\u{2029}'
    ||| c == '\u{202f}'
    ||| c == '\u{205f}'
    ||| c == '\u{3000}'
}

/// Whether `c` is white space.
pub fn whitespace(c: char) -> (r: bool)
    ensures
        r == is_white(c),
{
    ('\u{9}' <= c && c <= '\u{d}') || c == ' ' || c == '\u{85}' || c == '\u{a0}' || c == '\u{1680}'
        || ('\u{2000}' <= c && c <= '\u{200a}') || c == '\u{2028}' || c == '\u{2029}' || c
        == '\u{202f}' || c == '\u{205f}' || c == '\u{3000}'
}

/// `s` without its leading white space.
pub open spec fn trimmed_start(s: Seq<char>) -> Seq<char>
    decreases s.len(),
{
    if s.len() > 0 && is_white(s[0]) {
        trimmed_start(s.skip(1))
    } else {
        s
    }
}

/// `s` without its trailing white space.
pub open spec fn trimmed_end(s: Seq<char>) -> Seq<char>
    decreases s.len(),
{
    if s.len() > 0 && is_white(s.last()) {
        trimmed_end(s.drop_last())
    } else {
        s
    }
}

/// `s` without its leading and trailing white space.
pub open spec fn trimmed(s: Seq<char>) -> Seq<char> {
    trimmed_end(trimmed_start(s))
}

/// `s` without its trailing `c`s.
pub open spec fn stripped_end<A>(s: Seq<A>, c: A) -> Seq<A>
    decreases s.len(),
{
    if s.len() > 0 && s.last() == c {
        stripped_end(s.drop_last(), c)
    } else {
        s
    }
}

/// `s` without its leading `c`s.
pub open spec fn stripped_start<A>(s: Seq<A>, c: A) -> Seq<A>
    decreases s.len(),
{
    if s.len() > 0 && s[0] == c {
        stripped_start(s.skip(1), c)
    } else {
        s
    }
}

/// The first index at or after `from` that is not white space.
pub fn skip_white(v: &[char], from: usize) -> (r: usize)
    requires
        from <= v@.len(),
    ensures
        from <= r <= v@.len(),
        v@.skip(r as int) == trimmed_start(v@.skip(from as int)),
        r < v@.len() ==> !is_white(v@[r as int]),
{
    let mut i: usize = from;
    while i < v.len() && whitespace(v[i])
        invariant
            from <= i <= v@.len(),
            trimmed_start(v@.skip(i as int)) == trimmed_start(v@.skip(from as int)),
        decreases v@.len() - i,
    {
        proof {
            assert(v@.skip(i as int).skip(1) =~= v@.skip(i + 1));
        }
        i += 1;
    }
    i
}

/// The index one past the last character of `from..to` that is not white
/// space.
pub fn skip_white_back(v: &[char], from: usize, to: usize) -> (r: usize)
    requires
        from <= to <= v@.len(),
    ensures
        from <= r <= to,
        v@.subrange(from as int, r as int) == trimmed_end(v@.subrange(from as int, to as int)),
{
    let mut i: usize = to;
    while i > from && whitespace(v[i - 1])
        invariant
            from <= i <= to <= v@.len(),
            trimmed_end(v@.subrange(from as int, i as int)) == trimmed_end(
                v@.subrange(from as int, to as int),
            ),
        decreases i,
    {
        proof {
            assert(v@.subrange(from as int, i as int).drop_last() =~= v@.subrange(
                from as int,
                i - 1,
            ));
        }
        i -= 1;
    }
    i
}

/// `s` without its leading and trailing white space.
pub fn trim(s: &str) -> (r: String)
    ensures
        r@ == trimmed(s@),
{
    let v = chars_of(s);
    proof {
        assert(v@.skip(0) =~= v@);
    }
    let from = skip_white(&v, 0);
    let to = skip_white_back(&v, from, v.len());
    proof {
        assert(v@.subrange(from as int, v@.len() as int) =~= v@.skip(from as int));
    }
    text_of(&v, from, to)
}

/// `s` without its leading white space.
pub fn trim_start(s: &str) -> (r: String)
    ensures
        r@ == trimmed_start(s@),
{
    let v = chars_of(s);
    proof {
        assert(v@.skip(0) =~= v@);
    }
    let from = skip_white(&v, 0);
    proof {
        assert(v@.subrange(from as int, v@.len() as int) =~= v@.skip(from as int));
    }
    text_of(&v, from, v.len())
}

/// `s` without its trailing white space.
pub fn trim_end(s: &str) -> (r: String)
    ensures
        r@ == trimmed_end(s@),
{
    let v = chars_of(s);
    let to = skip_white_back(&v, 0, v.len());
    proof {
        assert(v@.subrange(0, v@.len() as int) =~= v@);
    }
    text_of(&v, 0, to)
}

/// `s` without its trailing `c`s.
pub fn trim_end_of(s: &str, c: char) -> (r: String)
    ensures
        r@ == stripped_end(s@, c),
{
    let v = chars_of(s);
    let mut i: usize = v.len();
    proof {
        assert(v@.take(v@.len() as int) =~= v@);
    }
    while i > 0 && v[i - 1] == c
        invariant
            i <= v@.len(),
            v@ == s@,
            stripped_end(v@.take(i as int), c) == stripped_end(s@, c),
        decreases i,
    {
        proof {
            assert(v@.take(i as int).drop_last() =~= v@.take(i - 1));
        }
        i -= 1;
    }
    proof {
        assert(v@.subrange(0, i as int) =~= v@.take(i as int));
    }
    text_of(&v, 0, i)
}

/// `s` without its leading `c`s.
pub fn trim_start_of(s: &str, c: char) -> (r: String)
    ensures
        r@ == stripped_start(s@, c),
{
    let v = chars_of(s);
    let mut i: usize = 0;
    proof {
        assert(v@.skip(0) =~= v@);
    }
    while i < v.len() && v[i] == c
        invariant
            i <= v@.len(),
            v@ == s@,
            stripped_start(v@.skip(i as int), c) == stripped_start(s@, c),
        decreases v@.len() - i,
    {
        proof {
            assert(v@.skip(i as int).skip(1) =~= v@.skip(i + 1));
        }
        i += 1;
    }
    proof {
        assert(v@.subrange(i as int, v@.len() as int) =~= v@.skip(i as int));
    }
    text_of(&v, i, v.len())
}

/// One line without a carriage return that ends it.
pub open spec fn without_cr(s: Seq<char>) -> Seq<char> {
    if s.len() > 0 && s.last() == '\r' {
        s.drop_last()
    } else {
        s
    }
}

/// The lines of `s`, each ended by `\n` or `\r\n`; the last may lack its end.
pub open spec fn lines_of(s: Seq<char>) -> Seq<Seq<char>>
    decreases s.len(),
{
    let i = index_of(s, '\n');
    if s.len() == 0 {
        seq![]
    } else if 0 <= i < s.len() {
        seq![without_cr(s.take(i))] + lines_of(s.skip(i + 1))
    } else {
        seq![s]
    }
}

/// The lines of `s`.
pub fn lines(s: &str) -> (r: Vec<String>)
    ensures
        texts(r@) == lines_of(s@),
{
    let v = chars_of(s);
    let mut r: Vec<String> = Vec::new();
    let mut from: usize = 0;
    proof {
        assert(v@.skip(0) =~= v@);
        assert(texts(r@) + lines_of(v@) =~= lines_of(v@));
    }
    while from < v.len()
        invariant
            v@ == s@,
            from <= v@.len(),
            texts(r@) + lines_of(v@.skip(from as int)) == lines_of(s@),
        decreases v@.len() - from,
    {
        let i = find_char(&v, from, '\n');
        let ghost rest = v@.skip(from as int);
        let ghost before = texts(r@);
        proof {
            lemma_index_of(rest, '\n');
            assert(v@.subrange(from as int, i as int) =~= rest.take(i - from));
        }
        if i == v.len() {
            let piece = text_of(&v, from, i);
            r.push(piece);
            proof {
                assert(piece@ =~= rest);
                assert(texts(r@) =~= before.push(piece@));
                assert(lines_of(rest) =~= seq![rest]);
                assert(texts(r@) =~= lines_of(s@));
                assert(lines_of(v@.skip(i as int)) =~= seq![]);
                assert(texts(r@) + lines_of(v@.skip(i as int)) =~= texts(r@));
            }
            from = i;
        } else {
            let end: usize = if i > from && v[i - 1] == '\r' {
                i - 1
            } else {
                i
            };
            let piece = text_of(&v, from, end);
            r.push(piece);
            proof {
                assert(piece@ =~= without_cr(rest.take(i - from)));
                assert(texts(r@) =~= before.push(piece@));
                assert(rest.skip(i - from + 1) =~= v@.skip(i + 1));
                assert(texts(r@) + lines_of(v@.skip(i + 1)) =~= before + lines_of(rest));
            }
            from = i + 1;
        }
    }
    proof {
        assert(lines_of(v@.skip(from as int)) =~= seq![]);
        assert(texts(r@) =~= lines_of(s@));
    }
    r
}

/// The index of the first white space in `s`, or `s.len()`.
pub open spec fn white_at(s: Seq<char>) -> int
    decreases s.len(),
{
    if s.len() == 0 || is_white(s[0]) {
        0
    } else {
        1 + white_at(s.skip(1))
    }
}

/// `white_at` is an index into `s`, or its length.
pub proof fn lemma_white_at(s: Seq<char>)
    ensures
        0 <= white_at(s) <= s.len(),
        forall|j: int| 0 <= j < white_at(s) ==> !is_white(s[j]),
        white_at(s) < s.len() ==> is_white(s[white_at(s)]),
    decreases s.len(),
{
    if s.len() > 0 && !is_white(s[0]) {
        lemma_white_at(s.skip(1));
        let k = white_at(s.skip(1));
        assert forall|j: int| 0 <= j < 1 + k implies !is_white(s[j]) by {
            if j > 0 {
                assert(s.skip(1)[j - 1] == s[j]);
            }
        }
        if k < s.len() - 1 {
            assert(s[k + 1] == s.skip(1)[k]);
        }
    }
}

/// The fields of `s`: its longest runs without white space.
pub open spec fn fields_of(s: Seq<char>) -> Seq<Seq<char>>
    decreases s.len(),
{
    let t = trimmed_start(s);
    let i = white_at(t);
    if 0 < i <= t.len() <= s.len() {
        seq![t.take(i)] + fields_of(t.skip(i))
    } else {
        seq![]
    }
}

/// Trimming takes nothing but leading white space away.
pub proof fn lemma_trimmed_start(s: Seq<char>)
    ensures
        trimmed_start(s).len() <= s.len(),
        trimmed_start(s) == s.skip(s.len() - trimmed_start(s).len()),
        trimmed_start(s).len() > 0 ==> !is_white(trimmed_start(s)[0]),
    decreases s.len(),
{
    if s.len() > 0 && is_white(s[0]) {
        lemma_trimmed_start(s.skip(1));
        let t = trimmed_start(s);
        assert(s.skip(1).skip(s.len() - 1 - t.len()) =~= s.skip(s.len() - t.len()));
    } else {
        assert(s.skip(0) =~= s);
    }
}

/// The fields of `s`.
pub fn fields(s: &str) -> (r: Vec<String>)
    ensures
        texts(r@) == fields_of(s@),
{
    let v = chars_of(s);
    let mut r: Vec<String> = Vec::new();
    let mut from: usize = 0;
    proof {
        assert(v@.skip(0) =~= v@);
        assert(texts(r@) + fields_of(v@) =~= fields_of(v@));
    }
    loop
        invariant
            v@ == s@,
            from <= v@.len(),
            texts(r@) + fields_of(v@.skip(from as int)) == fields_of(s@),
        decreases v@.len() - from,
    {
        let start = skip_white(&v, from);
        let ghost rest = v@.skip(from as int);
        let ghost t = v@.skip(start as int);
        proof {
            lemma_white_at(t);
        }
        if start == v.len() {
            proof {
                assert(fields_of(rest) =~= seq![]);
                assert(texts(r@) =~= fields_of(s@));
            }
            return r;
        }
        let mut i: usize = start;
        while i < v.len() && !whitespace(v[i])
            invariant
                start <= i <= v@.len(),
                white_at(v@.skip(start as int)) == i - start + white_at(v@.skip(i as int)),
            decreases v@.len() - i,
        {
            proof {
                assert(v@.skip(i as int).skip(1) =~= v@.skip(i + 1));
            }
            i += 1;
        }
        let ghost before = texts(r@);
        let piece = text_of(&v, start, i);
        r.push(piece);
        proof {
            assert(white_at(v@.skip(i as int)) == 0);
            assert(piece@ =~= t.take(i - start));
            assert(texts(r@) =~= before.push(piece@));
            assert(t.skip(i - start) =~= v@.skip(i as int));
            assert(white_at(t) > 0);
            assert(texts(r@) + fields_of(v@.skip(i as int)) =~= before + fields_of(rest));
        }
        from = i;
    }
}

/// The pieces put together with `sep` between them.
pub open spec fn joined(parts: Seq<Seq<char>>, sep: Seq<char>) -> Seq<char>
    decreases parts.len(),
{
    if parts.len() == 0 {
        seq![]
    } else if parts.len() == 1 {
        parts[0]
    } else {
        joined(parts.drop_last(), sep) + sep + parts.last()
    }
}

/// The pieces put together with `sep` between them.
pub fn join(parts: &[String], sep: &str) -> (r: String)
    ensures
        r@ == joined(texts(parts@), sep@),
{
    let mut r = String::new();
    let mut i: usize = 0;
    let ghost all = texts(parts@);
    proof {
        assert(all.take(0) =~= seq![]);
    }
    while i < parts.len()
        invariant
            i <= parts@.len(),
            all == texts(parts@),
            r@ == joined(all.take(i as int), sep@),
        decreases parts@.len() - i,
    {
        proof {
            assert(all.take(i + 1).drop_last() =~= all.take(i as int));
            assert(all.take(i + 1).last() == parts@[i as int]@);
        }
        if i > 0 {
            r.append(sep);
            r.append(parts[i].as_str());
        } else {
            r.append(parts[i].as_str());
            proof {
                assert(r@ =~= parts@[0]@);
            }
        }
        i += 1;
    }
    proof {
        assert(all.take(parts@.len() as int) =~= all);
    }
    r
}

/// `s` split at the first `c`: what comes before it and what follows.
pub open spec fn halves(s: Seq<char>, c: char) -> Option<(Seq<char>, Seq<char>)> {
    let i = index_of(s, c);
    if i < s.len() {
        Some((s.take(i), s.skip(i + 1)))
    } else {
        None
    }
}

/// `s` split at the first `c`.
pub fn split_once(s: &str, c: char) -> (r: Option<(String, String)>)
    ensures
        match r {
            Some((a, b)) => halves(s@, c) == Some((a@, b@)),
            None => halves(s@, c) is None,
        },
{
    let v = chars_of(s);
    proof {
        assert(v@.skip(0) =~= v@);
    }
    let i = find_char(&v, 0, c);
    if i == v.len() {
        return None;
    }
    let a = text_of(&v, 0, i);
    let b = text_of(&v, i + 1, v.len());
    proof {
        assert(a@ =~= s@.take(i as int));
        assert(b@ =~= s@.skip(i + 1));
    }
    Some((a, b))
}

/// Whether `c` is an ASCII digit.
pub open spec fn is_digit(c: char) -> bool {
    '0' <= c <= '9'
}

/// Whether `c` is an ASCII letter or digit.
pub open spec fn is_alphanumeric(c: char) -> bool {
    is_digit(c) || 'a' <= c <= 'z' || 'A' <= c <= 'Z'
}

/// Whether `c` is an ASCII letter or digit.
pub fn alphanumeric(c: char) -> (r: bool)
    ensures
        r == is_alphanumeric(c),
{
    ('0' <= c && c <= '9') || ('a' <= c && c <= 'z') || ('A' <= c && c <= 'Z')
}

/// `c` with an ASCII upper-case letter made lower case.
pub open spec fn lower(c: char) -> char {
    if 'A' <= c <= 'Z' {
        (c as u8 + 32) as char
    } else {
        c
    }
}

/// `c` with an ASCII lower-case letter made upper case.
pub open spec fn upper(c: char) -> char {
    if 'a' <= c <= 'z' {
        (c as u8 - 32) as char
    } else {
        c
    }
}

/// `c` with an ASCII upper-case letter made lower case.
pub fn to_lower(c: char) -> (r: char)
    ensures
        r == lower(c),
{
    if 'A' <= c && c <= 'Z' {
        let b: u8 = c as u8;
        (b + 32) as char
    } else {
        c
    }
}

/// `c` with an ASCII lower-case letter made upper case.
pub fn to_upper(c: char) -> (r: char)
    ensures
        r == upper(c),
{
    if 'a' <= c && c <= 'z' {
        let b: u8 = c as u8;
        (b - 32) as char
    } else {
        c
    }
}

/// `s` with its ASCII letters made lower case.
pub open spec fn lowered(s: Seq<char>) -> Seq<char> {
    s.map_values(|c: char| lower(c))
}

/// `s` with its ASCII letters made lower case.
pub fn lowercase(s: &str) -> (r: String)
    ensures
        r@ == lowered(s@),
{
    let v = chars_of(s);
    let mut r = String::new();
    let mut i: usize = 0;
    while i < v.len()
        invariant
            v@ == s@,
            i <= v@.len(),
            r@ == lowered(s@.take(i as int)),
        decreases v@.len() - i,
    {
        r.push(to_lower(v[i]));
        proof {
            assert(lowered(s@.take(i + 1)) =~= lowered(s@.take(i as int)).push(
                lower(s@[i as int]),
            ));
        }
        i += 1;
    }
    proof {
        assert(s@.take(s@.len() as int) =~= s@);
    }
    r
}

/// The digit of value `d`, in lower case.
pub open spec fn digit(d: int) -> char {
    if d < 10 {
        (48 + d) as char
    } else {
        (87 + d) as char
    }
}

/// The digit of value `d`.
pub fn digit_char(d: u8) -> (r: char)
    requires
        d < 16,
    ensures
        r == digit(d as int),
{
    if d < 10 {
        (48 + d) as char
    } else {
        (87 + d) as char
    }
}

/// The value of a hexadecimal digit, of either case.
pub open spec fn digit_value(c: char) -> Option<int> {
    if '0' <= c <= '9' {
        Some(c as int - 48)
    } else if 'a' <= c <= 'f' {
        Some(c as int - 87)
    } else if 'A' <= c <= 'F' {
        Some(c as int - 55)
    } else {
        None
    }
}

/// The value of a hexadecimal digit.
pub fn value_of(c: char) -> (r: Option<u8>)
    ensures
        match r {
            Some(d) => digit_value(c) == Some(d as int) && d < 16,
            None => digit_value(c) is None,
        },
{
    if '0' <= c && c <= '9' {
        let b: u8 = c as u8;
        Some(b - 48)
    } else if 'a' <= c && c <= 'f' {
        let b: u8 = c as u8;
        Some(b - 87)
    } else if 'A' <= c && c <= 'F' {
        let b: u8 = c as u8;
        Some(b - 55)
    } else {
        None
    }
}

/// A digit's value is what it was written for.
pub proof fn lemma_digit(d: int)
    requires
        0 <= d < 16,
    ensures
        digit_value(digit(d)) == Some(d),
        d < 10 ==> is_digit(digit(d)),
        is_alphanumeric(digit(d)),
{
}

/// `n` in decimal, without leading zeros.
pub open spec fn decimal(n: nat) -> Seq<char>
    decreases n,
{
    if n < 10 {
        seq![digit(n as int)]
    } else {
        decimal(n / 10).push(digit((n % 10) as int))
    }
}

/// Appends `n` in decimal.
pub fn push_decimal(out: &mut String, n: u64)
    ensures
        final(out)@ == old(out)@ + decimal(n as nat),
    decreases n,
{
    if n >= 10 {
        push_decimal(out, n / 10);
    }
    let ghost mid = out@;
    out.push(digit_char((n % 10) as u8));
    proof {
        assert(out@ =~= old(out)@ + decimal(n as nat));
    }
}

/// `n` in decimal.
pub fn to_decimal(n: u64) -> (r: String)
    ensures
        r@ == decimal(n as nat),
{
    let mut r = String::new();
    push_decimal(&mut r, n);
    proof {
        assert(r@ =~= decimal(n as nat));
    }
    r
}

/// `n` in hexadecimal, without leading zeros.
pub open spec fn hexadecimal(n: nat) -> Seq<char>
    decreases n,
{
    if n < 16 {
        seq![digit(n as int)]
    } else {
        hexadecimal(n / 16).push(digit((n % 16) as int))
    }
}

/// `s` with zeros before it, up to `width` characters.
pub open spec fn zero_padded(s: Seq<char>, width: nat) -> Seq<char> {
    if s.len() < width {
        Seq::new((width - s.len()) as nat, |i: int| '0') + s
    } else {
        s
    }
}

/// The characters of `n` in hexadecimal.
pub fn to_hexadecimal(n: u64) -> (r: Vec<char>)
    ensures
        r@ == hexadecimal(n as nat),
    decreases n,
{
    if n < 16 {
        let mut r: Vec<char> = Vec::new();
        r.push(digit_char(n as u8));
        proof {
            assert(r@ =~= hexadecimal(n as nat));
        }
        r
    } else {
        let mut r = to_hexadecimal(n / 16);
        r.push(digit_char((n % 16) as u8));
        r
    }
}

/// Appends `n` in hexadecimal, with zeros before it up to `width`
/// characters.
pub fn push_hexadecimal(out: &mut String, n: u64, width: usize)
    ensures
        final(out)@ == old(out)@ + zero_padded(hexadecimal(n as nat), width as nat),
{
    let v = to_hexadecimal(n);
    let mut pad: usize = if v.len() < width {
        width - v.len()
    } else {
        0
    };
    let ghost total = pad;
    proof {
        assert(out@ =~= old(out)@ + Seq::new(0, |i: int| '0'));
    }
    while pad > 0
        invariant
            pad <= total,
            out@ == old(out)@ + Seq::new((total - pad) as nat, |i: int| '0'),
        decreases pad,
    {
        out.push('0');
        pad -= 1;
        proof {
            assert(out@ =~= old(out)@ + Seq::new((total - pad) as nat, |i: int| '0'));
        }
    }
    let digits = text_of(&v, 0, v.len());
    out.append(digits.as_str());
    proof {
        assert(digits@ =~= v@);
        assert(out@ =~= old(out)@ + zero_padded(hexadecimal(n as nat), width as nat));
    }
}

/// The number that a run of decimal digits stands for.
pub open spec fn decimal_value(s: Seq<char>) -> nat
    decreases s.len(),
{
    if s.len() == 0 {
        0
    } else {
        10 * decimal_value(s.drop_last()) + (s.last() as nat - 48) as nat
    }
}

/// `s` without a sign that it begins with.
pub open spec fn without_plus(s: Seq<char>) -> Seq<char> {
    if s.len() > 0 && s[0] == '+' {
        s.skip(1)
    } else {
        s
    }
}

/// Whether every character of `s` is a digit.
pub open spec fn all_digits(s: Seq<char>) -> bool {
    forall|i: int| 0 <= i < s.len() ==> #[trigger] is_digit(s[i])
}

/// The number no greater than `max` that `s` writes in decimal: digits, at
/// least one, after a plus sign that may be left out.
pub open spec fn parsed_decimal(s: Seq<char>, max: nat) -> Option<nat> {
    let t = without_plus(s);
    if t.len() > 0 && all_digits(t) && decimal_value(t) <= max {
        Some(decimal_value(t))
    } else {
        None
    }
}

/// A number is at least what its leading digits stand for.
pub proof fn lemma_decimal_value_prefix(s: Seq<char>, i: int)
    requires
        0 <= i <= s.len(),
    ensures
        decimal_value(s.take(i)) <= decimal_value(s),
    decreases s.len() - i,
{
    if i < s.len() {
        lemma_decimal_value_prefix(s, i + 1);
        assert(s.take(i + 1).drop_last() =~= s.take(i));
    } else {
        assert(s.take(i) =~= s);
    }
}

/// The number no greater than `max` that `s` writes in decimal.
pub fn parse_decimal(s: &str, max: u64) -> (r: Option<u64>)
    ensures
        match r {
            Some(n) => parsed_decimal(s@, max as nat) == Some(n as nat),
            None => parsed_decimal(s@, max as nat) is None,
        },
{
    let v = chars_of(s);
    let from: usize = if v.len() > 0 && v[0] == '+' {
        1
    } else {
        0
    };
    let ghost t = without_plus(s@);
    proof {
        assert(t =~= v@.skip(from as int));
    }
    if from == v.len() {
        return None;
    }
    let mut n: u64 = 0;
    let mut i: usize = from;
    proof {
        assert(t.take(0) =~= seq![]);
    }
    while i < v.len()
        invariant
            from <= i <= v@.len(),
            from <= 1,
            t == v@.skip(from as int),
            t == without_plus(s@),
            n <= max,
            n == decimal_value(t.take(i - from)),
            forall|j: int| 0 <= j < i - from ==> #[trigger] is_digit(t[j]),
        decreases v@.len() - i,
    {
        let c = v[i];
        proof {
            assert(t[i - from] == c);
            assert(t.take(i - from + 1).drop_last() =~= t.take(i - from));
            lemma_decimal_value_prefix(t, i - from + 1);
        }
        if c < '0' || c > '9' {
            proof {
                assert(!is_digit(t[i - from]));
            }
            return None;
        }
        let b: u8 = c as u8;
        let d: u64 = (b - 48) as u64;
        if n > max / 10 {
            return None;
        }
        let m: u64 = n * 10;
        if d > max - m {
            return None;
        }
        n = m + d;
        i += 1;
    }
    proof {
        assert(t.take(t.len() as int) =~= t);
    }
    Some(n)
}

/// What `decimal` writes, `parsed_decimal` reads back.
pub proof fn lemma_decimal_round_trip(n: nat, max: nat)
    requires
        n <= max,
    ensures
        parsed_decimal(decimal(n), max) == Some(n),
        all_digits(decimal(n)),
        decimal(n).len() > 0,
        decimal_value(decimal(n)) == n,
    decreases n,
{
    lemma_digit((n % 10) as int);
    if n >= 10 {
        lemma_decimal_round_trip(n / 10, max);
        let d = decimal(n);
        assert(d.drop_last() =~= decimal(n / 10));
        assert forall|i: int| 0 <= i < d.len() implies #[trigger] is_digit(d[i]) by {
            if i < d.len() - 1 {
                assert(d[i] == decimal(n / 10)[i]);
            }
        }
        assert(is_digit(d[0]));
        assert(without_plus(d) == d);
    } else {
        assert(decimal(n).drop_last() =~= seq![]);
        assert(decimal_value(seq![]) == 0);
        assert(is_digit(decimal(n)[0]));
        assert(without_plus(decimal(n)) == decimal(n));
    }
}

/// Where `p` last occurs in `s`.
pub open spec fn rfind_sub<A>(s: Seq<A>, p: Seq<A>) -> Option<int>
    decreases s.len(),
{
    if ends(s, p) {
        Some(s.len() - p.len())
    } else if s.len() == 0 {
        None
    } else {
        rfind_sub(s.drop_last(), p)
    }
}

/// Where the characters of `p` last occur in the characters `from..to` of
/// `v`, as an index into `v`.
pub fn rfind_chars(v: &[char], from: usize, to: usize, p: &[char]) -> (r: Option<usize>)
    requires
        from <= to <= v@.len(),
    ensures
        match r {
            Some(i) => from <= i && i + p@.len() <= to && rfind_sub(
                v@.subrange(from as int, to as int),
                p@,
            ) == Some(i - from),
            None => rfind_sub(v@.subrange(from as int, to as int), p@) is None,
        },
{
    let mut end: usize = to;
    loop
        invariant
            from <= end <= to <= v@.len(),
            rfind_sub(v@.subrange(from as int, end as int), p@) == rfind_sub(
                v@.subrange(from as int, to as int),
                p@,
            ),
        decreases end,
    {
        let ghost piece = v@.subrange(from as int, end as int);
        if p.len() <= end - from {
            let at: usize = end - p.len();
            proof {
                assert(v@.skip(at as int).take(p@.len() as int) =~= piece.skip(
                    piece.len() - p@.len(),
                ));
            }
            if matches_at(v, at, p) {
                return Some(at);
            }
        }
        if end == from {
            return None;
        }
        proof {
            assert(piece.drop_last() =~= v@.subrange(from as int, end - 1));
        }
        end -= 1;
    }
}

/// The last index of `c` in `s`, or -1.
pub open spec fn last_index_of<A>(s: Seq<A>, c: A) -> int
    decreases s.len(),
{
    if s.len() == 0 {
        -1
    } else if s.last() == c {
        s.len() - 1
    } else {
        last_index_of(s.drop_last(), c)
    }
}

/// The last index is an index into `s` that holds `c`.
pub proof fn lemma_last_index_of<A>(s: Seq<A>, c: A)
    ensures
        -1 <= last_index_of(s, c) < s.len(),
        last_index_of(s, c) >= 0 ==> s[last_index_of(s, c)] == c,
        forall|j: int| last_index_of(s, c) < j < s.len() ==> s[j] != c,
    decreases s.len(),
{
    if s.len() > 0 && s.last() != c {
        lemma_last_index_of(s.drop_last(), c);
        assert forall|j: int| last_index_of(s, c) < j < s.len() implies s[j] != c by {
            if j < s.len() - 1 {
                assert(s.drop_last()[j] == s[j]);
            }
        }
    }
}

/// What follows the last `c` of `s`, if there is one.
pub open spec fn after_last(s: Seq<char>, c: char) -> Option<Seq<char>> {
    let i = last_index_of(s, c);
    if i >= 0 {
        Some(s.skip(i + 1))
    } else {
        None
    }
}

/// What follows the last `c` of `s`, if there is one.
pub fn tail_after(s: &str, c: char) -> (r: Option<String>)
    ensures
        match r {
            Some(t) => after_last(s@, c) == Some(t@),
            None => after_last(s@, c) is None,
        },
{
    let v = chars_of(s);
    let mut i: usize = v.len();
    proof {
        assert(v@.take(v@.len() as int) =~= v@);
    }
    while i > 0
        invariant
            v@ == s@,
            i <= v@.len(),
            last_index_of(v@.take(i as int), c) == last_index_of(s@, c),
        decreases i,
    {
        proof {
            assert(v@.take(i as int).drop_last() =~= v@.take(i - 1));
        }
        if v[i - 1] == c {
            let t = text_of(&v, i, v.len());
            proof {
                assert(t@ =~= s@.skip(i as int));
            }
            return Some(t);
        }
        i -= 1;
    }
    None
}

/// Whether two texts differ in the case of ASCII letters at most.
pub fn same_ignoring_case(a: &str, b: &str) -> (r: bool)
    ensures
        r == (lowered(a@) == lowered(b@)),
{
    let x = lowercase(a);
    let y = lowercase(b);
    x == y
}

/// The number that a run of hexadecimal digits stands for.
pub open spec fn hexadecimal_value(s: Seq<char>) -> nat
    decreases s.len(),
{
    if s.len() == 0 {
        0
    } else {
        16 * hexadecimal_value(s.drop_last()) + (digit_value(s.last())->0) as nat
    }
}

/// Whether every character of `s` is a hexadecimal digit.
pub open spec fn all_hexadecimal(s: Seq<char>) -> bool {
    forall|i: int| 0 <= i < s.len() ==> #[trigger] digit_value(s[i]) is Some
}

/// The number that `s` writes in hexadecimal: digits, at least one, after a
/// plus sign that may be left out.
pub open spec fn parsed_hexadecimal(s: Seq<char>) -> Option<nat> {
    let t = without_plus(s);
    if t.len() > 0 && all_hexadecimal(t) {
        Some(hexadecimal_value(t))
    } else {
        None
    }
}

/// The number that at most four characters write in hexadecimal.
pub fn parse_hexadecimal(v: &[char], from: usize, to: usize) -> (r: Option<u32>)
    requires
        from <= to <= v@.len(),
        to - from <= 4,
    ensures
        match r {
            Some(n) => parsed_hexadecimal(v@.subrange(from as int, to as int)) == Some(n as nat)
                && n <= 0xffff,
            None => parsed_hexadecimal(v@.subrange(from as int, to as int)) is None,
        },
{
    let start: usize = if from < to && v[from] == '+' {
        from + 1
    } else {
        from
    };
    let ghost t = without_plus(v@.subrange(from as int, to as int));
    proof {
        assert(t =~= v@.subrange(start as int, to as int));
    }
    if start == to {
        return None;
    }
    let mut n: u32 = 0;
    let mut i: usize = start;
    proof {
        assert(t.take(0) =~= seq![]);
    }
    while i < to
        invariant
            from <= start <= i <= to <= v@.len(),
            to - from <= 4,
            t == v@.subrange(start as int, to as int),
            t == without_plus(v@.subrange(from as int, to as int)),
            n == hexadecimal_value(t.take(i - start)),
            i - start == 0 ==> n == 0,
            i - start == 1 ==> n <= 0xf,
            i - start == 2 ==> n <= 0xff,
            i - start == 3 ==> n <= 0xfff,
            i - start == 4 ==> n <= 0xffff,
            forall|j: int| 0 <= j < i - start ==> #[trigger] digit_value(t[j]) is Some,
        decreases to - i,
    {
        proof {
            assert(t[i - start] == v@[i as int]);
            assert(t.take(i - start + 1).drop_last() =~= t.take(i - start));
        }
        match value_of(v[i]) {
            Some(d) => {
                n = n * 16 + (d as u32);
            },
            None => {
                return None;
            },
        }
        i += 1;
    }
    proof {
        assert(t.take(t.len() as int) =~= t);
    }
    Some(n)
}

/// The value of a number padded to four hexadecimal digits is the number.
pub proof fn lemma_four_hexadecimal_digits(n: nat)
    requires
        n <= 0xffff,
    ensures
        zero_padded(hexadecimal(n), 4).len() == 4,
        parsed_hexadecimal(zero_padded(hexadecimal(n), 4)) == Some(n),
        forall|i: int| 0 <= i < 4 ==> is_alphanumeric(#[trigger] zero_padded(hexadecimal(n), 4)[i]),
{
    let s = zero_padded(hexadecimal(n), 4);
    let d0 = (n / 4096) as int;
    let d1 = (n / 256 % 16) as int;
    let d2 = (n / 16 % 16) as int;
    let d3 = (n % 16) as int;
    lemma_digit(d0);
    lemma_digit(d1);
    lemma_digit(d2);
    lemma_digit(d3);
    lemma_digit(0);
    reveal_with_fuel(hexadecimal, 5);
    assert(n / 16 / 16 == n / 256);
    assert(n / 256 / 16 == n / 4096);
    let want = seq![digit(d0), digit(d1), digit(d2), digit(d3)];
    assert(s =~= want) by {
        if n < 16 {
            assert(hexadecimal(n) =~= seq![digit(d3)]);
        } else if n < 256 {
            assert(hexadecimal(n) =~= seq![digit(d2), digit(d3)]);
        } else if n < 4096 {
            assert(hexadecimal(n) =~= seq![digit(d1), digit(d2), digit(d3)]);
        } else {
            assert(hexadecimal(n) =~= want);
        }
    }
    assert(without_plus(s) == s);
    reveal_with_fuel(hexadecimal_value, 5);
    assert(want.drop_last() =~= seq![digit(d0), digit(d1), digit(d2)]);
    assert(want.drop_last().drop_last() =~= seq![digit(d0), digit(d1)]);
    assert(want.drop_last().drop_last().drop_last() =~= seq![digit(d0)]);
    assert(want.drop_last().drop_last().drop_last().drop_last() =~= seq![]);
}

/// The pieces that are not empty.
pub open spec fn nonempty(parts: Seq<Seq<char>>) -> Seq<Seq<char>> {
    crate::seqs::kept(
        parts,
        |p: Seq<char>|
            if p.len() > 0 {
                Some(p)
            } else {
                None
            },
    )
}

/// The pieces of `s` between occurrences of `c` that are not empty.
pub fn split_nonempty(s: &str, c: char) -> (r: Vec<String>)
    ensures
        texts(r@) == nonempty(split_on(s@, c)),
{
    let parts = split(s, c);
    drop_empty(&parts)
}

/// Splitting at the first separator takes the first piece off.
pub proof fn lemma_split_front<A>(a: Seq<A>, c: A, rest: Seq<A>)
    requires
        !a.contains(c),
    ensures
        split_on(a + seq![c] + rest, c) == seq![a] + split_on(rest, c),
        split_on(a, c) == seq![a],
{
    let s = a + seq![c] + rest;
    assert forall|j: int| 0 <= j < a.len() implies s[j] != c by {
        assert(s[j] == a[j]);
        assert(a.contains(a[j]));
    }
    lemma_index_of_is(s, c, a.len() as int);
    assert(s.take(a.len() as int) =~= a);
    assert(s.skip(1 + a.len() as int) =~= rest);
    assert forall|j: int| 0 <= j < a.len() implies a[j] != c by {
        assert(a.contains(a[j]));
    }
    lemma_index_of_is(a, c, a.len() as int);
}

/// Joining from the front: the first piece, the separator, the rest.
pub proof fn lemma_joined_front(parts: Seq<Seq<char>>, sep: Seq<char>)
    requires
        parts.len() > 1,
    ensures
        joined(parts, sep) == parts[0] + sep + joined(parts.skip(1), sep),
    decreases parts.len(),
{
    let tail = parts.skip(1);
    if parts.len() == 2 {
        assert(parts.drop_last() =~= seq![parts[0]]);
        assert(tail =~= seq![parts[1]]);
        assert(joined(seq![parts[0]], sep) == parts[0]);
        assert(joined(seq![parts[1]], sep) == parts[1]);
        assert(joined(parts, sep) =~= parts[0] + sep + joined(tail, sep));
    } else {
        lemma_joined_front(parts.drop_last(), sep);
        assert(parts.drop_last().skip(1) =~= tail.drop_last());
        assert(joined(parts, sep) =~= parts[0] + sep + joined(tail, sep));
    }
}

/// Pieces without the separator come apart again where they were joined.
pub proof fn law_split_undoes_join(parts: Seq<Seq<char>>, c: char)
    requires
        parts.len() > 0,
        forall|i: int| 0 <= i < parts.len() ==> !(#[trigger] parts[i]).contains(c),
    ensures
        split_on(joined(parts, seq![c]), c) == parts,
    decreases parts.len(),
{
    assert(!parts[0].contains(c));
    if parts.len() == 1 {
        lemma_split_front(parts[0], c, seq![]);
        assert(seq![parts[0]] =~= parts);
    } else {
        let tail = parts.skip(1);
        assert forall|i: int| 0 <= i < tail.len() implies !(#[trigger] tail[i]).contains(c) by {
            assert(tail[i] == parts[i + 1]);
        }
        law_split_undoes_join(tail, c);
        lemma_joined_front(parts, seq![c]);
        lemma_split_front(parts[0], c, joined(tail, seq![c]));
        assert(seq![parts[0]] + tail =~= parts);
    }
}

/// The text of a string that may be absent.
pub open spec fn opt_text(o: Option<String>) -> Option<Seq<char>> {
    match o {
        Some(s) => Some(s@),
        None => None,
    }
}

/// A copy of a string that may be absent.
pub fn opt_clone(o: &Option<String>) -> (r: Option<String>)
    ensures
        opt_text(r) == opt_text(*o),
{
    match o {
        Some(s) => Some(s.clone()),
        None => None,
    }
}

/// The texts of a sequence of pairs of strings.
pub open spec fn pairs(v: Seq<(String, String)>) -> Seq<(Seq<char>, Seq<char>)> {
    v.map_values(|p: (String, String)| (p.0@, p.1@))
}

/// Appends a pair of texts.
pub fn push_pair(v: &mut Vec<(String, String)>, key: &str, value: &str)
    ensures
        pairs(final(v)@) == pairs(old(v)@).push((key@, value@)),
{
    let k = key.to_owned();
    let w = value.to_owned();
    v.push((k, w));
    proof {
        assert(pairs(v@) =~= pairs(old(v)@).push((key@, value@)));
    }
}

/// `relative` below the directory `base`, as a path: an absolute path stands
/// for itself, and one separator stands between the two.
pub open spec fn under(base: Seq<char>, relative: Seq<char>) -> Seq<char> {
    if relative.len() > 0 && relative[0] == '/' {
        relative
    } else if base.len() == 0 || base.last() == '/' {
        base + relative
    } else {
        base.push('/') + relative
    }
}

/// `relative` below the directory `base`, as a path.
pub fn join_path(base: &str, relative: &str) -> (r: String)
    ensures
        r@ == under(base@, relative@),
{
    let b = chars_of(base);
    let v = chars_of(relative);
    if v.len() > 0 && v[0] == '/' {
        return relative.to_owned();
    }
    let mut r = base.to_owned();
    if b.len() > 0 && b[b.len() - 1] != '/' {
        r.push('/');
    }
    r.append(relative);
    r
}

/// The lines of `s` that are not empty.
pub fn lines_nonempty(s: &str) -> (r: Vec<String>)
    ensures
        texts(r@) == nonempty(lines_of(s@)),
{
    let parts = lines(s);
    drop_empty(&parts)
}

/// Those of `parts` that are not empty.
pub fn drop_empty(parts: &Vec<String>) -> (r: Vec<String>)
    ensures
        texts(r@) == nonempty(texts(parts@)),
{
    let mut r: Vec<String> = Vec::new();
    let mut i: usize = 0;
    let ghost all = texts(parts@);
    let ghost f = |p: Seq<char>|
        if p.len() > 0 {
            Some(p)
        } else {
            None
        };
    proof {
        assert(crate::seqs::kept(all.take(0), f) =~= seq![]);
    }
    while i < parts.len()
        invariant
            i <= parts@.len(),
            all == texts(parts@),
            f == |p: Seq<char>|
                if p.len() > 0 {
                    Some(p)
                } else {
                    None
                },
            texts(r@) == crate::seqs::kept(all.take(i as int), f),
        decreases parts@.len() - i,
    {
        proof {
            crate::seqs::lemma_kept_step(all, f, i as int);
        }
        if !parts[i].as_str().is_empty() {
            let ghost before = texts(r@);
            let piece = parts[i].clone();
            r.push(piece);
            proof {
                assert(texts(r@) =~= before.push(piece@));
            }
        }
        i += 1;
    }
    proof {
        assert(all.take(all.len() as int) =~= all);
    }
    r
}

/// The texts trimmed, those left out that are blank.
pub open spec fn trimmed_nonempty(v: Seq<Seq<char>>) -> Seq<Seq<char>> {
    kept(
        v,
        |s: Seq<char>|
            if trimmed(s).len() > 0 {
                Some(trimmed(s))
            } else {
                None
            },
    )
}

/// The texts trimmed, those left out that are blank.
pub fn trim_nonempty(v: &Vec<String>) -> (r: Vec<String>)
    ensures
        texts(r@) == trimmed_nonempty(texts(v@)),
{
    let ghost all = texts(v@);
    let ghost f = |s: Seq<char>|
        if trimmed(s).len() > 0 {
            Some(trimmed(s))
        } else {
            None
        };
    let mut r: Vec<String> = Vec::new();
    let mut i: usize = 0;
    proof {
        assert(texts(r@) =~= kept(all.take(0), f));
    }
    while i < v.len()
        invariant
            i <= v@.len(),
            all == texts(v@),
            f == |s: Seq<char>|
                if trimmed(s).len() > 0 {
                    Some(trimmed(s))
                } else {
                    None
                },
            texts(r@) == kept(all.take(i as int), f),
        decreases v@.len() - i,
    {
        proof {
            lemma_kept_step(all, f, i as int);
            assert(all[i as int] == v@[i as int]@);
        }
        let s = trim(v[i].as_str());
        if !s.as_str().is_empty() {
            let ghost prior = texts(r@);
            r.push(s);
            proof {
                assert(texts(r@) =~= prior.push(s@));
            }
        }
        i += 1;
    }
    proof {
        assert(all.take(all.len() as int) =~= all);
    }
    r
}

/// How many bytes a character takes in UTF-8.
pub open spec fn width(c: char) -> nat {
    if (c as u32) < 0x80 {
        1
    } else if (c as u32) < 0x800 {
        2
    } else if (c as u32) < 0x10000 {
        3
    } else {
        4
    }
}

/// The text that the first `n` bytes of `s` hold: none where there are fewer,
/// or where they end within a character.
pub open spec fn cut_at(s: Seq<char>, n: int) -> Option<Seq<char>>
    decreases s.len(),
{
    if n == 0 {
        Some(Seq::empty())
    } else if n < 0 || s.len() == 0 {
        None
    } else {
        match cut_at(s.skip(1), n - width(s[0])) {
            Some(rest) => Some(seq![s[0]] + rest),
            None => None,
        }
    }
}

/// The text that the first `n` bytes of `s` hold, or all of it where they hold
/// none.
pub open spec fn short_of(s: Seq<char>, n: int) -> Seq<char> {
    match cut_at(s, n) {
        Some(front) => front,
        None => s,
    }
}

/// The text that the first `n` bytes of `s` hold, or all of it where there are
/// fewer, or where they end within a character.
pub fn shorten(s: &str, n: u32) -> (r: String)
    ensures
        r@ == short_of(s@, n as int),
{
    let v = chars_of(s);
    let mut i: usize = 0;
    let mut left: u32 = n;
    proof {
        assert(v@.skip(0) =~= v@);
        if cut_at(v@, n as int) is Some {
            assert(v@.take(0) + cut_at(v@, n as int)->0 =~= cut_at(v@, n as int)->0);
        }
    }
    while left > 0 && i < v.len()
        invariant
            i <= v@.len(),
            v@ == s@,
            match cut_at(v@.skip(i as int), left as int) {
                Some(rest) => cut_at(s@, n as int) == Some(v@.take(i as int) + rest),
                None => cut_at(s@, n as int) is None,
            },
        decreases v@.len() - i,
    {
        let c = v[i];
        let code: u32 = c as u32;
        let w: u32 = if code < 0x80 {
            1
        } else if code < 0x800 {
            2
        } else if code < 0x10000 {
            3
        } else {
            4
        };
        proof {
            let here = v@.skip(i as int);
            assert(here.skip(1) =~= v@.skip(i + 1));
            assert(here[0] == c);
            match cut_at(v@.skip(i + 1), left - w) {
                Some(rest) => {
                    assert(v@.take(i as int) + (seq![c] + rest) =~= v@.take(i + 1) + rest);
                },
                None => {},
            }
        }
        if w > left {
            return s.to_owned();
        }
        left = left - w;
        i += 1;
    }
    if left == 0 {
        proof {
            assert(v@.take(i as int) + Seq::<char>::empty() =~= v@.take(i as int));
        }
        text_of(v.as_slice(), 0, i)
    } else {
        s.to_owned()
    }
}

/// The last part of a path.
pub open spec fn base_name(path: Seq<char>) -> Seq<char> {
    match after_last(path, '/') {
        Some(name) => name,
        None => path,
    }
}

/// The last part of a path.
pub fn file_name(path: &str) -> (r: String)
    ensures
        r@ == base_name(path@),
{
    match tail_after(path, '/') {
        Some(name) => name,
        None => path.to_owned(),
    }
}

/// What comes before the last `c` of `s`, none where there is no such
/// character.
pub open spec fn before_last(s: Seq<char>, c: char) -> Option<Seq<char>> {
    let i = last_index_of(s, c);
    if 0 <= i < s.len() {
        Some(s.take(i))
    } else {
        None
    }
}

/// What comes before the last `c` of `s`.
pub fn head_before(s: &str, c: char) -> (r: Option<String>)
    ensures
        opt_text(r) == before_last(s@, c),
{
    let v = chars_of(s);
    let mut i: usize = v.len();
    proof {
        assert(v@.take(v@.len() as int) =~= v@);
    }
    while i > 0
        invariant
            v@ == s@,
            i <= v@.len(),
            last_index_of(v@.take(i as int), c) == last_index_of(s@, c),
        decreases i,
    {
        proof {
            assert(v@.take(i as int).drop_last() =~= v@.take(i - 1));
        }
        if v[i - 1] == c {
            let t = text_of(&v, 0, i - 1);
            proof {
                assert(t@ =~= s@.take(i - 1));
            }
            return Some(t);
        }
        i -= 1;
    }
    None
}

/// Whether a text is a word: something, and no white space in it.
pub open spec fn is_word(s: Seq<char>) -> bool {
    s.len() > 0 && forall|i: int| 0 <= i < s.len() ==> !is_white(#[trigger] s[i])
}

proof fn lemma_white_at_is(s: Seq<char>, n: int)
    requires
        0 <= n <= s.len(),
        forall|i: int| 0 <= i < n ==> !is_white(#[trigger] s[i]),
        n < s.len() ==> is_white(s[n]),
    ensures
        white_at(s) == n,
{
    lemma_white_at(s);
    if white_at(s) < n {
        assert(!is_white(s[white_at(s)]));
    }
    if n < white_at(s) {
        assert(!is_white(s[n]));
    }
}

/// A word and the white space after it are the first field and nothing else.
pub proof fn lemma_fields_front(word: Seq<char>, c: char, rest: Seq<char>)
    requires
        is_word(word),
        is_white(c),
    ensures
        fields_of(word + seq![c] + rest) == seq![word] + fields_of(rest),
        fields_of(word) == seq![word],
{
    let s = word + seq![c] + rest;
    let n = word.len() as int;
    assert(s[0] == word[0]);
    assert forall|i: int| 0 <= i < n implies !is_white(#[trigger] s[i]) by {
        assert(s[i] == word[i]);
    }
    assert(s[n] == c);
    lemma_white_at_is(s, n);
    assert(s.take(n) =~= word);
    let after = s.skip(n);
    assert(after[0] == c);
    assert(after.skip(1) =~= rest);
    assert(trimmed_start(after) == trimmed_start(rest));
    lemma_trimmed_start(rest);
    assert(fields_of(after) == fields_of(rest)) by {
        let t = trimmed_start(rest);
        lemma_white_at(t);
    }
    assert(fields_of(s) =~= seq![word] + fields_of(rest));
    lemma_white_at_is(word, n);
    assert(word.take(n) =~= word);
    assert(word.skip(n) =~= seq![]);
    assert(fields_of(word.skip(n)) =~= seq![]);
    assert(fields_of(word) =~= seq![word]);
}

/// Law: words with single spaces between them are the fields of the text.
pub proof fn law_fields_undo_join(words: Seq<Seq<char>>)
    requires
        words.len() > 0,
        forall|i: int| 0 <= i < words.len() ==> is_word(#[trigger] words[i]),
    ensures
        fields_of(joined(words, " "@)) == words,
    decreases words.len(),
{
    reveal_strlit(" ");
    assert(" "@ =~= seq![' ']);
    assert(is_word(words[0]));
    if words.len() == 1 {
        lemma_fields_front(words[0], ' ', seq![]);
        assert(words.drop_last() =~= seq![]);
        assert(joined(words, " "@) =~= words[0]);
        assert(words =~= seq![words[0]]);
    } else {
        let tail = words.skip(1);
        assert forall|i: int| 0 <= i < tail.len() implies is_word(#[trigger] tail[i]) by {
            assert(tail[i] == words[i + 1]);
        }
        law_fields_undo_join(tail);
        lemma_joined_front(words, " "@);
        lemma_fields_front(words[0], ' ', joined(tail, " "@));
        assert(seq![words[0]] + tail =~= words);
    }
}

/// Nothing is left to strip where a text ends in something else, and all that
/// follows it is stripped.
pub proof fn lemma_stripped_end<A>(s: Seq<A>, c: A, n: nat)
    requires
        s.len() == 0 || s.last() != c,
    ensures
        stripped_end(s + Seq::new(n, |i: int| c), c) == s,
    decreases n,
{
    let t = s + Seq::new(n, |i: int| c);
    if n == 0 {
        assert(t =~= s);
    } else {
        lemma_stripped_end(s, c, (n - 1) as nat);
        assert(t.last() == c);
        assert(t.drop_last() =~= s + Seq::new((n - 1) as nat, |i: int| c));
    }
}

/// Stripping keeps everything up to the last character that is not stripped.
pub proof fn lemma_stripped_end_keeps<A>(s: Seq<A>, c: A, i: int)
    requires
        0 <= i < s.len(),
        s[i] != c,
    ensures
        i < stripped_end(s, c).len() <= s.len(),
        stripped_end(s, c) == s.take(stripped_end(s, c).len() as int),
    decreases s.len(),
{
    if s.last() == c {
        let t = s.drop_last();
        lemma_stripped_end_keeps(t, c, i);
        let n = stripped_end(t, c).len() as int;
        assert(t.take(n) =~= s.take(n));
    } else {
        assert(s.take(s.len() as int) =~= s);
    }
}

/// Trimming keeps everything up to the last character that is not white space.
pub proof fn lemma_trimmed_end_keeps(s: Seq<char>, i: int)
    requires
        0 <= i < s.len(),
        !is_white(s[i]),
    ensures
        i < trimmed_end(s).len() <= s.len(),
        trimmed_end(s) == s.take(trimmed_end(s).len() as int),
    decreases s.len(),
{
    if is_white(s.last()) {
        let t = s.drop_last();
        lemma_trimmed_end_keeps(t, i);
        let n = trimmed_end(t).len() as int;
        assert(t.take(n) =~= s.take(n));
    } else {
        assert(s.take(s.len() as int) =~= s);
    }
}

/// A text takes at most four bytes for each character.
pub proof fn lemma_encoded_size(s: Seq<char>)
    ensures
        encode_utf8(s).len() <= 4 * s.len(),
    decreases s.len(),
{
    if s.len() > 0 {
        lemma_encoded_size(s.drop_first());
    }
}

/// Texts in a row are encoded one after the other.
pub proof fn lemma_encoded_concat(a: Seq<char>, b: Seq<char>)
    ensures
        encode_utf8(a + b) == encode_utf8(a) + encode_utf8(b),
    decreases a.len(),
{
    if a.len() == 0 {
        assert(a + b =~= b);
        assert(encode_utf8(a) + encode_utf8(b) =~= encode_utf8(b));
    } else {
        lemma_encoded_concat(a.drop_first(), b);
        assert((a + b).drop_first() =~= a.drop_first() + b);
        assert(encode_utf8(a + b) =~= encode_utf8(a) + encode_utf8(b));
    }
}

/// A line and its newline are the first line and nothing else.
pub proof fn lemma_lines_front(line: Seq<char>, rest: Seq<char>)
    requires
        !line.contains('\n'),
        line.len() == 0 || line.last() != '\r',
    ensures
        lines_of(line + seq!['\n'] + rest) == seq![line] + lines_of(rest),
{
    let s = line + seq!['\n'] + rest;
    assert forall|j: int| 0 <= j < line.len() implies s[j] != '\n' by {
        assert(s[j] == line[j]);
        assert(line.contains(line[j]));
    }
    lemma_index_of_is(s, '\n', line.len() as int);
    assert(s.take(line.len() as int) =~= line);
    assert(s.skip(1 + line.len() as int) =~= rest);
}

/// Law: texts that are ended by a newline each are the lines of the whole.
pub proof fn law_lines_undo_ending(lines: Seq<Seq<char>>)
    requires
        forall|i: int|
            0 <= i < lines.len() ==> !(#[trigger] lines[i]).contains('\n') && (lines[i].len() == 0
                || lines[i].last() != '\r'),
    ensures
        lines_of(lines.map_values(|line: Seq<char>| line.push('\n')).flatten()) == lines,
    decreases lines.len(),
{
    let ended = lines.map_values(|line: Seq<char>| line.push('\n'));
    if lines.len() == 0 {
        assert(ended =~= seq![]);
        assert(lines_of(ended.flatten()) =~= lines);
    } else {
        let tail = lines.skip(1);
        assert forall|i: int| 0 <= i < tail.len() implies !(#[trigger] tail[i]).contains('\n') && (
        tail[i].len() == 0 || tail[i].last() != '\r') by {
            assert(tail[i] == lines[i + 1]);
        }
        law_lines_undo_ending(tail);
        assert(!lines[0].contains('\n'));
        let rest = tail.map_values(|line: Seq<char>| line.push('\n')).flatten();
        lemma_lines_front(lines[0], rest);
        assert(ended.drop_first() =~= tail.map_values(|line: Seq<char>| line.push('\n')));
        assert(ended.first() == lines[0].push('\n'));
        assert(ended.flatten() =~= lines[0] + seq!['\n'] + rest);
        assert(seq![lines[0]] + tail =~= lines);
    }
}

/// Splitting leaves what follows the last separator as the last piece.
pub proof fn lemma_split_back<A>(front: Seq<A>, c: A, last: Seq<A>)
    requires
        !last.contains(c),
    ensures
        split_on(front + seq![c] + last, c) == split_on(front, c) + seq![last],
        split_on(front, c).len() > 0,
    decreases front.len(),
{
    let s = front + seq![c] + last;
    lemma_index_of(front, c);
    let i = index_of(front, c);
    if i < front.len() {
        let rest = front.skip(i + 1);
        lemma_split_back(rest, c, last);
        assert(front =~= front.take(i) + seq![c] + rest);
        assert(s =~= front.take(i) + seq![c] + (rest + seq![c] + last));
        assert(!front.take(i).contains(c)) by {
            assert forall|j: int| 0 <= j < i implies front.take(i)[j] != c by {
                assert(front.take(i)[j] == front[j]);
            }
        }
        lemma_split_front(front.take(i), c, rest + seq![c] + last);
        lemma_split_front(front.take(i), c, rest);
        assert(seq![front.take(i)] + (split_on(rest, c) + seq![last]) =~= (seq![front.take(i)]
            + split_on(rest, c)) + seq![last]);
    } else {
        assert(!front.contains(c)) by {
            assert forall|j: int| 0 <= j < front.len() implies front[j] != c by {}
        }
        lemma_split_front(front, c, last);
        lemma_split_front(last, c, seq![]);
    }
}

/// An index with the property of `last_index_of` is it.
pub proof fn lemma_last_index_of_is<A>(s: Seq<A>, c: A, i: int)
    requires
        0 <= i < s.len(),
        s[i] == c,
        forall|j: int| i < j < s.len() ==> s[j] != c,
    ensures
        last_index_of(s, c) == i,
{
    lemma_last_index_of(s, c);
    let k = last_index_of(s, c);
    if k < i {
        assert(s[i] != c);
    }
}

/// Splitting what stands before and what stands after a separator is splitting
/// the whole.
pub proof fn lemma_split_concat<A>(a: Seq<A>, c: A, b: Seq<A>)
    ensures
        split_on(a + seq![c] + b, c) == split_on(a, c) + split_on(b, c),
        split_on(a, c).len() > 0,
    decreases a.len(),
{
    let s = a + seq![c] + b;
    lemma_index_of(a, c);
    let i = index_of(a, c);
    if i < a.len() {
        let rest = a.skip(i + 1);
        lemma_split_concat(rest, c, b);
        assert(a =~= a.take(i) + seq![c] + rest);
        assert(s =~= a.take(i) + seq![c] + (rest + seq![c] + b));
        assert(!a.take(i).contains(c)) by {
            assert forall|j: int| 0 <= j < i implies a.take(i)[j] != c by {
                assert(a.take(i)[j] == a[j]);
            }
        }
        lemma_split_front(a.take(i), c, rest + seq![c] + b);
        lemma_split_front(a.take(i), c, rest);
        assert(seq![a.take(i)] + (split_on(rest, c) + split_on(b, c)) =~= (seq![a.take(i)]
            + split_on(rest, c)) + split_on(b, c));
    } else {
        assert(!a.contains(c)) by {
            assert forall|j: int| 0 <= j < a.len() implies a[j] != c by {}
        }
        lemma_split_front(a, c, b);
    }
}

/// Law: the short form of a text in ASCII is its first characters, and all of it
/// where it is no longer than that.
pub proof fn law_short_form_is_the_beginning(s: Seq<char>, n: int)
    requires
        n >= 0,
        forall|i: int| 0 <= i < s.len() ==> ((#[trigger] s[i]) as u32) < 0x80,
    ensures
        n <= s.len() ==> short_of(s, n) == s.take(n),
        n > s.len() ==> short_of(s, n) == s,
{
    lemma_cut_ascii(s, n);
}

proof fn lemma_cut_ascii(s: Seq<char>, n: int)
    requires
        n >= 0,
        forall|i: int| 0 <= i < s.len() ==> ((#[trigger] s[i]) as u32) < 0x80,
    ensures
        n <= s.len() ==> cut_at(s, n) == Some(s.take(n)),
        n > s.len() ==> cut_at(s, n) is None,
    decreases s.len(),
{
    if n == 0 {
        assert(s.take(0) =~= Seq::empty());
    } else if s.len() > 0 {
        assert((s[0] as u32) < 0x80);
        assert(width(s[0]) == 1);
        assert forall|i: int| 0 <= i < s.skip(1).len() implies (
        (#[trigger] s.skip(1)[i]) as u32) < 0x80 by {
            assert(s.skip(1)[i] == s[i + 1]);
        }
        lemma_cut_ascii(s.skip(1), n - 1);
        if n <= s.len() {
            assert(seq![s[0]] + s.skip(1).take(n - 1) =~= s.take(n));
        }
    }
}

/// Lines that are ended come first of all lines.
pub proof fn lemma_lines_after(before: Seq<Seq<char>>, rest: Seq<char>)
    requires
        forall|i: int|
            0 <= i < before.len() ==> !(#[trigger] before[i]).contains('\n') && (before[i].len()
                == 0 || before[i].last() != '\r'),
    ensures
        lines_of(before.map_values(|line: Seq<char>| line.push('\n')).flatten() + rest) == before
            + lines_of(rest),
    decreases before.len(),
{
    let ended = before.map_values(|line: Seq<char>| line.push('\n'));
    if before.len() == 0 {
        assert(ended =~= seq![]);
        assert(ended.flatten() + rest =~= rest);
        assert(before + lines_of(rest) =~= lines_of(rest));
    } else {
        let tail = before.skip(1);
        assert forall|i: int| 0 <= i < tail.len() implies !(#[trigger] tail[i]).contains('\n') && (
        tail[i].len() == 0 || tail[i].last() != '\r') by {
            assert(tail[i] == before[i + 1]);
        }
        lemma_lines_after(tail, rest);
        assert(!before[0].contains('\n'));
        let more = tail.map_values(|line: Seq<char>| line.push('\n')).flatten();
        lemma_lines_front(before[0], more + rest);
        assert(ended.drop_first() =~= tail.map_values(|line: Seq<char>| line.push('\n')));
        assert(ended.first() == before[0].push('\n'));
        assert(ended.flatten() + rest =~= before[0] + seq!['\n'] + (more + rest));
        assert(seq![before[0]] + (tail + lines_of(rest)) =~= before + lines_of(rest));
    }
}

/// The first place where `p` occurs is `find_sub`.
pub proof fn lemma_find_sub_is<A>(s: Seq<A>, p: Seq<A>, n: int)
    requires
        0 <= n <= s.len(),
        starts(s.skip(n), p),
        forall|j: int| 0 <= j < n ==> !#[trigger] starts(s.skip(j), p),
    ensures
        find_sub(s, p) == Some(n),
{
    lemma_find_sub(s, p);
    assert(holds(s, p));
}

} // verus!
