//! Random names: tokens, codes and ids that nobody can guess.

use vstd::prelude::*;

use crate::text::{digit, digit_char, lemma_digit};

verus! {

/// `getrandom::fill` fills a buffer of `n` bytes from the system's random
/// source, or fails. Which bytes come is left to chance.
#[verifier::external_body]
pub(crate) fn random_bytes(n: usize) -> (r: Option<Vec<u8>>)
    ensures
        r matches Some(bytes) ==> bytes@.len() == n,
{
    let mut bytes = vec![0u8; n];
    getrandom::fill(&mut bytes).ok()?;
    Some(bytes)
}

/// Whether `c` is a hexadecimal digit in lower case.
pub open spec fn lower_hexadecimal(c: char) -> bool {
    '0' <= c <= '9' || 'a' <= c <= 'f'
}

/// Whether `s` is a hyphenated UUID: digits in groups of eight, four, four,
/// four and twelve.
pub open spec fn hyphenated(s: Seq<char>) -> bool {
    &&& s.len() == 36
    &&& forall|i: int|
        0 <= i < 36 ==> if i == 8 || i == 13 || i == 18 || i == 23 {
            #[trigger] s[i] == '-'
        } else {
            lower_hexadecimal(s[i])
        }
}

/// `uuid::Uuid::new_v4` makes a random UUID, which `Display` writes with
/// hyphens and digits in lower case. Which one it is, is left to chance; it
/// panics where the system has no random source.
#[verifier::external_body]
pub(crate) fn random_uuid() -> (r: String)
    ensures
        hyphenated(r@),
{
    uuid::Uuid::new_v4().to_string()
}

/// `uuid::Uuid::simple` writes a random UUID as thirty-two digits in lower
/// case, without hyphens.
#[verifier::external_body]
pub(crate) fn random_simple_uuid() -> (r: String)
    ensures
        r@.len() == 32,
        forall|i: int| 0 <= i < 32 ==> lower_hexadecimal(#[trigger] r@[i]),
{
    uuid::Uuid::new_v4().simple().to_string()
}

/// Bytes as two hexadecimal digits each.
pub open spec fn hex_of(bytes: Seq<u8>) -> Seq<char>
    decreases bytes.len(),
{
    if bytes.len() == 0 {
        seq![]
    } else {
        hex_of(bytes.drop_last()).push(digit((bytes.last() / 16) as int)).push(
            digit((bytes.last() % 16) as int),
        )
    }
}

/// Bytes as two hexadecimal digits each.
pub fn to_hex(bytes: &[u8]) -> (r: String)
    ensures
        r@ == hex_of(bytes@),
{
    let mut out = String::new();
    let mut i: usize = 0;
    proof {
        assert(bytes@.take(0) =~= seq![]);
    }
    while i < bytes.len()
        invariant
            i <= bytes@.len(),
            out@ == hex_of(bytes@.take(i as int)),
        decreases bytes@.len() - i,
    {
        let b: u8 = bytes[i];
        out.push(digit_char(b / 16));
        out.push(digit_char(b % 16));
        proof {
            assert(bytes@.take(i + 1).drop_last() =~= bytes@.take(i as int));
            assert(bytes@.take(i + 1).last() == b);
        }
        i += 1;
    }
    proof {
        assert(bytes@.take(bytes@.len() as int) =~= bytes@);
    }
    out
}

/// Bytes written in hexadecimal are letters and digits, two for each byte.
pub proof fn law_hex_is_plain(bytes: Seq<u8>)
    ensures
        hex_of(bytes).len() == 2 * bytes.len(),
        forall|i: int| 0 <= i < hex_of(bytes).len() ==> lower_hexadecimal(#[trigger] hex_of(bytes)[i]),
    decreases bytes.len(),
{
    if bytes.len() > 0 {
        law_hex_is_plain(bytes.drop_last());
        lemma_digit((bytes.last() / 16) as int);
        lemma_digit((bytes.last() % 16) as int);
    }
}

/// The letters of a user code: no `0`, `O`, `1` or `I`, which are easily
/// taken for one another.
pub open spec fn code_letter(n: int) -> char {
    "ABCDEFGHJKLMNPQRSTUVWXYZ23456789"@[n]
}

/// A user code drawn from eight bytes: `XXXX-XXXX`.
pub open spec fn user_code(bytes: Seq<u8>) -> Seq<char> {
    Seq::new(
        9,
        |i: int|
            if i < 4 {
                code_letter((bytes[i] % 32) as int)
            } else if i == 4 {
                '-'
            } else {
                code_letter((bytes[i - 1] % 32) as int)
            },
    )
}

/// A user code drawn from eight bytes.
pub fn code_from(bytes: &[u8]) -> (r: String)
    requires
        bytes@.len() == 8,
    ensures
        r@ == user_code(bytes@),
{
    let alphabet = crate::text::chars_of("ABCDEFGHJKLMNPQRSTUVWXYZ23456789");
    proof {
        reveal_strlit("ABCDEFGHJKLMNPQRSTUVWXYZ23456789");
    }
    let mut code = String::new();
    let mut i: usize = 0;
    while i < 8
        invariant
            i <= 8,
            bytes@.len() == 8,
            alphabet@ == "ABCDEFGHJKLMNPQRSTUVWXYZ23456789"@,
            alphabet@.len() == 32,
            code@ == user_code(bytes@).take(
                if i <= 4 {
                    i as int
                } else {
                    i + 1
                },
            ),
        decreases 8 - i,
    {
        if i == 4 {
            code.push('-');
            proof {
                assert(code@ =~= user_code(bytes@).take(5));
            }
        }
        let b: u8 = bytes[i];
        let n: usize = (b % 32) as usize;
        code.push(alphabet[n]);
        i += 1;
        proof {
            assert(code@ =~= user_code(bytes@).take(
                if i <= 4 {
                    i as int
                } else {
                    i + 1
                },
            ));
        }
    }
    proof {
        assert(user_code(bytes@).take(9) =~= user_code(bytes@));
    }
    code
}

/// 32 random bytes as 64 hexadecimal digits, or nothing where the system has
/// no randomness to give.
pub fn random_hex() -> (r: Option<String>)
    ensures
        r matches Some(text) ==> exists|bytes: Seq<u8>|
            bytes.len() == 32 && text@ == #[trigger] hex_of(bytes),
{
    match random_bytes(32) {
        Some(bytes) => Some(to_hex(&bytes)),
        None => None,
    }
}

/// A random code that a human can read out, or nothing where the system has no
/// randomness to give.
pub fn random_user_code() -> (r: Option<String>)
    ensures
        r matches Some(text) ==> exists|bytes: Seq<u8>|
            bytes.len() == 8 && text@ == #[trigger] user_code(bytes),
{
    match random_bytes(8) {
        Some(bytes) => Some(code_from(&bytes)),
        None => None,
    }
}

/// Law: different bytes are written differently.
pub proof fn law_hex_tells_bytes_apart(a: Seq<u8>, b: Seq<u8>)
    requires
        hex_of(a) == hex_of(b),
    ensures
        a == b,
    decreases a.len(),
{
    law_hex_is_plain(a);
    law_hex_is_plain(b);
    if a.len() == 0 {
        assert(a =~= b);
    } else {
        let x = hex_of(a.drop_last());
        let y = hex_of(b.drop_last());
        let p = hex_of(a);
        assert(p == x.push(digit((a.last() / 16) as int)).push(digit((a.last() % 16) as int)));
        assert(p == y.push(digit((b.last() / 16) as int)).push(digit((b.last() % 16) as int)));
        assert(p.drop_last().drop_last() =~= x);
        assert(p.drop_last().drop_last() =~= y);
        assert(p[p.len() - 2] == digit((a.last() / 16) as int));
        assert(p[p.len() - 2] == digit((b.last() / 16) as int));
        assert(p[p.len() - 1] == digit((a.last() % 16) as int));
        assert(p[p.len() - 1] == digit((b.last() % 16) as int));
        lemma_digit((a.last() / 16) as int);
        lemma_digit((b.last() / 16) as int);
        lemma_digit((a.last() % 16) as int);
        lemma_digit((b.last() % 16) as int);
        assert(a.last() == b.last());
        law_hex_tells_bytes_apart(a.drop_last(), b.drop_last());
        assert(a =~= a.drop_last().push(a.last()));
        assert(b =~= b.drop_last().push(b.last()));
    }
}

/// Law: a code is four letters, a dash and four letters, each the letter of its
/// own byte.
pub proof fn law_code_is_a_letter_for_each_byte(bytes: Seq<u8>, i: int)
    requires
        bytes.len() == 8,
        0 <= i < 8,
    ensures
        user_code(bytes).len() == 9,
        user_code(bytes)[4] == '-',
        i < 4 ==> user_code(bytes)[i] == code_letter((bytes[i] % 32) as int),
        i >= 4 ==> user_code(bytes)[i + 1] == code_letter((bytes[i] % 32) as int),
        code_letter(0) == 'A',
        code_letter(23) == 'Z',
        code_letter(24) == '2',
        code_letter(31) == '9',
{
    reveal_strlit("ABCDEFGHJKLMNPQRSTUVWXYZ23456789");
}

} // verus!
