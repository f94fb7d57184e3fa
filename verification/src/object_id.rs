//! Object ids, the names git gives to what it stores.

use vstd::prelude::*;
use vstd::utf8::{encode_utf8, is_ascii_chars, is_ascii_chars_encode_utf8};

use crate::text::{digit_value, lower, same};

verus! {

/// The hexadecimal digits of an object id that `bytes` write, as git writes
/// them: forty digits of either case stand for the same id in lower case.
pub open spec fn hex_id(bytes: Seq<u8>) -> Option<Seq<char>> {
    if bytes.len() == 40 && forall|i: int|
        0 <= i < 40 ==> digit_value(#[trigger] bytes[i] as char) is Some {
        Some(bytes.map_values(|b: u8| lower(b as char)))
    } else {
        None
    }
}

/// `gix_hash::ObjectId::from_hex` reads an id from exactly forty hexadecimal
/// digits of either case and refuses everything else; the id's `Display`
/// writes them back in lower case.
#[verifier::external_body]
fn parse_id(bytes: &[u8]) -> (r: Option<String>)
    ensures
        match r {
            Some(hex) => hex_id(bytes@) == Some(hex@),
            None => hex_id(bytes@) is None,
        },
{
    gix_hash::ObjectId::from_hex(bytes).ok().map(|id| id.to_string())
}

/// The digits of the hash that git stores a blob under, or none where the hash
/// is refused as an attack on it.
pub uninterp spec fn blob_hash(data: Seq<u8>) -> Option<Seq<char>>;

/// `gix_object::compute_hash` for a SHA-1 blob, with the id's digits in lower
/// case. What the hash of given bytes is, is left unsaid.
#[verifier::external_body]
pub(crate) fn hash_blob(data: &[u8]) -> (r: Option<String>)
    ensures
        match r {
            Some(hex) => blob_hash(data@) == Some(hex@),
            None => blob_hash(data@) is None,
        },
{
    gix_object::compute_hash(gix_hash::Kind::Sha1, gix_object::Kind::Blob, data).ok().map(
        |id| id.to_hex().to_string(),
    )
}

/// The digits of the id that stands for no object.
pub open spec fn null_digits() -> Seq<char> {
    Seq::new(40, |i: int| '0')
}

/// The all-zero object id git uses for a created or deleted ref in a push
/// (`<old> <new> <ref>` lines): a zero `<old>` is a create, a zero `<new>` a
/// delete.
pub const ZERO_OID: &'static str = "0000000000000000000000000000000000000000";

/// An object's id. Its view is the forty digits git writes it with.
#[derive(Clone, Debug, PartialEq, Eq)]
pub struct ObjectId {
    hex: String,
}

impl View for ObjectId {
    type V = Seq<char>;

    closed spec fn view(&self) -> Seq<char> {
        self.hex@
    }
}

impl ObjectId {
    /// The id that `bytes` write in hexadecimal.
    pub fn from_hex(bytes: &[u8]) -> (r: Option<ObjectId>)
        ensures
            match r {
                Some(id) => hex_id(bytes@) == Some(id@),
                None => hex_id(bytes@) is None,
            },
    {
        match parse_id(bytes) {
            Some(hex) => Some(ObjectId { hex }),
            None => None,
        }
    }

    /// The id that stands for no object.
    pub fn null() -> (r: ObjectId)
        ensures
            r@ == null_digits(),
    {
        let hex = ZERO_OID.to_owned();
        proof {
            reveal_strlit("0000000000000000000000000000000000000000");
            assert(hex@ =~= null_digits());
        }
        ObjectId { hex }
    }

    /// Whether this is the id that stands for no object.
    pub fn is_null(&self) -> (r: bool)
        ensures
            r == (self@ == null_digits()),
    {
        let null = ObjectId::null();
        same(self.hex.as_str(), null.hex.as_str())
    }

    /// Whether two ids name the same object.
    pub fn same_as(&self, other: &ObjectId) -> (r: bool)
        ensures
            r == (self@ == other@),
    {
        same(self.hex.as_str(), other.hex.as_str())
    }

    /// The id's digits.
    pub fn as_str(&self) -> (r: &str)
        ensures
            r@ == self@,
    {
        self.hex.as_str()
    }

    /// A copy of the id.
    pub fn copy(&self) -> (r: ObjectId)
        ensures
            r@ == self@,
    {
        ObjectId { hex: self.hex.clone() }
    }
}

/// The views of a sequence of ids.
pub open spec fn digits(ids: Seq<ObjectId>) -> Seq<Seq<char>> {
    ids.map_values(|id: ObjectId| id@)
}

/// Reading an id takes no notice of the case of its digits.
pub proof fn law_hex_ignores_case(a: Seq<u8>, b: Seq<u8>)
    requires
        hex_id(a) is Some,
        b.len() == a.len(),
        forall|i: int| 0 <= i < a.len() ==> lower(#[trigger] b[i] as char) == lower(a[i] as char),
    ensures
        hex_id(b) == hex_id(a),
{
    assert forall|i: int| 0 <= i < 40 implies digit_value(#[trigger] b[i] as char) is Some by {
        assert(digit_value(a[i] as char) is Some);
        lemma_digit_case(a[i], b[i]);
    }
    assert(b.map_values(|c: u8| lower(c as char)) =~= a.map_values(|c: u8| lower(c as char)));
}

proof fn lemma_digit_case(a: u8, b: u8)
    requires
        digit_value(a as char) is Some,
        lower(a as char) == lower(b as char),
    ensures
        digit_value(b as char) is Some,
{
}

/// Whether a text is an object id as git writes it: forty digits, `0` to `9` or
/// `a` to `f`.
pub open spec fn is_id(s: Seq<char>) -> bool {
    s.len() == 40 && forall|i: int|
        0 <= i < 40 ==> '0' <= #[trigger] s[i] <= '9' || 'a' <= s[i] <= 'f'
}

/// Whether a text is nothing but zeros.
pub open spec fn all_zeros(s: Seq<char>) -> bool {
    forall|i: int| 0 <= i < s.len() ==> #[trigger] s[i] == '0'
}

/// Law: an id reads as itself, and is the one that stands for no object exactly
/// where it is all zeros.
pub proof fn law_id_reads_as_itself(id: Seq<char>)
    requires
        is_id(id),
    ensures
        hex_id(encode_utf8(id)) == Some(id),
        id == null_digits() <==> all_zeros(id),
{
    assert(is_ascii_chars(id)) by {
        assert forall|i: int| 0 <= i < id.len() implies (#[trigger] id[i]) as u32 <= 127 by {
            assert('0' <= id[i] <= '9' || 'a' <= id[i] <= 'f');
        }
    }
    is_ascii_chars_encode_utf8(id);
    let bytes = encode_utf8(id);
    assert forall|i: int| 0 <= i < 40 implies digit_value(#[trigger] bytes[i] as char) is Some
        && lower(bytes[i] as char) == id[i] by {
        assert('0' <= id[i] <= '9' || 'a' <= id[i] <= 'f');
        assert(bytes[i] as char == id[i]);
    }
    assert(bytes.map_values(|b: u8| lower(b as char)) =~= id);
    if all_zeros(id) {
        assert(id =~= null_digits());
    }
}

} // verus!
