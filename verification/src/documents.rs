//! How values lie on the meta refs: each document is a git tree.
//!
//! A text or a number is a blob. A record is a tree with an entry per field, a
//! list a tree whose entries are numbered (`0000`, `0001`, …), a map a tree keyed
//! by its keys. An optional value is a tree with the value as `some`, or an empty
//! tree; a choice is a tree with one entry, named after the variant. An entry
//! that is left out reads as the value that its type has for that, so a document
//! written before a field existed keeps loading.

use vstd::prelude::*;

use crate::account::Account;
use crate::check_pages::{status_word, word_of};
use crate::checks::{CheckBody, Outcome};
use crate::comments::Comment;
use crate::config::{Config, RoleRules};
use crate::issues::Issue;
use crate::keyed::{as_map, has_key, in_order, lemma_as_map_entry, TextMap};
use crate::members::{Member, Provenance, Trust, WebAuthnKey};
use crate::reviews::{Review, Verdict};
use crate::revocations::RevocationBody;
use crate::runner::Status;
use crate::signers::Authorization;
use crate::text::{
    decimal, decimal_value, is_digit, lemma_decimal_round_trip, opt_text, parse_decimal,
    parsed_decimal, same, strip_prefix, texts, to_decimal, zero_padded,
};

verus! {

/// A git object that a document is made of.
#[derive(Debug, PartialEq, Eq)]
pub enum Node {
    /// A file's text.
    Blob(String),
    /// A directory.
    Tree(TextMap<Node>),
}

/// A type whose values can be stored on a ref.
pub trait Stored: Sized {
    /// What a value means, whatever memory it lies in.
    type Value;

    /// What this value means.
    spec fn value(&self) -> Self::Value;

    /// What an entry that is left out reads as, if it may be.
    spec fn absent() -> Option<Self::Value>;

    /// Whether `node` is how `value` is stored.
    spec fn layout(node: Node, value: Self::Value) -> bool;

    /// The value that is read from `node`, if it is well formed.
    spec fn parsed(node: Node) -> Option<Self::Value>;

    /// What was stored is what is read.
    proof fn lemma_reads_back(node: Node, value: Self::Value)
        requires
            Self::layout(node, value),
        ensures
            Self::parsed(node) == Some(value),
    ;

    /// The value for an entry that is left out.
    fn missing() -> (r: Option<Self>)
        ensures
            match r {
                Some(v) => Self::absent() == Some(v.value()),
                None => Self::absent() is None,
            },
    ;

    /// Stores a value.
    fn write(&self) -> (r: Node)
        ensures
            Self::layout(r, self.value()),
    ;

    /// Reads a value.
    fn read(node: &Node) -> (r: Option<Self>)
        ensures
            match r {
                Some(v) => Self::parsed(*node) == Some(v.value()),
                None => Self::parsed(*node) is None,
            },
    ;
}

/// Law: whatever is stored reads back as it was.
pub proof fn law_stored_reads_back<T: Stored>(node: Node, value: T::Value)
    requires
        T::layout(node, value),
    ensures
        T::parsed(node) == Some(value),
{
    T::lemma_reads_back(node, value);
}

impl Stored for String {
    type Value = Seq<char>;

    open spec fn value(&self) -> Seq<char> {
        self@
    }

    open spec fn absent() -> Option<Seq<char>> {
        None
    }

    open spec fn layout(node: Node, value: Seq<char>) -> bool {
        node matches Node::Blob(text) && text@ == value
    }

    open spec fn parsed(node: Node) -> Option<Seq<char>> {
        match node {
            Node::Blob(text) => Some(text@),
            Node::Tree(_) => None,
        }
    }

    proof fn lemma_reads_back(node: Node, value: Seq<char>) {
    }

    fn missing() -> (r: Option<String>) {
        None
    }

    fn write(&self) -> (r: Node) {
        Node::Blob(self.clone())
    }

    fn read(node: &Node) -> (r: Option<String>) {
        match node {
            Node::Blob(text) => Some(text.clone()),
            Node::Tree(_) => None,
        }
    }
}

impl Stored for u64 {
    type Value = u64;

    open spec fn value(&self) -> u64 {
        *self
    }

    open spec fn absent() -> Option<u64> {
        None
    }

    open spec fn layout(node: Node, value: u64) -> bool {
        node matches Node::Blob(text) && text@ == decimal(value as nat)
    }

    open spec fn parsed(node: Node) -> Option<u64> {
        match node {
            Node::Blob(text) => match parsed_decimal(text@, u64::MAX as nat) {
                Some(n) => Some(n as u64),
                None => None,
            },
            Node::Tree(_) => None,
        }
    }

    proof fn lemma_reads_back(node: Node, value: u64) {
        lemma_decimal_round_trip(value as nat, u64::MAX as nat);
    }

    fn missing() -> (r: Option<u64>) {
        None
    }

    fn write(&self) -> (r: Node) {
        Node::Blob(to_decimal(*self))
    }

    fn read(node: &Node) -> (r: Option<u64>) {
        match node {
            Node::Blob(text) => parse_decimal(text.as_str(), u64::MAX),
            Node::Tree(_) => None,
        }
    }
}

impl<T: Stored> Stored for Option<T> {
    type Value = Option<T::Value>;

    open spec fn value(&self) -> Option<T::Value> {
        match *self {
            Some(v) => Some(v.value()),
            None => None,
        }
    }

    open spec fn absent() -> Option<Option<T::Value>> {
        Some(None)
    }

    open spec fn layout(node: Node, value: Option<T::Value>) -> bool {
        match node {
            Node::Blob(_) => false,
            Node::Tree(tree) => match value {
                Some(v) => tree@.dom() == set!["some"@] && T::layout(tree@["some"@], v),
                None => tree@.dom() == Set::<Seq<char>>::empty(),
            },
        }
    }

    open spec fn parsed(node: Node) -> Option<Option<T::Value>> {
        match node {
            Node::Blob(_) => None,
            Node::Tree(tree) => if tree@.contains_key("some"@) {
                match T::parsed(tree@["some"@]) {
                    Some(v) => Some(Some(v)),
                    None => None,
                }
            } else {
                Some(None)
            },
        }
    }

    proof fn lemma_reads_back(node: Node, value: Option<T::Value>) {
        if let Node::Tree(tree) = node {
            assert(tree@.contains_key("some"@) == tree@.dom().contains("some"@));
            if let Some(v) = value {
                T::lemma_reads_back(tree@["some"@], v);
            }
        }
    }

    fn missing() -> (r: Option<Option<T>>) {
        Some(None)
    }

    fn write(&self) -> (r: Node) {
        let mut tree: TextMap<Node> = TextMap::new();
        match self {
            Some(v) => {
                let node = v.write();
                tree.insert("some".to_owned(), node);
                proof {
                    assert(tree@.dom() =~= set!["some"@]);
                }
            },
            None => {
                proof {
                    assert(tree@.dom() =~= Set::<Seq<char>>::empty());
                }
            },
        }
        Node::Tree(tree)
    }

    fn read(node: &Node) -> (r: Option<Option<T>>) {
        match node {
            Node::Blob(_) => None,
            Node::Tree(tree) => match tree.get("some") {
                Some(inner) => match T::read(inner) {
                    Some(v) => Some(Some(v)),
                    None => None,
                },
                None => Some(None),
            },
        }
    }
}

/// The name of a list's entry: its number, four digits or more.
pub open spec fn index_key(i: nat) -> Seq<char> {
    zero_padded(decimal(i), 4)
}

/// Zeros in front of a number leave it as it is.
proof fn lemma_padded_value(s: Seq<char>, zeros: nat)
    ensures
        decimal_value(Seq::new(zeros, |i: int| '0') + s) == decimal_value(s),
    decreases zeros + s.len(),
{
    let front = Seq::new(zeros, |i: int| '0');
    if s.len() > 0 {
        assert((front + s).drop_last() =~= front + s.drop_last());
        assert((front + s).last() == s.last());
        lemma_padded_value(s.drop_last(), zeros);
    } else if zeros > 0 {
        let less = Seq::new((zeros - 1) as nat, |i: int| '0');
        assert((front + s).drop_last() =~= less + s);
        assert((front + s).last() == '0');
        lemma_padded_value(s, (zeros - 1) as nat);
        assert(decimal_value(s) == 0);
    } else {
        assert(front + s =~= s);
    }
}

/// Entries with different numbers have different names.
pub proof fn lemma_index_key(i: nat, j: nat)
    requires
        index_key(i) == index_key(j),
    ensures
        i == j,
{
    lemma_index_value(i);
    lemma_index_value(j);
}

proof fn lemma_index_value(i: nat)
    ensures
        decimal_value(index_key(i)) == i,
{
    lemma_decimal_round_trip(i, i);
    let s = decimal(i);
    if s.len() < 4 {
        lemma_padded_value(s, (4 - s.len()) as nat);
    }
}

/// The name of a list's entry.
fn to_index_key(i: usize) -> (r: String)
    ensures
        r@ == index_key(i as nat),
{
    let digits = to_decimal(i as u64);
    let n: usize = digits.as_str().unicode_len();
    let mut r = String::new();
    let mut k: usize = n;
    while k < 4
        invariant
            n == digits@.len(),
            n <= k,
            k <= 4 || k == n,
            r@ == Seq::new((k - n) as nat, |x: int| '0'),
        decreases 4 - k,
    {
        r.push('0');
        k += 1;
        proof {
            assert(r@ =~= Seq::new((k - n) as nat, |x: int| '0'));
        }
    }
    r.append(digits.as_str());
    proof {
        assert(r@ =~= index_key(i as nat));
    }
    r
}

/// What a list's items mean.
pub open spec fn list_value<T: Stored>(items: Seq<T>) -> Seq<T::Value> {
    items.map_values(|item: T| item.value())
}

/// Whether the entry numbered `i` is there and reads.
pub open spec fn item_reads<T: Stored>(tree: Map<Seq<char>, Node>, i: int) -> bool {
    tree.contains_key(index_key(i as nat)) && T::parsed(tree[index_key(i as nat)]) is Some
}

/// Whether the entry numbered `i` is there and holds `value`.
pub open spec fn item_holds<T: Stored>(
    tree: Map<Seq<char>, Node>,
    i: int,
    value: T::Value,
) -> bool {
    tree.contains_key(index_key(i as nat)) && T::layout(tree[index_key(i as nat)], value)
}

impl<T: Stored> Stored for Vec<T> {
    type Value = Seq<T::Value>;

    open spec fn value(&self) -> Seq<T::Value> {
        list_value(self@)
    }

    open spec fn absent() -> Option<Seq<T::Value>> {
        Some(Seq::empty())
    }

    open spec fn layout(node: Node, value: Seq<T::Value>) -> bool {
        match node {
            Node::Blob(_) => false,
            Node::Tree(tree) => tree@.dom().len() == value.len() && forall|i: int|
                0 <= i < value.len() ==> #[trigger] item_holds::<T>(tree@, i, value[i]),
        }
    }

    open spec fn parsed(node: Node) -> Option<Seq<T::Value>> {
        match node {
            Node::Blob(_) => None,
            Node::Tree(tree) => if forall|i: int|
                0 <= i < tree@.dom().len() ==> #[trigger] item_reads::<T>(tree@, i) {
                Some(
                    Seq::new(
                        tree@.dom().len(),
                        |i: int| T::parsed(tree@[index_key(i as nat)])->0,
                    ),
                )
            } else {
                None
            },
        }
    }

    proof fn lemma_reads_back(node: Node, value: Seq<T::Value>) {
        if let Node::Tree(tree) = node {
            assert forall|i: int| 0 <= i < tree@.dom().len() implies #[trigger] item_reads::<T>(
                tree@,
                i,
            ) && T::parsed(tree@[index_key(i as nat)]) == Some(value[i]) by {
                assert(item_holds::<T>(tree@, i, value[i]));
                T::lemma_reads_back(tree@[index_key(i as nat)], value[i]);
            }
            let all = Seq::new(
                tree@.dom().len(),
                |i: int| T::parsed(tree@[index_key(i as nat)])->0,
            );
            assert forall|i: int| 0 <= i < all.len() implies all[i] == value[i] by {
                assert(item_reads::<T>(tree@, i));
            }
            assert(all =~= value);
        }
    }

    fn missing() -> (r: Option<Vec<T>>) {
        let r: Vec<T> = Vec::new();
        proof {
            assert(list_value(r@) =~= Seq::empty());
        }
        Some(r)
    }

    fn write(&self) -> (r: Node) {
        let mut tree: TextMap<Node> = TextMap::new();
        let mut i: usize = 0;
        while i < self.len()
            invariant
                i <= self@.len(),
                tree@.dom().finite(),
                tree@.dom().len() == i,
                forall|k: Seq<char>| #[trigger]
                    tree@.contains_key(k) ==> exists|j: int|
                        0 <= j < i && k == #[trigger] index_key(j as nat),
                forall|j: int|
                    0 <= j < i ==> #[trigger] item_holds::<T>(tree@, j, self@[j].value()),
            decreases self@.len() - i,
        {
            let node = self[i].write();
            let key = to_index_key(i);
            let ghost prior = tree@;
            let ghost name = key@;
            proof {
                if prior.contains_key(name) {
                    let j = choose|j: int| 0 <= j < i && name == #[trigger] index_key(j as nat);
                    lemma_index_key(i as nat, j as nat);
                }
            }
            tree.insert(key, node);
            i += 1;
            proof {
                assert forall|k: Seq<char>| #[trigger] tree@.contains_key(k) implies exists|j: int|
                    0 <= j < i && k == #[trigger] index_key(j as nat) by {
                    if prior.contains_key(k) {
                        let j = choose|j: int|
                            0 <= j < i - 1 && k == #[trigger] index_key(j as nat);
                        assert(k == index_key(j as nat));
                    } else {
                        assert(k == index_key((i - 1) as nat));
                    }
                }
                assert forall|j: int| 0 <= j < i implies #[trigger] item_holds::<T>(
                    tree@,
                    j,
                    self@[j].value(),
                ) by {
                    if j < i - 1 {
                        assert(item_holds::<T>(prior, j, self@[j].value()));
                        if index_key(j as nat) == name {
                            lemma_index_key(j as nat, (i - 1) as nat);
                        }
                    }
                }
            }
        }
        proof {
            let value = list_value(self@);
            assert forall|j: int| 0 <= j < value.len() implies #[trigger] item_holds::<T>(
                tree@,
                j,
                value[j],
            ) by {
                assert(item_holds::<T>(tree@, j, self@[j].value()));
            }
        }
        Node::Tree(tree)
    }

    fn read(node: &Node) -> (r: Option<Vec<T>>) {
        let tree = match node {
            Node::Blob(_) => return None,
            Node::Tree(tree) => tree,
        };
        let n: usize = tree.len();
        let mut r: Vec<T> = Vec::new();
        let mut i: usize = 0;
        while i < n
            invariant
                *node == Node::Tree(*tree),
                n == tree@.dom().len(),
                i <= n,
                r@.len() == i,
                forall|j: int|
                    0 <= j < i ==> #[trigger] item_reads::<T>(tree@, j) && T::parsed(
                        tree@[index_key(j as nat)],
                    ) == Some(r@[j].value()),
            decreases n - i,
        {
            let key = to_index_key(i);
            match tree.get(key.as_str()) {
                Some(inner) => match T::read(inner) {
                    Some(v) => r.push(v),
                    None => {
                        proof {
                            assert(!item_reads::<T>(tree@, i as int));
                        }
                        return None;
                    },
                },
                None => {
                    proof {
                        assert(!item_reads::<T>(tree@, i as int));
                    }
                    return None;
                },
            }
            i += 1;
        }
        proof {
            let all = Seq::new(
                tree@.dom().len(),
                |i: int| T::parsed(tree@[index_key(i as nat)])->0,
            );
            assert forall|j: int| 0 <= j < all.len() implies all[j] == list_value(r@)[j] by {
                assert(item_reads::<T>(tree@, j));
            }
            assert(all =~= list_value(r@));
        }
        Some(r)
    }
}

/// What a map's values mean.
pub open spec fn map_value<T: Stored>(map: Map<Seq<char>, T>) -> Map<Seq<char>, T::Value> {
    map.map_values(|item: T| item.value())
}

/// Whether every entry reads.
pub open spec fn entries_read<T: Stored>(tree: Map<Seq<char>, Node>) -> bool {
    forall|key: Seq<char>| #[trigger]
        tree.contains_key(key) ==> T::parsed(tree[key]) is Some
}

/// Whether every entry holds its value.
pub open spec fn entries_hold<T: Stored>(
    tree: Map<Seq<char>, Node>,
    value: Map<Seq<char>, T::Value>,
) -> bool {
    forall|key: Seq<char>| #[trigger]
        tree.contains_key(key) ==> T::layout(tree[key], value[key])
}

impl<T: Stored> Stored for TextMap<T> {
    type Value = Map<Seq<char>, T::Value>;

    open spec fn value(&self) -> Map<Seq<char>, T::Value> {
        map_value(self@)
    }

    open spec fn absent() -> Option<Map<Seq<char>, T::Value>> {
        Some(Map::empty())
    }

    open spec fn layout(node: Node, value: Map<Seq<char>, T::Value>) -> bool {
        match node {
            Node::Blob(_) => false,
            Node::Tree(tree) => tree@.dom() == value.dom() && entries_hold::<T>(tree@, value),
        }
    }

    open spec fn parsed(node: Node) -> Option<Map<Seq<char>, T::Value>> {
        match node {
            Node::Blob(_) => None,
            Node::Tree(tree) => if entries_read::<T>(tree@) {
                Some(tree@.map_values(|inner: Node| T::parsed(inner)->0))
            } else {
                None
            },
        }
    }

    proof fn lemma_reads_back(node: Node, value: Map<Seq<char>, T::Value>) {
        if let Node::Tree(tree) = node {
            assert forall|key: Seq<char>| #[trigger] tree@.contains_key(key) implies T::parsed(
                tree@[key],
            ) == Some(value[key]) by {
                T::lemma_reads_back(tree@[key], value[key]);
            }
            let all = tree@.map_values(|inner: Node| T::parsed(inner)->0);
            assert forall|key: Seq<char>| #[trigger] all.contains_key(key) implies all[key]
                == value[key] by {
                assert(tree@.contains_key(key));
            }
            assert(all =~= value);
        }
    }

    fn missing() -> (r: Option<TextMap<T>>) {
        let r: TextMap<T> = TextMap::new();
        proof {
            assert(map_value(r@) =~= Map::empty());
        }
        Some(r)
    }

    fn write(&self) -> (r: Node) {
        let entries = self.entries();
        let ghost all = entries@;
        let mut tree: TextMap<Node> = TextMap::new();
        let mut i: usize = 0;
        while i < entries.len()
            invariant
                i <= entries@.len(),
                all == entries@,
                in_order(all),
                as_map(all) == self@,
                forall|key: Seq<char>| #[trigger]
                    tree@.contains_key(key) <==> has_key(all.take(i as int), key),
                entries_hold::<T>(tree@, map_value(self@)),
            decreases entries@.len() - i,
        {
            let node = entries[i].1.write();
            let key = entries[i].0.clone();
            let ghost prior = tree@;
            tree.insert(key, node);
            proof {
                let name = all[i as int].0@;
                lemma_as_map_entry(all, i as int);
                assert(map_value(self@)[name] == all[i as int].1.value());
                assert forall|k: Seq<char>| #[trigger] tree@.contains_key(k) <==> has_key(
                    all.take(i + 1),
                    k,
                ) by {
                    lemma_one_more(all, i as int, k);
                    assert(tree@.contains_key(k) <==> prior.contains_key(k) || k == name);
                }
                assert forall|k: Seq<char>| #[trigger] tree@.contains_key(k) implies T::layout(
                    tree@[k],
                    map_value(self@)[k],
                ) by {
                    if k != name {
                        assert(prior.contains_key(k));
                    }
                }
            }
            i += 1;
        }
        proof {
            assert(all.take(all.len() as int) =~= all);
            assert forall|k: Seq<char>| tree@.dom().contains(k) <==> map_value(
                self@,
            ).dom().contains(k) by {
                assert(tree@.contains_key(k) <==> has_key(all, k));
                assert(as_map(all).contains_key(k) <==> has_key(all, k));
            }
            assert(tree@.dom() =~= map_value(self@).dom());
        }
        Node::Tree(tree)
    }

    fn read(node: &Node) -> (r: Option<TextMap<T>>) {
        let tree = match node {
            Node::Blob(_) => return None,
            Node::Tree(tree) => tree,
        };
        let entries = tree.entries();
        let ghost all = entries@;
        let mut r: TextMap<T> = TextMap::new();
        let mut i: usize = 0;
        while i < entries.len()
            invariant
                *node == Node::Tree(*tree),
                i <= entries@.len(),
                all == entries@,
                in_order(all),
                as_map(all) == tree@,
                forall|key: Seq<char>| #[trigger]
                    r@.contains_key(key) <==> has_key(all.take(i as int), key),
                forall|key: Seq<char>| #[trigger]
                    r@.contains_key(key) ==> T::parsed(tree@[key]) == Some(r@[key].value()),
            decreases entries@.len() - i,
        {
            proof {
                lemma_as_map_entry(all, i as int);
            }
            let ghost name = all[i as int].0@;
            match T::read(&entries[i].1) {
                Some(v) => {
                    let ghost prior = r@;
                    r.insert(entries[i].0.clone(), v);
                    proof {
                        assert forall|k: Seq<char>| #[trigger] r@.contains_key(k) <==> has_key(
                            all.take(i + 1),
                            k,
                        ) by {
                            lemma_one_more(all, i as int, k);
                            assert(r@.contains_key(k) <==> prior.contains_key(k) || k == name);
                        }
                        assert forall|k: Seq<char>| #[trigger] r@.contains_key(k) implies T::parsed(
                            tree@[k],
                        ) == Some(r@[k].value()) by {
                            if k != name {
                                assert(prior.contains_key(k));
                            }
                        }
                    }
                },
                None => {
                    proof {
                        assert(tree@.contains_key(name));
                    }
                    return None;
                },
            }
            i += 1;
        }
        proof {
            assert(all.take(all.len() as int) =~= all);
            assert forall|k: Seq<char>| #[trigger] tree@.contains_key(k) implies r@.contains_key(
                k,
            ) by {
                assert(as_map(all).contains_key(k) <==> has_key(all, k));
            }
            let read = tree@.map_values(|inner: Node| T::parsed(inner)->0);
            assert forall|k: Seq<char>| read.dom().contains(k) <==> map_value(
                r@,
            ).dom().contains(k) by {
                assert(r@.contains_key(k) <==> has_key(all, k));
                assert(as_map(all).contains_key(k) <==> has_key(all, k));
            }
            assert forall|k: Seq<char>| #[trigger] read.contains_key(k) implies read[k]
                == map_value(r@)[k] by {
                assert(tree@.contains_key(k));
                assert(r@.contains_key(k));
            }
            assert(read =~= map_value(r@));
        }
        Some(r)
    }
}

/// The keys of one entry more.
proof fn lemma_one_more<V>(entries: Seq<(String, V)>, i: int, key: Seq<char>)
    requires
        0 <= i < entries.len(),
    ensures
        has_key(entries.take(i + 1), key) <==> (has_key(entries.take(i), key) || key
            == entries[i].0@),
{
    let more = entries.take(i + 1);
    if has_key(more, key) {
        let j = choose|j: int| 0 <= j < more.len() && (#[trigger] more[j]).0@ == key;
        if j < i {
            assert(entries.take(i)[j] == more[j]);
        }
    }
    if has_key(entries.take(i), key) {
        let j = choose|j: int| 0 <= j < i && (#[trigger] entries.take(i)[j]).0@ == key;
        assert(more[j] == entries.take(i)[j]);
    }
    if key == entries[i].0@ {
        assert(more[i] == entries[i]);
    }
}

/// What the field `name` of a record reads as.
pub open spec fn field<T: Stored>(node: Node, name: Seq<char>) -> Option<T::Value> {
    match node {
        Node::Blob(_) => None,
        Node::Tree(tree) => if tree@.contains_key(name) {
            T::parsed(tree@[name])
        } else {
            T::absent()
        },
    }
}

/// Whether the field `name` of a record holds `value`.
pub open spec fn holds<T: Stored>(node: Node, name: Seq<char>, value: T::Value) -> bool {
    node matches Node::Tree(tree) && tree@.contains_key(name) && T::layout(tree@[name], value)
}

/// Whether a record's fields are the ones named.
pub open spec fn has_fields(node: Node, names: Set<Seq<char>>) -> bool {
    node matches Node::Tree(tree) && tree@.dom() == names
}

/// A field that was stored is the field that is read.
pub proof fn lemma_field<T: Stored>(node: Node, name: Seq<char>, value: T::Value)
    requires
        holds::<T>(node, name, value),
    ensures
        field::<T>(node, name) == Some(value),
{
    if let Node::Tree(tree) = node {
        T::lemma_reads_back(tree@[name], value);
    }
}

/// Reads the field `name` of a record.
pub fn read_field<T: Stored>(node: &Node, name: &str) -> (r: Option<T>)
    ensures
        match r {
            Some(v) => field::<T>(*node, name@) == Some(v.value()),
            None => field::<T>(*node, name@) is None,
        },
{
    match node {
        Node::Blob(_) => None,
        Node::Tree(tree) => match tree.get(name) {
            Some(inner) => T::read(inner),
            None => T::missing(),
        },
    }
}

/// Adds the field `name` to a record.
pub fn put_field<T: Stored>(tree: &mut TextMap<Node>, name: &str, v: &T)
    ensures
        final(tree)@ == old(tree)@.insert(name@, final(tree)@[name@]),
        T::layout(final(tree)@[name@], v.value()),
{
    let node = v.write();
    tree.insert(name.to_owned(), node);
}

/// A record of one field.
pub open spec fn single<T: Stored>(node: Node, name: Seq<char>, value: T::Value) -> bool {
    has_fields(node, set![name]) && holds::<T>(node, name, value)
}

/// Stores a record of one field.
pub fn write_single<T: Stored>(name: &str, v: &T) -> (r: Node)
    ensures
        single::<T>(r, name@, v.value()),
{
    let mut tree: TextMap<Node> = TextMap::new();
    put_field(&mut tree, name, v);
    proof {
        assert(tree@.dom() =~= set![name@]);
    }
    Node::Tree(tree)
}

/// What a role's rules mean.
pub struct RulesValue {
    /// The patterns allowed.
    pub allow: Seq<Seq<char>>,
    /// The patterns denied.
    pub deny: Seq<Seq<char>>,
}

impl Stored for RoleRules {
    type Value = RulesValue;

    open spec fn value(&self) -> RulesValue {
        RulesValue {
            allow: self.allow.value(),
            deny: self.deny.value(),
        }
    }

    open spec fn absent() -> Option<RulesValue> {
        None
    }

    open spec fn layout(node: Node, value: RulesValue) -> bool {
        &&& has_fields(node, set!["allow"@, "deny"@])
        &&& holds::<Vec<String>>(node, "allow"@, value.allow)
        &&& holds::<Vec<String>>(node, "deny"@, value.deny)
    }

    open spec fn parsed(node: Node) -> Option<RulesValue> {
        match (field::<Vec<String>>(node, "allow"@), field::<Vec<String>>(node, "deny"@)) {
            (Some(allow), Some(deny)) => Some(RulesValue { allow, deny }),
            _ => None,
        }
    }

    proof fn lemma_reads_back(node: Node, value: RulesValue) {
        lemma_field::<Vec<String>>(node, "allow"@, value.allow);
        lemma_field::<Vec<String>>(node, "deny"@, value.deny);
    }

    fn missing() -> (r: Option<RoleRules>) {
        None
    }

    fn write(&self) -> (r: Node) {
        proof {
            reveal_strlit("allow");
            reveal_strlit("deny");
            assert("allow"@.len() != "deny"@.len());
        }
        let mut tree: TextMap<Node> = TextMap::new();
        put_field(&mut tree, "allow", &self.allow);
        put_field(&mut tree, "deny", &self.deny);
        proof {
            assert(tree@.dom() =~= set!["allow"@, "deny"@]);
        }
        Node::Tree(tree)
    }

    fn read(node: &Node) -> (r: Option<RoleRules>) {
        match (
            read_field::<Vec<String>>(node, "allow"),
            read_field::<Vec<String>>(node, "deny"),
        ) {
            (Some(allow), Some(deny)) => Some(RoleRules { allow, deny }),
            _ => None,
        }
    }
}

/// What a configuration means.
pub struct ConfigValue {
    /// The description.
    pub description: Seq<char>,
    /// The homepage.
    pub homepage: Seq<char>,
    /// The topics.
    pub topics: Seq<Seq<char>>,
    /// The rules of each role.
    pub roles: Map<Seq<char>, RulesValue>,
}

impl Stored for Config {
    type Value = ConfigValue;

    open spec fn value(&self) -> ConfigValue {
        ConfigValue {
            description: self.description@,
            homepage: self.homepage@,
            topics: self.topics.value(),
            roles: self.roles.value(),
        }
    }

    open spec fn absent() -> Option<ConfigValue> {
        None
    }

    open spec fn layout(node: Node, value: ConfigValue) -> bool {
        &&& has_fields(node, set!["description"@, "homepage"@, "topics"@, "roles"@])
        &&& holds::<String>(node, "description"@, value.description)
        &&& holds::<String>(node, "homepage"@, value.homepage)
        &&& holds::<Vec<String>>(node, "topics"@, value.topics)
        &&& holds::<TextMap<RoleRules>>(node, "roles"@, value.roles)
    }

    open spec fn parsed(node: Node) -> Option<ConfigValue> {
        match (
            field::<String>(node, "description"@),
            field::<String>(node, "homepage"@),
            field::<Vec<String>>(node, "topics"@),
            field::<TextMap<RoleRules>>(node, "roles"@),
        ) {
            (Some(description), Some(homepage), Some(topics), Some(roles)) => Some(
                ConfigValue { description, homepage, topics, roles },
            ),
            _ => None,
        }
    }

    proof fn lemma_reads_back(node: Node, value: ConfigValue) {
        lemma_field::<String>(node, "description"@, value.description);
        lemma_field::<String>(node, "homepage"@, value.homepage);
        lemma_field::<Vec<String>>(node, "topics"@, value.topics);
        lemma_field::<TextMap<RoleRules>>(node, "roles"@, value.roles);
    }

    fn missing() -> (r: Option<Config>) {
        None
    }

    fn write(&self) -> (r: Node) {
        proof {
            reveal_strlit("description");
            reveal_strlit("homepage");
            reveal_strlit("topics");
            reveal_strlit("roles");
            assert("description"@.len() != "homepage"@.len());
            assert("description"@.len() != "topics"@.len());
            assert("description"@.len() != "roles"@.len());
            assert("homepage"@.len() != "topics"@.len());
            assert("homepage"@.len() != "roles"@.len());
            assert("topics"@.len() != "roles"@.len());
        }
        let mut tree: TextMap<Node> = TextMap::new();
        put_field(&mut tree, "description", &self.description);
        put_field(&mut tree, "homepage", &self.homepage);
        put_field(&mut tree, "topics", &self.topics);
        put_field(&mut tree, "roles", &self.roles);
        proof {
            assert(tree@.dom() =~= set!["description"@, "homepage"@, "topics"@, "roles"@]);
        }
        Node::Tree(tree)
    }

    fn read(node: &Node) -> (r: Option<Config>) {
        match (
            read_field::<String>(node, "description"),
            read_field::<String>(node, "homepage"),
            read_field::<Vec<String>>(node, "topics"),
            read_field::<TextMap<RoleRules>>(node, "roles"),
        ) {
            (Some(description), Some(homepage), Some(topics), Some(roles)) => Some(
                Config { description, homepage, topics, roles },
            ),
            _ => None,
        }
    }
}

/// What an account means.
pub struct AccountValue {
    /// The username.
    pub username: Seq<char>,
    /// The display name.
    pub display_name: Seq<char>,
    /// The bio.
    pub bio: Seq<char>,
    /// When it was created.
    pub created_at: u64,
}

impl Stored for Account {
    type Value = AccountValue;

    open spec fn value(&self) -> AccountValue {
        AccountValue {
            username: self.username@,
            display_name: self.display_name@,
            bio: self.bio@,
            created_at: self.created_at,
        }
    }

    open spec fn absent() -> Option<AccountValue> {
        None
    }

    open spec fn layout(node: Node, value: AccountValue) -> bool {
        &&& has_fields(node, set!["username"@, "display_name"@, "bio"@, "created_at"@])
        &&& holds::<String>(node, "username"@, value.username)
        &&& holds::<String>(node, "display_name"@, value.display_name)
        &&& holds::<String>(node, "bio"@, value.bio)
        &&& holds::<u64>(node, "created_at"@, value.created_at)
    }

    open spec fn parsed(node: Node) -> Option<AccountValue> {
        match (
            field::<String>(node, "username"@),
            field::<String>(node, "display_name"@),
            field::<String>(node, "bio"@),
            field::<u64>(node, "created_at"@),
        ) {
            (Some(username), Some(display_name), Some(bio), Some(created_at)) => Some(
                AccountValue { username, display_name, bio, created_at },
            ),
            _ => None,
        }
    }

    proof fn lemma_reads_back(node: Node, value: AccountValue) {
        lemma_field::<String>(node, "username"@, value.username);
        lemma_field::<String>(node, "display_name"@, value.display_name);
        lemma_field::<String>(node, "bio"@, value.bio);
        lemma_field::<u64>(node, "created_at"@, value.created_at);
    }

    fn missing() -> (r: Option<Account>) {
        None
    }

    fn write(&self) -> (r: Node) {
        proof {
            reveal_strlit("username");
            reveal_strlit("display_name");
            reveal_strlit("bio");
            reveal_strlit("created_at");
            assert("username"@.len() != "display_name"@.len());
            assert("username"@.len() != "bio"@.len());
            assert("username"@.len() != "created_at"@.len());
            assert("display_name"@.len() != "bio"@.len());
            assert("display_name"@.len() != "created_at"@.len());
            assert("bio"@.len() != "created_at"@.len());
        }
        let mut tree: TextMap<Node> = TextMap::new();
        put_field(&mut tree, "username", &self.username);
        put_field(&mut tree, "display_name", &self.display_name);
        put_field(&mut tree, "bio", &self.bio);
        put_field(&mut tree, "created_at", &self.created_at);
        proof {
            assert(tree@.dom() =~= set!["username"@, "display_name"@, "bio"@, "created_at"@]);
        }
        Node::Tree(tree)
    }

    fn read(node: &Node) -> (r: Option<Account>) {
        match (
            read_field::<String>(node, "username"),
            read_field::<String>(node, "display_name"),
            read_field::<String>(node, "bio"),
            read_field::<u64>(node, "created_at"),
        ) {
            (Some(username), Some(display_name), Some(bio), Some(created_at)) => Some(
                Account { username, display_name, bio, created_at },
            ),
            _ => None,
        }
    }
}

/// What an issue means.
pub struct IssueValue {
    /// The title.
    pub title: Seq<char>,
    /// The body.
    pub body: Seq<char>,
    /// The state.
    pub state: Seq<char>,
    /// The labels.
    pub labels: Seq<Seq<char>>,
    /// The author.
    pub author: Seq<char>,
}

impl Stored for Issue {
    type Value = IssueValue;

    open spec fn value(&self) -> IssueValue {
        IssueValue {
            title: self.title@,
            body: self.body@,
            state: self.state@,
            labels: self.labels.value(),
            author: self.author@,
        }
    }

    open spec fn absent() -> Option<IssueValue> {
        None
    }

    open spec fn layout(node: Node, value: IssueValue) -> bool {
        &&& has_fields(node, set!["title"@, "body"@, "state"@, "labels"@, "author"@])
        &&& holds::<String>(node, "title"@, value.title)
        &&& holds::<String>(node, "body"@, value.body)
        &&& holds::<String>(node, "state"@, value.state)
        &&& holds::<Vec<String>>(node, "labels"@, value.labels)
        &&& holds::<String>(node, "author"@, value.author)
    }

    open spec fn parsed(node: Node) -> Option<IssueValue> {
        match (
            field::<String>(node, "title"@),
            field::<String>(node, "body"@),
            field::<String>(node, "state"@),
            field::<Vec<String>>(node, "labels"@),
            field::<String>(node, "author"@),
        ) {
            (Some(title), Some(body), Some(state), Some(labels), Some(author)) => Some(
                IssueValue { title, body, state, labels, author },
            ),
            _ => None,
        }
    }

    proof fn lemma_reads_back(node: Node, value: IssueValue) {
        lemma_field::<String>(node, "title"@, value.title);
        lemma_field::<String>(node, "body"@, value.body);
        lemma_field::<String>(node, "state"@, value.state);
        lemma_field::<Vec<String>>(node, "labels"@, value.labels);
        lemma_field::<String>(node, "author"@, value.author);
    }

    fn missing() -> (r: Option<Issue>) {
        None
    }

    fn write(&self) -> (r: Node) {
        proof {
            reveal_strlit("title");
            reveal_strlit("body");
            reveal_strlit("state");
            reveal_strlit("labels");
            reveal_strlit("author");
            assert("title"@.len() != "body"@.len());
            assert("title"@[0] != "state"@[0]);
            assert("title"@.len() != "labels"@.len());
            assert("title"@.len() != "author"@.len());
            assert("body"@.len() != "state"@.len());
            assert("body"@.len() != "labels"@.len());
            assert("body"@.len() != "author"@.len());
            assert("state"@.len() != "labels"@.len());
            assert("state"@.len() != "author"@.len());
            assert("labels"@[0] != "author"@[0]);
        }
        let mut tree: TextMap<Node> = TextMap::new();
        put_field(&mut tree, "title", &self.title);
        put_field(&mut tree, "body", &self.body);
        put_field(&mut tree, "state", &self.state);
        put_field(&mut tree, "labels", &self.labels);
        put_field(&mut tree, "author", &self.author);
        proof {
            assert(tree@.dom() =~= set!["title"@, "body"@, "state"@, "labels"@, "author"@]);
        }
        Node::Tree(tree)
    }

    fn read(node: &Node) -> (r: Option<Issue>) {
        match (
            read_field::<String>(node, "title"),
            read_field::<String>(node, "body"),
            read_field::<String>(node, "state"),
            read_field::<Vec<String>>(node, "labels"),
            read_field::<String>(node, "author"),
        ) {
            (Some(title), Some(body), Some(state), Some(labels), Some(author)) => Some(
                Issue { title, body, state, labels, author },
            ),
            _ => None,
        }
    }
}

/// What the outcome of a check means.
pub struct OutcomeValue {
    /// The outcome.
    pub outcome: Seq<char>,
    /// How long it took.
    pub duration_secs: Option<u64>,
    /// Where its log is.
    pub log_url: Option<Seq<char>>,
}

impl Stored for Outcome {
    type Value = OutcomeValue;

    open spec fn value(&self) -> OutcomeValue {
        OutcomeValue {
            outcome: self.outcome@,
            duration_secs: self.duration_secs.value(),
            log_url: self.log_url.value(),
        }
    }

    open spec fn absent() -> Option<OutcomeValue> {
        None
    }

    open spec fn layout(node: Node, value: OutcomeValue) -> bool {
        &&& has_fields(node, set!["outcome"@, "duration_secs"@, "log_url"@])
        &&& holds::<String>(node, "outcome"@, value.outcome)
        &&& holds::<Option<u64>>(node, "duration_secs"@, value.duration_secs)
        &&& holds::<Option<String>>(node, "log_url"@, value.log_url)
    }

    open spec fn parsed(node: Node) -> Option<OutcomeValue> {
        match (
            field::<String>(node, "outcome"@),
            field::<Option<u64>>(node, "duration_secs"@),
            field::<Option<String>>(node, "log_url"@),
        ) {
            (Some(outcome), Some(duration_secs), Some(log_url)) => Some(
                OutcomeValue { outcome, duration_secs, log_url },
            ),
            _ => None,
        }
    }

    proof fn lemma_reads_back(node: Node, value: OutcomeValue) {
        lemma_field::<String>(node, "outcome"@, value.outcome);
        lemma_field::<Option<u64>>(node, "duration_secs"@, value.duration_secs);
        lemma_field::<Option<String>>(node, "log_url"@, value.log_url);
    }

    fn missing() -> (r: Option<Outcome>) {
        None
    }

    fn write(&self) -> (r: Node) {
        proof {
            reveal_strlit("outcome");
            reveal_strlit("duration_secs");
            reveal_strlit("log_url");
            assert("outcome"@.len() != "duration_secs"@.len());
            assert("outcome"@[0] != "log_url"@[0]);
            assert("duration_secs"@.len() != "log_url"@.len());
        }
        let mut tree: TextMap<Node> = TextMap::new();
        put_field(&mut tree, "outcome", &self.outcome);
        put_field(&mut tree, "duration_secs", &self.duration_secs);
        put_field(&mut tree, "log_url", &self.log_url);
        proof {
            assert(tree@.dom() =~= set!["outcome"@, "duration_secs"@, "log_url"@]);
        }
        Node::Tree(tree)
    }

    fn read(node: &Node) -> (r: Option<Outcome>) {
        match (
            read_field::<String>(node, "outcome"),
            read_field::<Option<u64>>(node, "duration_secs"),
            read_field::<Option<String>>(node, "log_url"),
        ) {
            (Some(outcome), Some(duration_secs), Some(log_url)) => Some(
                Outcome { outcome, duration_secs, log_url },
            ),
            _ => None,
        }
    }
}

/// What the authorization of a key means.
pub struct AuthorizationValue {
    /// The key.
    pub key: Seq<char>,
    /// When its trust begins.
    pub valid_after: Option<Seq<char>>,
    /// When its trust ends.
    pub valid_before: Option<Seq<char>>,
}

impl Stored for Authorization {
    type Value = AuthorizationValue;

    open spec fn value(&self) -> AuthorizationValue {
        AuthorizationValue {
            key: self.key@,
            valid_after: self.valid_after.value(),
            valid_before: self.valid_before.value(),
        }
    }

    open spec fn absent() -> Option<AuthorizationValue> {
        None
    }

    open spec fn layout(node: Node, value: AuthorizationValue) -> bool {
        &&& has_fields(node, set!["key"@, "valid_after"@, "valid_before"@])
        &&& holds::<String>(node, "key"@, value.key)
        &&& holds::<Option<String>>(node, "valid_after"@, value.valid_after)
        &&& holds::<Option<String>>(node, "valid_before"@, value.valid_before)
    }

    open spec fn parsed(node: Node) -> Option<AuthorizationValue> {
        match (
            field::<String>(node, "key"@),
            field::<Option<String>>(node, "valid_after"@),
            field::<Option<String>>(node, "valid_before"@),
        ) {
            (Some(key), Some(valid_after), Some(valid_before)) => Some(
                AuthorizationValue { key, valid_after, valid_before },
            ),
            _ => None,
        }
    }

    proof fn lemma_reads_back(node: Node, value: AuthorizationValue) {
        lemma_field::<String>(node, "key"@, value.key);
        lemma_field::<Option<String>>(node, "valid_after"@, value.valid_after);
        lemma_field::<Option<String>>(node, "valid_before"@, value.valid_before);
    }

    fn missing() -> (r: Option<Authorization>) {
        None
    }

    fn write(&self) -> (r: Node) {
        proof {
            reveal_strlit("key");
            reveal_strlit("valid_after");
            reveal_strlit("valid_before");
            assert("key"@.len() != "valid_after"@.len());
            assert("key"@.len() != "valid_before"@.len());
            assert("valid_after"@.len() != "valid_before"@.len());
        }
        let mut tree: TextMap<Node> = TextMap::new();
        put_field(&mut tree, "key", &self.key);
        put_field(&mut tree, "valid_after", &self.valid_after);
        put_field(&mut tree, "valid_before", &self.valid_before);
        proof {
            assert(tree@.dom() =~= set!["key"@, "valid_after"@, "valid_before"@]);
        }
        Node::Tree(tree)
    }

    fn read(node: &Node) -> (r: Option<Authorization>) {
        match (
            read_field::<String>(node, "key"),
            read_field::<Option<String>>(node, "valid_after"),
            read_field::<Option<String>>(node, "valid_before"),
        ) {
            (Some(key), Some(valid_after), Some(valid_before)) => Some(
                Authorization { key, valid_after, valid_before },
            ),
            _ => None,
        }
    }
}

/// What a comment means.
pub struct CommentValue {
    /// The text.
    pub body: Seq<char>,
    /// Who wrote it.
    pub author: Seq<char>,
    /// The issue it is on.
    pub issue_id: Seq<char>,
}

impl Stored for Comment {
    type Value = CommentValue;

    open spec fn value(&self) -> CommentValue {
        CommentValue {
            body: self.body@,
            author: self.author@,
            issue_id: self.issue_id@,
        }
    }

    open spec fn absent() -> Option<CommentValue> {
        None
    }

    open spec fn layout(node: Node, value: CommentValue) -> bool {
        &&& has_fields(node, set!["body"@, "author"@, "issue_id"@])
        &&& holds::<String>(node, "body"@, value.body)
        &&& holds::<String>(node, "author"@, value.author)
        &&& holds::<String>(node, "issue_id"@, value.issue_id)
    }

    open spec fn parsed(node: Node) -> Option<CommentValue> {
        match (
            field::<String>(node, "body"@),
            field::<String>(node, "author"@),
            field::<String>(node, "issue_id"@),
        ) {
            (Some(body), Some(author), Some(issue_id)) => Some(
                CommentValue { body, author, issue_id },
            ),
            _ => None,
        }
    }

    proof fn lemma_reads_back(node: Node, value: CommentValue) {
        lemma_field::<String>(node, "body"@, value.body);
        lemma_field::<String>(node, "author"@, value.author);
        lemma_field::<String>(node, "issue_id"@, value.issue_id);
    }

    fn missing() -> (r: Option<Comment>) {
        None
    }

    fn write(&self) -> (r: Node) {
        proof {
            reveal_strlit("body");
            reveal_strlit("author");
            reveal_strlit("issue_id");
            assert("body"@.len() != "author"@.len());
            assert("body"@.len() != "issue_id"@.len());
            assert("author"@.len() != "issue_id"@.len());
        }
        let mut tree: TextMap<Node> = TextMap::new();
        put_field(&mut tree, "body", &self.body);
        put_field(&mut tree, "author", &self.author);
        put_field(&mut tree, "issue_id", &self.issue_id);
        proof {
            assert(tree@.dom() =~= set!["body"@, "author"@, "issue_id"@]);
        }
        Node::Tree(tree)
    }

    fn read(node: &Node) -> (r: Option<Comment>) {
        match (
            read_field::<String>(node, "body"),
            read_field::<String>(node, "author"),
            read_field::<String>(node, "issue_id"),
        ) {
            (Some(body), Some(author), Some(issue_id)) => Some(Comment { body, author, issue_id }),
            _ => None,
        }
    }
}

/// What a passkey means.
pub struct WebAuthnValue {
    /// The key.
    pub cose_key: Seq<char>,
    /// Its label.
    pub label: Seq<char>,
}

impl Stored for WebAuthnKey {
    type Value = WebAuthnValue;

    open spec fn value(&self) -> WebAuthnValue {
        WebAuthnValue {
            cose_key: self.cose_key@,
            label: self.label@,
        }
    }

    open spec fn absent() -> Option<WebAuthnValue> {
        None
    }

    open spec fn layout(node: Node, value: WebAuthnValue) -> bool {
        &&& has_fields(node, set!["cose_key"@, "label"@])
        &&& holds::<String>(node, "cose_key"@, value.cose_key)
        &&& holds::<String>(node, "label"@, value.label)
    }

    open spec fn parsed(node: Node) -> Option<WebAuthnValue> {
        match (field::<String>(node, "cose_key"@), field::<String>(node, "label"@)) {
            (Some(cose_key), Some(label)) => Some(WebAuthnValue { cose_key, label }),
            _ => None,
        }
    }

    proof fn lemma_reads_back(node: Node, value: WebAuthnValue) {
        lemma_field::<String>(node, "cose_key"@, value.cose_key);
        lemma_field::<String>(node, "label"@, value.label);
    }

    fn missing() -> (r: Option<WebAuthnKey>) {
        None
    }

    fn write(&self) -> (r: Node) {
        proof {
            reveal_strlit("cose_key");
            reveal_strlit("label");
            assert("cose_key"@.len() != "label"@.len());
        }
        let mut tree: TextMap<Node> = TextMap::new();
        put_field(&mut tree, "cose_key", &self.cose_key);
        put_field(&mut tree, "label", &self.label);
        proof {
            assert(tree@.dom() =~= set!["cose_key"@, "label"@]);
        }
        Node::Tree(tree)
    }

    fn read(node: &Node) -> (r: Option<WebAuthnKey>) {
        match (read_field::<String>(node, "cose_key"), read_field::<String>(node, "label")) {
            (Some(cose_key), Some(label)) => Some(WebAuthnKey { cose_key, label }),
            _ => None,
        }
    }
}

/// Whether `node` is a directory without entries.
pub open spec fn is_empty_tree(node: Node) -> bool {
    node matches Node::Tree(tree) && tree@.dom() == Set::<Seq<char>>::empty()
}

/// Stores a choice that carries nothing.
fn write_variant(name: &str) -> (r: Node)
    ensures
        r matches Node::Tree(tree) && tree@.dom() == set![name@] && is_empty_tree(tree@[name@]),
{
    let empty: TextMap<Node> = TextMap::new();
    let mut tree: TextMap<Node> = TextMap::new();
    proof {
        assert(empty@.dom() =~= Set::<Seq<char>>::empty());
    }
    tree.insert(name.to_owned(), Node::Tree(empty));
    proof {
        assert(tree@.dom() =~= set![name@]);
    }
    Node::Tree(tree)
}

/// The variant of a provenance by its name.
pub open spec fn provenance_name(value: Provenance) -> Seq<char> {
    match value {
        Provenance::AdminRegistered => "AdminRegistered"@,
        Provenance::SelfAttestedWeb => "SelfAttestedWeb"@,
    }
}

impl Stored for Provenance {
    type Value = Provenance;

    open spec fn value(&self) -> Provenance {
        *self
    }

    open spec fn absent() -> Option<Provenance> {
        Some(Provenance::AdminRegistered)
    }

    open spec fn layout(node: Node, value: Provenance) -> bool {
        node matches Node::Tree(tree) && tree@.dom() == set![provenance_name(value)] && is_empty_tree(
            tree@[provenance_name(value)],
        )
    }

    open spec fn parsed(node: Node) -> Option<Provenance> {
        match node {
            Node::Blob(_) => None,
            Node::Tree(tree) => if tree@.contains_key("AdminRegistered"@) {
                Some(Provenance::AdminRegistered)
            } else if tree@.contains_key("SelfAttestedWeb"@) {
                Some(Provenance::SelfAttestedWeb)
            } else {
                None
            },
        }
    }

    proof fn lemma_reads_back(node: Node, value: Provenance) {
        reveal_strlit("AdminRegistered");
        reveal_strlit("SelfAttestedWeb");
        assert("AdminRegistered"@[0] != "SelfAttestedWeb"@[0]);
        if let Node::Tree(tree) = node {
            assert(tree@.contains_key("AdminRegistered"@) == tree@.dom().contains(
                "AdminRegistered"@,
            ));
            assert(tree@.contains_key("SelfAttestedWeb"@) == tree@.dom().contains(
                "SelfAttestedWeb"@,
            ));
        }
    }

    fn missing() -> (r: Option<Provenance>) {
        Some(Provenance::AdminRegistered)
    }

    fn write(&self) -> (r: Node) {
        let name = match self {
            Provenance::AdminRegistered => "AdminRegistered",
            Provenance::SelfAttestedWeb => "SelfAttestedWeb",
        };
        write_variant(name)
    }

    fn read(node: &Node) -> (r: Option<Provenance>) {
        match node {
            Node::Blob(_) => None,
            Node::Tree(tree) => if tree.contains_key("AdminRegistered") {
                Some(Provenance::AdminRegistered)
            } else if tree.contains_key("SelfAttestedWeb") {
                Some(Provenance::SelfAttestedWeb)
            } else {
                None
            },
        }
    }
}

/// The variant of a verdict by its name.
pub open spec fn verdict_name(value: Verdict) -> Seq<char> {
    match value {
        Verdict::Approve => "Approve"@,
        Verdict::RequestChanges => "RequestChanges"@,
        Verdict::Comment => "Comment"@,
    }
}

impl Stored for Verdict {
    type Value = Verdict;

    open spec fn value(&self) -> Verdict {
        *self
    }

    open spec fn absent() -> Option<Verdict> {
        None
    }

    open spec fn layout(node: Node, value: Verdict) -> bool {
        node matches Node::Tree(tree) && tree@.dom() == set![verdict_name(value)] && is_empty_tree(
            tree@[verdict_name(value)],
        )
    }

    open spec fn parsed(node: Node) -> Option<Verdict> {
        match node {
            Node::Blob(_) => None,
            Node::Tree(tree) => if tree@.contains_key("Approve"@) {
                Some(Verdict::Approve)
            } else if tree@.contains_key("RequestChanges"@) {
                Some(Verdict::RequestChanges)
            } else if tree@.contains_key("Comment"@) {
                Some(Verdict::Comment)
            } else {
                None
            },
        }
    }

    proof fn lemma_reads_back(node: Node, value: Verdict) {
        reveal_strlit("Approve");
        reveal_strlit("RequestChanges");
        reveal_strlit("Comment");
        assert("Approve"@.len() != "RequestChanges"@.len());
        assert("Approve"@[0] != "Comment"@[0]);
        assert("RequestChanges"@.len() != "Comment"@.len());
        if let Node::Tree(tree) = node {
            assert(tree@.contains_key("Approve"@) == tree@.dom().contains("Approve"@));
            assert(tree@.contains_key("RequestChanges"@) == tree@.dom().contains(
                "RequestChanges"@,
            ));
            assert(tree@.contains_key("Comment"@) == tree@.dom().contains("Comment"@));
        }
    }

    fn missing() -> (r: Option<Verdict>) {
        None
    }

    fn write(&self) -> (r: Node) {
        let name = match self {
            Verdict::Approve => "Approve",
            Verdict::RequestChanges => "RequestChanges",
            Verdict::Comment => "Comment",
        };
        write_variant(name)
    }

    fn read(node: &Node) -> (r: Option<Verdict>) {
        match node {
            Node::Blob(_) => None,
            Node::Tree(tree) => if tree.contains_key("Approve") {
                Some(Verdict::Approve)
            } else if tree.contains_key("RequestChanges") {
                Some(Verdict::RequestChanges)
            } else if tree.contains_key("Comment") {
                Some(Verdict::Comment)
            } else {
                None
            },
        }
    }
}

/// What trust means.
pub enum TrustValue {
    /// Leaf keys by their fingerprints.
    Keys(Map<Seq<char>, Seq<char>>),
    /// A certificate authority's key.
    CertAuthority(Seq<char>),
    /// Passkeys by their ids.
    WebAuthn(Map<Seq<char>, WebAuthnValue>),
}

impl Stored for Trust {
    type Value = TrustValue;

    open spec fn value(&self) -> TrustValue {
        match *self {
            Trust::Keys(keys) => TrustValue::Keys(keys.value()),
            Trust::CertAuthority(ca) => TrustValue::CertAuthority(ca@),
            Trust::WebAuthn(keys) => TrustValue::WebAuthn(keys.value()),
        }
    }

    open spec fn absent() -> Option<TrustValue> {
        None
    }

    open spec fn layout(node: Node, value: TrustValue) -> bool {
        match value {
            TrustValue::Keys(keys) => single::<TextMap<String>>(node, "Keys"@, keys),
            TrustValue::CertAuthority(ca) => single::<String>(node, "CertAuthority"@, ca),
            TrustValue::WebAuthn(keys) => single::<TextMap<WebAuthnKey>>(node, "WebAuthn"@, keys),
        }
    }

    open spec fn parsed(node: Node) -> Option<TrustValue> {
        match node {
            Node::Blob(_) => None,
            Node::Tree(tree) => if tree@.contains_key("Keys"@) {
                match TextMap::<String>::parsed(tree@["Keys"@]) {
                    Some(keys) => Some(TrustValue::Keys(keys)),
                    None => None,
                }
            } else if tree@.contains_key("CertAuthority"@) {
                match String::parsed(tree@["CertAuthority"@]) {
                    Some(ca) => Some(TrustValue::CertAuthority(ca)),
                    None => None,
                }
            } else if tree@.contains_key("WebAuthn"@) {
                match TextMap::<WebAuthnKey>::parsed(tree@["WebAuthn"@]) {
                    Some(keys) => Some(TrustValue::WebAuthn(keys)),
                    None => None,
                }
            } else {
                None
            },
        }
    }

    proof fn lemma_reads_back(node: Node, value: TrustValue) {
        reveal_strlit("Keys");
        reveal_strlit("CertAuthority");
        reveal_strlit("WebAuthn");
        assert("Keys"@.len() != "CertAuthority"@.len());
        assert("Keys"@.len() != "WebAuthn"@.len());
        assert("CertAuthority"@.len() != "WebAuthn"@.len());
        if let Node::Tree(tree) = node {
            assert(tree@.contains_key("Keys"@) == tree@.dom().contains("Keys"@));
            assert(tree@.contains_key("CertAuthority"@) == tree@.dom().contains("CertAuthority"@));
        }
        match value {
            TrustValue::Keys(keys) => lemma_field::<TextMap<String>>(node, "Keys"@, keys),
            TrustValue::CertAuthority(ca) => lemma_field::<String>(node, "CertAuthority"@, ca),
            TrustValue::WebAuthn(keys) => lemma_field::<TextMap<WebAuthnKey>>(
                node,
                "WebAuthn"@,
                keys,
            ),
        }
    }

    fn missing() -> (r: Option<Trust>) {
        None
    }

    fn write(&self) -> (r: Node) {
        match self {
            Trust::Keys(keys) => write_single("Keys", keys),
            Trust::CertAuthority(ca) => write_single("CertAuthority", ca),
            Trust::WebAuthn(keys) => write_single("WebAuthn", keys),
        }
    }

    fn read(node: &Node) -> (r: Option<Trust>) {
        let tree = match node {
            Node::Blob(_) => return None,
            Node::Tree(tree) => tree,
        };
        if let Some(inner) = tree.get("Keys") {
            match TextMap::<String>::read(inner) {
                Some(keys) => Some(Trust::Keys(keys)),
                None => None,
            }
        } else if let Some(inner) = tree.get("CertAuthority") {
            match String::read(inner) {
                Some(ca) => Some(Trust::CertAuthority(ca)),
                None => None,
            }
        } else if let Some(inner) = tree.get("WebAuthn") {
            match TextMap::<WebAuthnKey>::read(inner) {
                Some(keys) => Some(Trust::WebAuthn(keys)),
                None => None,
            }
        } else {
            None
        }
    }
}

/// What a member means.
pub struct MemberValue {
    /// The name.
    pub principal: Seq<char>,
    /// When trust begins.
    pub valid_after: Option<Seq<char>>,
    /// When trust ends.
    pub valid_before: Option<Seq<char>>,
    /// What trust rests on.
    pub trust: TrustValue,
    /// How the member came.
    pub provenance: Provenance,
    /// The linked account.
    pub account: Option<Seq<char>>,
}

impl Stored for Member {
    type Value = MemberValue;

    open spec fn value(&self) -> MemberValue {
        MemberValue {
            principal: self.principal@,
            valid_after: self.valid_after.value(),
            valid_before: self.valid_before.value(),
            trust: self.trust.value(),
            provenance: self.provenance.value(),
            account: self.account.value(),
        }
    }

    open spec fn absent() -> Option<MemberValue> {
        None
    }

    open spec fn layout(node: Node, value: MemberValue) -> bool {
        &&& has_fields(
            node,
            set![
                "principal"@,
                "valid_after"@,
                "valid_before"@,
                "trust"@,
                "provenance"@,
                "account"@,
            ],
        )
        &&& holds::<String>(node, "principal"@, value.principal)
        &&& holds::<Option<String>>(node, "valid_after"@, value.valid_after)
        &&& holds::<Option<String>>(node, "valid_before"@, value.valid_before)
        &&& holds::<Trust>(node, "trust"@, value.trust)
        &&& holds::<Provenance>(node, "provenance"@, value.provenance)
        &&& holds::<Option<String>>(node, "account"@, value.account)
    }

    open spec fn parsed(node: Node) -> Option<MemberValue> {
        match (
            field::<String>(node, "principal"@),
            field::<Option<String>>(node, "valid_after"@),
            field::<Option<String>>(node, "valid_before"@),
            field::<Trust>(node, "trust"@),
            field::<Provenance>(node, "provenance"@),
            field::<Option<String>>(node, "account"@),
        ) {
            (
                Some(principal),
                Some(valid_after),
                Some(valid_before),
                Some(trust),
                Some(provenance),
                Some(account),
            ) => Some(
                MemberValue {
                    principal,
                    valid_after,
                    valid_before,
                    trust,
                    provenance,
                    account,
                },
            ),
            _ => None,
        }
    }

    proof fn lemma_reads_back(node: Node, value: MemberValue) {
        lemma_field::<String>(node, "principal"@, value.principal);
        lemma_field::<Option<String>>(node, "valid_after"@, value.valid_after);
        lemma_field::<Option<String>>(node, "valid_before"@, value.valid_before);
        lemma_field::<Trust>(node, "trust"@, value.trust);
        lemma_field::<Provenance>(node, "provenance"@, value.provenance);
        lemma_field::<Option<String>>(node, "account"@, value.account);
    }

    fn missing() -> (r: Option<Member>) {
        None
    }

    fn write(&self) -> (r: Node) {
        proof {
            reveal_strlit("principal");
            reveal_strlit("valid_after");
            reveal_strlit("valid_before");
            reveal_strlit("trust");
            reveal_strlit("provenance");
            reveal_strlit("account");
            assert("principal"@.len() != "valid_after"@.len());
            assert("principal"@.len() != "valid_before"@.len());
            assert("principal"@.len() != "trust"@.len());
            assert("principal"@.len() != "provenance"@.len());
            assert("principal"@.len() != "account"@.len());
            assert("valid_after"@.len() != "valid_before"@.len());
            assert("valid_after"@.len() != "trust"@.len());
            assert("valid_after"@.len() != "provenance"@.len());
            assert("valid_after"@.len() != "account"@.len());
            assert("valid_before"@.len() != "trust"@.len());
            assert("valid_before"@.len() != "provenance"@.len());
            assert("valid_before"@.len() != "account"@.len());
            assert("trust"@.len() != "provenance"@.len());
            assert("trust"@.len() != "account"@.len());
            assert("provenance"@.len() != "account"@.len());
        }
        let mut tree: TextMap<Node> = TextMap::new();
        put_field(&mut tree, "principal", &self.principal);
        put_field(&mut tree, "valid_after", &self.valid_after);
        put_field(&mut tree, "valid_before", &self.valid_before);
        put_field(&mut tree, "trust", &self.trust);
        put_field(&mut tree, "provenance", &self.provenance);
        put_field(&mut tree, "account", &self.account);
        proof {
            assert(tree@.dom() =~= set![
                "principal"@,
                "valid_after"@,
                "valid_before"@,
                "trust"@,
                "provenance"@,
                "account"@,
            ]);
        }
        Node::Tree(tree)
    }

    fn read(node: &Node) -> (r: Option<Member>) {
        match (
            read_field::<String>(node, "principal"),
            read_field::<Option<String>>(node, "valid_after"),
            read_field::<Option<String>>(node, "valid_before"),
            read_field::<Trust>(node, "trust"),
            read_field::<Provenance>(node, "provenance"),
            read_field::<Option<String>>(node, "account"),
        ) {
            (
                Some(principal),
                Some(valid_after),
                Some(valid_before),
                Some(trust),
                Some(provenance),
                Some(account),
            ) => Some(
                Member {
                    principal,
                    valid_after,
                    valid_before,
                    trust,
                    provenance,
                    account,
                },
            ),
            _ => None,
        }
    }
}

/// What a look at a target means.
pub struct ReviewValue {
    /// Whose it is.
    pub principal: Seq<char>,
    /// What it says.
    pub verdict: Verdict,
    /// The remarks.
    pub body: Seq<char>,
}

impl Stored for Review {
    type Value = ReviewValue;

    open spec fn value(&self) -> ReviewValue {
        ReviewValue {
            principal: self.principal@,
            verdict: self.verdict.value(),
            body: self.body@,
        }
    }

    open spec fn absent() -> Option<ReviewValue> {
        None
    }

    open spec fn layout(node: Node, value: ReviewValue) -> bool {
        &&& has_fields(node, set!["principal"@, "verdict"@, "body"@])
        &&& holds::<String>(node, "principal"@, value.principal)
        &&& holds::<Verdict>(node, "verdict"@, value.verdict)
        &&& holds::<String>(node, "body"@, value.body)
    }

    open spec fn parsed(node: Node) -> Option<ReviewValue> {
        match (
            field::<String>(node, "principal"@),
            field::<Verdict>(node, "verdict"@),
            field::<String>(node, "body"@),
        ) {
            (Some(principal), Some(verdict), Some(body)) => Some(
                ReviewValue { principal, verdict, body },
            ),
            _ => None,
        }
    }

    proof fn lemma_reads_back(node: Node, value: ReviewValue) {
        lemma_field::<String>(node, "principal"@, value.principal);
        lemma_field::<Verdict>(node, "verdict"@, value.verdict);
        lemma_field::<String>(node, "body"@, value.body);
    }

    fn missing() -> (r: Option<Review>) {
        None
    }

    fn write(&self) -> (r: Node) {
        proof {
            reveal_strlit("principal");
            reveal_strlit("verdict");
            reveal_strlit("body");
            assert("principal"@.len() != "verdict"@.len());
            assert("principal"@.len() != "body"@.len());
            assert("verdict"@.len() != "body"@.len());
        }
        let mut tree: TextMap<Node> = TextMap::new();
        put_field(&mut tree, "principal", &self.principal);
        put_field(&mut tree, "verdict", &self.verdict);
        put_field(&mut tree, "body", &self.body);
        proof {
            assert(tree@.dom() =~= set!["principal"@, "verdict"@, "body"@]);
        }
        Node::Tree(tree)
    }

    fn read(node: &Node) -> (r: Option<Review>) {
        match (
            read_field::<String>(node, "principal"),
            read_field::<Verdict>(node, "verdict"),
            read_field::<String>(node, "body"),
        ) {
            (Some(principal), Some(verdict), Some(body)) => Some(
                Review { principal, verdict, body },
            ),
            _ => None,
        }
    }
}

/// What a stored check means.
pub struct CheckBodyValue {
    /// The command.
    pub command: Seq<char>,
}

impl Stored for CheckBody {
    type Value = CheckBodyValue;

    open spec fn value(&self) -> CheckBodyValue {
        CheckBodyValue {
            command: self.command@,
        }
    }

    open spec fn absent() -> Option<CheckBodyValue> {
        None
    }

    open spec fn layout(node: Node, value: CheckBodyValue) -> bool {
        &&& has_fields(node, set!["command"@])
        &&& holds::<String>(node, "command"@, value.command)
    }

    open spec fn parsed(node: Node) -> Option<CheckBodyValue> {
        match field::<String>(node, "command"@) {
            Some(command) => Some(CheckBodyValue { command }),
            _ => None,
        }
    }

    proof fn lemma_reads_back(node: Node, value: CheckBodyValue) {
        lemma_field::<String>(node, "command"@, value.command);
    }

    fn missing() -> (r: Option<CheckBody>) {
        None
    }

    fn write(&self) -> (r: Node) {
        let mut tree: TextMap<Node> = TextMap::new();
        put_field(&mut tree, "command", &self.command);
        proof {
            assert(tree@.dom() =~= set!["command"@]);
        }
        Node::Tree(tree)
    }

    fn read(node: &Node) -> (r: Option<CheckBody>) {
        match read_field::<String>(node, "command") {
            Some(command) => Some(CheckBody { command }),
            _ => None,
        }
    }
}

/// What a stored revocation means.
pub struct RevocationBodyValue {
    /// The reason.
    pub reason: Seq<char>,
}

impl Stored for RevocationBody {
    type Value = RevocationBodyValue;

    open spec fn value(&self) -> RevocationBodyValue {
        RevocationBodyValue {
            reason: self.reason@,
        }
    }

    open spec fn absent() -> Option<RevocationBodyValue> {
        None
    }

    open spec fn layout(node: Node, value: RevocationBodyValue) -> bool {
        &&& has_fields(node, set!["reason"@])
        &&& holds::<String>(node, "reason"@, value.reason)
    }

    open spec fn parsed(node: Node) -> Option<RevocationBodyValue> {
        match field::<String>(node, "reason"@) {
            Some(reason) => Some(RevocationBodyValue { reason }),
            _ => None,
        }
    }

    proof fn lemma_reads_back(node: Node, value: RevocationBodyValue) {
        lemma_field::<String>(node, "reason"@, value.reason);
    }

    fn missing() -> (r: Option<RevocationBody>) {
        None
    }

    fn write(&self) -> (r: Node) {
        let mut tree: TextMap<Node> = TextMap::new();
        put_field(&mut tree, "reason", &self.reason);
        proof {
            assert(tree@.dom() =~= set!["reason"@]);
        }
        Node::Tree(tree)
    }

    fn read(node: &Node) -> (r: Option<RevocationBody>) {
        match read_field::<String>(node, "reason") {
            Some(reason) => Some(RevocationBody { reason }),
            _ => None,
        }
    }
}

/// A check's stored body, with what the server runs it by.
#[derive(Debug, Clone, PartialEq, Eq)]
pub struct EffectBody {
    /// The shell command; none for a composite.
    pub command: Option<String>,
    /// The sandbox image.
    pub image: Option<String>,
    /// The checks that have to pass first.
    pub depends: Vec<String>,
    /// The toolchains to put on the path.
    pub toolchains: Vec<String>,
}

/// What the stored body of a check means.
pub struct EffectValue {
    /// The command.
    pub command: Option<Seq<char>>,
    /// The image.
    pub image: Option<Seq<char>>,
    /// What it depends on.
    pub depends: Seq<Seq<char>>,
    /// The toolchains.
    pub toolchains: Seq<Seq<char>>,
}

impl Stored for EffectBody {
    type Value = EffectValue;

    open spec fn value(&self) -> EffectValue {
        EffectValue {
            command: self.command.value(),
            image: self.image.value(),
            depends: self.depends.value(),
            toolchains: self.toolchains.value(),
        }
    }

    open spec fn absent() -> Option<EffectValue> {
        None
    }

    open spec fn layout(node: Node, value: EffectValue) -> bool {
        &&& has_fields(node, set!["command"@, "image"@, "depends"@, "toolchains"@])
        &&& holds::<Option<String>>(node, "command"@, value.command)
        &&& holds::<Option<String>>(node, "image"@, value.image)
        &&& holds::<Vec<String>>(node, "depends"@, value.depends)
        &&& holds::<Vec<String>>(node, "toolchains"@, value.toolchains)
    }

    open spec fn parsed(node: Node) -> Option<EffectValue> {
        match (
            field::<Option<String>>(node, "command"@),
            field::<Option<String>>(node, "image"@),
            field::<Vec<String>>(node, "depends"@),
            field::<Vec<String>>(node, "toolchains"@),
        ) {
            (Some(command), Some(image), Some(depends), Some(toolchains)) => Some(
                EffectValue { command, image, depends, toolchains },
            ),
            _ => None,
        }
    }

    proof fn lemma_reads_back(node: Node, value: EffectValue) {
        lemma_field::<Option<String>>(node, "command"@, value.command);
        lemma_field::<Option<String>>(node, "image"@, value.image);
        lemma_field::<Vec<String>>(node, "depends"@, value.depends);
        lemma_field::<Vec<String>>(node, "toolchains"@, value.toolchains);
    }

    fn missing() -> (r: Option<EffectBody>) {
        None
    }

    fn write(&self) -> (r: Node) {
        proof {
            reveal_strlit("command");
            reveal_strlit("image");
            reveal_strlit("depends");
            reveal_strlit("toolchains");
            assert("command"@.len() != "image"@.len());
            assert("command"@[0] != "depends"@[0]);
            assert("command"@.len() != "toolchains"@.len());
            assert("image"@.len() != "depends"@.len());
            assert("image"@.len() != "toolchains"@.len());
            assert("depends"@.len() != "toolchains"@.len());
        }
        let mut tree: TextMap<Node> = TextMap::new();
        put_field(&mut tree, "command", &self.command);
        put_field(&mut tree, "image", &self.image);
        put_field(&mut tree, "depends", &self.depends);
        put_field(&mut tree, "toolchains", &self.toolchains);
        proof {
            assert(tree@.dom() =~= set!["command"@, "image"@, "depends"@, "toolchains"@]);
        }
        Node::Tree(tree)
    }

    fn read(node: &Node) -> (r: Option<EffectBody>) {
        match (
            read_field::<Option<String>>(node, "command"),
            read_field::<Option<String>>(node, "image"),
            read_field::<Vec<String>>(node, "depends"),
            read_field::<Vec<String>>(node, "toolchains"),
        ) {
            (Some(command), Some(image), Some(depends), Some(toolchains)) => Some(
                EffectBody { command, image, depends, toolchains },
            ),
            _ => None,
        }
    }
}

/// A status is stored as the word it is shown by.
impl Stored for Status {
    type Value = Status;

    open spec fn value(&self) -> Status {
        *self
    }

    open spec fn absent() -> Option<Status> {
        None
    }

    open spec fn layout(node: Node, value: Status) -> bool {
        node matches Node::Blob(text) && text@ == word_of(value)
    }

    open spec fn parsed(node: Node) -> Option<Status> {
        match node {
            Node::Blob(text) => status_of(text@),
            Node::Tree(_) => None,
        }
    }

    proof fn lemma_reads_back(node: Node, value: Status) {
        reveal_strlit("queued");
        reveal_strlit("running");
        reveal_strlit("pass");
        reveal_strlit("fail");
        reveal_strlit("error");
        reveal_strlit("skipped");
        assert("queued"@.len() == 6 && "running"@.len() == 7 && "pass"@.len() == 4);
        assert("fail"@.len() == 4 && "error"@.len() == 5 && "skipped"@.len() == 7);
        assert("pass"@[0] != "fail"@[0]);
        assert("running"@[0] != "skipped"@[0]);
    }

    fn missing() -> (r: Option<Status>) {
        None
    }

    fn write(&self) -> (r: Node) {
        Node::Blob(status_word(*self).to_owned())
    }

    fn read(node: &Node) -> (r: Option<Status>) {
        let text = match node {
            Node::Blob(text) => text.as_str(),
            Node::Tree(_) => return None,
        };
        if same(text, "queued") {
            Some(Status::Queued)
        } else if same(text, "running") {
            Some(Status::Running)
        } else if same(text, "pass") {
            Some(Status::Pass)
        } else if same(text, "fail") {
            Some(Status::Fail)
        } else if same(text, "error") {
            Some(Status::Error)
        } else if same(text, "skipped") {
            Some(Status::Skipped)
        } else {
            None
        }
    }
}

/// The status that a word stands for.
pub open spec fn status_of(word: Seq<char>) -> Option<Status> {
    if word == "queued"@ {
        Some(Status::Queued)
    } else if word == "running"@ {
        Some(Status::Running)
    } else if word == "pass"@ {
        Some(Status::Pass)
    } else if word == "fail"@ {
        Some(Status::Fail)
    } else if word == "error"@ {
        Some(Status::Error)
    } else if word == "skipped"@ {
        Some(Status::Skipped)
    } else {
        None
    }
}

/// A number in decimal, with a minus sign where it is negative.
pub open spec fn signed_decimal(n: int) -> Seq<char> {
    if n < 0 {
        seq!['-'] + decimal((-n) as nat)
    } else {
        decimal(n as nat)
    }
}

/// The number that a signed decimal stands for, where it fits an `i32`.
pub open spec fn parsed_signed(s: Seq<char>) -> Option<int> {
    if s.len() > 0 && s[0] == '-' {
        match parsed_decimal(s.skip(1), 0x8000_0000) {
            Some(n) => Some(-(n as int)),
            None => None,
        }
    } else {
        match parsed_decimal(s, 0x7fff_ffff) {
            Some(n) => Some(n as int),
            None => None,
        }
    }
}

impl Stored for i32 {
    type Value = i32;

    open spec fn value(&self) -> i32 {
        *self
    }

    open spec fn absent() -> Option<i32> {
        None
    }

    open spec fn layout(node: Node, value: i32) -> bool {
        node matches Node::Blob(text) && text@ == signed_decimal(value as int)
    }

    open spec fn parsed(node: Node) -> Option<i32> {
        match node {
            Node::Blob(text) => match parsed_signed(text@) {
                Some(n) => Some(n as i32),
                None => None,
            },
            Node::Tree(_) => None,
        }
    }

    proof fn lemma_reads_back(node: Node, value: i32) {
        if value < 0 {
            let n = (-(value as int)) as nat;
            lemma_decimal_round_trip(n, 0x8000_0000);
            assert((seq!['-'] + decimal(n)).skip(1) =~= decimal(n));
        } else {
            lemma_decimal_round_trip(value as nat, 0x7fff_ffff);
            assert(is_digit(decimal(value as nat)[0]));
        }
    }

    fn missing() -> (r: Option<i32>) {
        None
    }

    fn write(&self) -> (r: Node) {
        if *self < 0 {
            let mut text = "-".to_owned();
            text.append(to_decimal((-(*self as i64)) as u64).as_str());
            proof {
                reveal_strlit("-");
                assert("-"@ =~= seq!['-']);
            }
            Node::Blob(text)
        } else {
            Node::Blob(to_decimal(*self as u64))
        }
    }

    fn read(node: &Node) -> (r: Option<i32>) {
        let text = match node {
            Node::Blob(text) => text.as_str(),
            Node::Tree(_) => return None,
        };
        proof {
            reveal_strlit("-");
            assert("-"@ =~= seq!['-']);
            assert(text@.len() > 0 ==> text@.take(1) =~= seq![text@[0]]);
        }
        match strip_prefix(text, "-") {
            Some(digits) => {
                proof {
                    assert(text@[0] == text@.take(1)[0]);
                }
                match parse_decimal(digits, 0x8000_0000) {
                    Some(n) => {
                        let negated: i64 = -(n as i64);
                        Some(negated as i32)
                    },
                    None => None,
                }
            },
            None => match parse_decimal(text, 0x7fff_ffff) {
                Some(n) => Some(n as i32),
                None => None,
            },
        }
    }
}

/// A check's stored outcome, with its terminal session.
#[derive(Debug, Clone, PartialEq, Eq)]
pub struct RunBody {
    /// How the check stands.
    pub outcome: Status,
    /// How long it took.
    pub duration_secs: Option<u64>,
    /// Its terminal session.
    pub recording: Option<String>,
    /// Its exit code.
    pub exit_code: Option<i32>,
}

/// What the stored outcome of a check means.
pub struct RunBodyValue {
    /// How the check stands.
    pub outcome: Status,
    /// How long it took.
    pub duration_secs: Option<u64>,
    /// Its terminal session.
    pub recording: Option<Seq<char>>,
    /// Its exit code.
    pub exit_code: Option<i32>,
}

impl Stored for RunBody {
    type Value = RunBodyValue;

    open spec fn value(&self) -> RunBodyValue {
        RunBodyValue {
            outcome: self.outcome.value(),
            duration_secs: self.duration_secs.value(),
            recording: self.recording.value(),
            exit_code: self.exit_code.value(),
        }
    }

    open spec fn absent() -> Option<RunBodyValue> {
        None
    }

    open spec fn layout(node: Node, value: RunBodyValue) -> bool {
        &&& has_fields(node, set!["outcome"@, "duration_secs"@, "recording"@, "exit_code"@])
        &&& holds::<Status>(node, "outcome"@, value.outcome)
        &&& holds::<Option<u64>>(node, "duration_secs"@, value.duration_secs)
        &&& holds::<Option<String>>(node, "recording"@, value.recording)
        &&& holds::<Option<i32>>(node, "exit_code"@, value.exit_code)
    }

    open spec fn parsed(node: Node) -> Option<RunBodyValue> {
        match (
            field::<Status>(node, "outcome"@),
            field::<Option<u64>>(node, "duration_secs"@),
            field::<Option<String>>(node, "recording"@),
            field::<Option<i32>>(node, "exit_code"@),
        ) {
            (Some(outcome), Some(duration_secs), Some(recording), Some(exit_code)) => Some(
                RunBodyValue { outcome, duration_secs, recording, exit_code },
            ),
            _ => None,
        }
    }

    proof fn lemma_reads_back(node: Node, value: RunBodyValue) {
        lemma_field::<Status>(node, "outcome"@, value.outcome);
        lemma_field::<Option<u64>>(node, "duration_secs"@, value.duration_secs);
        lemma_field::<Option<String>>(node, "recording"@, value.recording);
        lemma_field::<Option<i32>>(node, "exit_code"@, value.exit_code);
    }

    fn missing() -> (r: Option<RunBody>) {
        None
    }

    fn write(&self) -> (r: Node) {
        proof {
            reveal_strlit("outcome");
            reveal_strlit("duration_secs");
            reveal_strlit("recording");
            reveal_strlit("exit_code");
            assert("outcome"@.len() != "duration_secs"@.len());
            assert("outcome"@.len() != "recording"@.len());
            assert("outcome"@.len() != "exit_code"@.len());
            assert("duration_secs"@.len() != "recording"@.len());
            assert("duration_secs"@.len() != "exit_code"@.len());
            assert("recording"@[0] != "exit_code"@[0]);
        }
        let mut tree: TextMap<Node> = TextMap::new();
        put_field(&mut tree, "outcome", &self.outcome);
        put_field(&mut tree, "duration_secs", &self.duration_secs);
        put_field(&mut tree, "recording", &self.recording);
        put_field(&mut tree, "exit_code", &self.exit_code);
        proof {
            assert(tree@.dom() =~= set!["outcome"@, "duration_secs"@, "recording"@, "exit_code"@]);
        }
        Node::Tree(tree)
    }

    fn read(node: &Node) -> (r: Option<RunBody>) {
        match (
            read_field::<Status>(node, "outcome"),
            read_field::<Option<u64>>(node, "duration_secs"),
            read_field::<Option<String>>(node, "recording"),
            read_field::<Option<i32>>(node, "exit_code"),
        ) {
            (Some(outcome), Some(duration_secs), Some(recording), Some(exit_code)) => Some(
                RunBody { outcome, duration_secs, recording, exit_code },
            ),
            _ => None,
        }
    }
}

/// Law: a role's rules is stored field by field, each under its own name and as it is,
/// and is read from the fields of those names.
pub proof fn law_role_is_stored_by_name(node: Node, rules: RoleRules)
    ensures
        RoleRules::parsed(node) == Some(rules.value()) <==> field::<Vec<String>>(node, "allow"@) == Some(texts(rules.allow@)) && field::<Vec<String>>(node, "deny"@) == Some(texts(rules.deny@)),
        RoleRules::layout(node, rules.value()) ==> field::<Vec<String>>(node, "allow"@) == Some(texts(rules.allow@)) && field::<Vec<String>>(node, "deny"@) == Some(texts(rules.deny@)),
        RoleRules::layout(node, rules.value()) ==> (node matches Node::Tree(tree) && tree@.dom() == set!["allow"@, "deny"@]),
{
    assert(list_value(rules.allow@) =~= texts(rules.allow@));
    assert(list_value(rules.deny@) =~= texts(rules.deny@));
    if RoleRules::layout(node, rules.value()) {
        RoleRules::lemma_reads_back(node, rules.value());
    }
}

/// Law: a configuration is stored field by field, each under its own name and as it is,
/// and is read from the fields of those names.
pub proof fn law_config_is_stored_by_name(node: Node, config: Config)
    ensures
        Config::parsed(node) == Some(config.value()) <==> field::<String>(node, "description"@) == Some(config.description@) && field::<String>(node, "homepage"@) == Some(config.homepage@) && field::<Vec<String>>(node, "topics"@) == Some(texts(config.topics@)) && field::<TextMap<RoleRules>>(node, "roles"@) == Some(config.roles.value()),
        Config::layout(node, config.value()) ==> field::<String>(node, "description"@) == Some(config.description@) && field::<String>(node, "homepage"@) == Some(config.homepage@) && field::<Vec<String>>(node, "topics"@) == Some(texts(config.topics@)) && field::<TextMap<RoleRules>>(node, "roles"@) == Some(config.roles.value()),
        Config::layout(node, config.value()) ==> (node matches Node::Tree(tree) && tree@.dom() == set!["description"@, "homepage"@, "topics"@, "roles"@]),
{
    assert(list_value(config.topics@) =~= texts(config.topics@));
    if Config::layout(node, config.value()) {
        Config::lemma_reads_back(node, config.value());
    }
}

/// Law: an account is stored field by field, each under its own name and as it is,
/// and is read from the fields of those names.
pub proof fn law_account_is_stored_by_name(node: Node, account: Account)
    ensures
        Account::parsed(node) == Some(account.value()) <==> field::<String>(node, "username"@) == Some(account.username@) && field::<String>(node, "display_name"@) == Some(account.display_name@) && field::<String>(node, "bio"@) == Some(account.bio@) && field::<u64>(node, "created_at"@) == Some(account.created_at),
        Account::layout(node, account.value()) ==> field::<String>(node, "username"@) == Some(account.username@) && field::<String>(node, "display_name"@) == Some(account.display_name@) && field::<String>(node, "bio"@) == Some(account.bio@) && field::<u64>(node, "created_at"@) == Some(account.created_at),
        Account::layout(node, account.value()) ==> (node matches Node::Tree(tree) && tree@.dom() == set!["username"@, "display_name"@, "bio"@, "created_at"@]),
{
    if Account::layout(node, account.value()) {
        Account::lemma_reads_back(node, account.value());
    }
}

/// Law: an issue is stored field by field, each under its own name and as it is,
/// and is read from the fields of those names.
pub proof fn law_issue_is_stored_by_name(node: Node, issue: Issue)
    ensures
        Issue::parsed(node) == Some(issue.value()) <==> field::<String>(node, "title"@) == Some(issue.title@) && field::<String>(node, "body"@) == Some(issue.body@) && field::<String>(node, "state"@) == Some(issue.state@) && field::<Vec<String>>(node, "labels"@) == Some(texts(issue.labels@)) && field::<String>(node, "author"@) == Some(issue.author@),
        Issue::layout(node, issue.value()) ==> field::<String>(node, "title"@) == Some(issue.title@) && field::<String>(node, "body"@) == Some(issue.body@) && field::<String>(node, "state"@) == Some(issue.state@) && field::<Vec<String>>(node, "labels"@) == Some(texts(issue.labels@)) && field::<String>(node, "author"@) == Some(issue.author@),
        Issue::layout(node, issue.value()) ==> (node matches Node::Tree(tree) && tree@.dom() == set!["title"@, "body"@, "state"@, "labels"@, "author"@]),
{
    assert(list_value(issue.labels@) =~= texts(issue.labels@));
    if Issue::layout(node, issue.value()) {
        Issue::lemma_reads_back(node, issue.value());
    }
}

/// Law: an outcome is stored field by field, each under its own name and as it is,
/// and is read from the fields of those names.
pub proof fn law_outcome_is_stored_by_name(node: Node, outcome: Outcome)
    ensures
        Outcome::parsed(node) == Some(outcome.value()) <==> field::<String>(node, "outcome"@) == Some(outcome.outcome@) && field::<Option<u64>>(node, "duration_secs"@) == Some(outcome.duration_secs) && field::<Option<String>>(node, "log_url"@) == Some(opt_text(outcome.log_url)),
        Outcome::layout(node, outcome.value()) ==> field::<String>(node, "outcome"@) == Some(outcome.outcome@) && field::<Option<u64>>(node, "duration_secs"@) == Some(outcome.duration_secs) && field::<Option<String>>(node, "log_url"@) == Some(opt_text(outcome.log_url)),
        Outcome::layout(node, outcome.value()) ==> (node matches Node::Tree(tree) && tree@.dom() == set!["outcome"@, "duration_secs"@, "log_url"@]),
{
    if Outcome::layout(node, outcome.value()) {
        Outcome::lemma_reads_back(node, outcome.value());
    }
}

/// Law: an authorization is stored field by field, each under its own name and as it is,
/// and is read from the fields of those names.
pub proof fn law_authorization_is_stored_by_name(node: Node, authorization: Authorization)
    ensures
        Authorization::parsed(node) == Some(authorization.value()) <==> field::<String>(node, "key"@) == Some(authorization.key@) && field::<Option<String>>(node, "valid_after"@) == Some(opt_text(authorization.valid_after)) && field::<Option<String>>(node, "valid_before"@) == Some(opt_text(authorization.valid_before)),
        Authorization::layout(node, authorization.value()) ==> field::<String>(node, "key"@) == Some(authorization.key@) && field::<Option<String>>(node, "valid_after"@) == Some(opt_text(authorization.valid_after)) && field::<Option<String>>(node, "valid_before"@) == Some(opt_text(authorization.valid_before)),
        Authorization::layout(node, authorization.value()) ==> (node matches Node::Tree(tree) && tree@.dom() == set!["key"@, "valid_after"@, "valid_before"@]),
{
    if Authorization::layout(node, authorization.value()) {
        Authorization::lemma_reads_back(node, authorization.value());
    }
}

/// Law: a comment is stored field by field, each under its own name and as it is,
/// and is read from the fields of those names.
pub proof fn law_comment_is_stored_by_name(node: Node, comment: Comment)
    ensures
        Comment::parsed(node) == Some(comment.value()) <==> field::<String>(node, "body"@) == Some(comment.body@) && field::<String>(node, "author"@) == Some(comment.author@) && field::<String>(node, "issue_id"@) == Some(comment.issue_id@),
        Comment::layout(node, comment.value()) ==> field::<String>(node, "body"@) == Some(comment.body@) && field::<String>(node, "author"@) == Some(comment.author@) && field::<String>(node, "issue_id"@) == Some(comment.issue_id@),
        Comment::layout(node, comment.value()) ==> (node matches Node::Tree(tree) && tree@.dom() == set!["body"@, "author"@, "issue_id"@]),
{
    if Comment::layout(node, comment.value()) {
        Comment::lemma_reads_back(node, comment.value());
    }
}

/// Law: a passkey is stored field by field, each under its own name and as it is,
/// and is read from the fields of those names.
pub proof fn law_passkey_is_stored_by_name(node: Node, passkey: WebAuthnKey)
    ensures
        WebAuthnKey::parsed(node) == Some(passkey.value()) <==> field::<String>(node, "cose_key"@) == Some(passkey.cose_key@) && field::<String>(node, "label"@) == Some(passkey.label@),
        WebAuthnKey::layout(node, passkey.value()) ==> field::<String>(node, "cose_key"@) == Some(passkey.cose_key@) && field::<String>(node, "label"@) == Some(passkey.label@),
        WebAuthnKey::layout(node, passkey.value()) ==> (node matches Node::Tree(tree) && tree@.dom() == set!["cose_key"@, "label"@]),
{
    if WebAuthnKey::layout(node, passkey.value()) {
        WebAuthnKey::lemma_reads_back(node, passkey.value());
    }
}

/// Law: a member is stored field by field, each under its own name and as it is,
/// and is read from the fields of those names.
pub proof fn law_member_is_stored_by_name(node: Node, member: Member)
    ensures
        Member::parsed(node) == Some(member.value()) <==> field::<String>(node, "principal"@) == Some(member.principal@) && field::<Option<String>>(node, "valid_after"@) == Some(opt_text(member.valid_after)) && field::<Option<String>>(node, "valid_before"@) == Some(opt_text(member.valid_before)) && field::<Trust>(node, "trust"@) == Some(member.trust.value()) && field::<Provenance>(node, "provenance"@) == Some(member.provenance) && field::<Option<String>>(node, "account"@) == Some(opt_text(member.account)),
        Member::layout(node, member.value()) ==> field::<String>(node, "principal"@) == Some(member.principal@) && field::<Option<String>>(node, "valid_after"@) == Some(opt_text(member.valid_after)) && field::<Option<String>>(node, "valid_before"@) == Some(opt_text(member.valid_before)) && field::<Trust>(node, "trust"@) == Some(member.trust.value()) && field::<Provenance>(node, "provenance"@) == Some(member.provenance) && field::<Option<String>>(node, "account"@) == Some(opt_text(member.account)),
        Member::layout(node, member.value()) ==> (node matches Node::Tree(tree) && tree@.dom() == set!["principal"@, "valid_after"@, "valid_before"@, "trust"@, "provenance"@, "account"@]),
{
    if Member::layout(node, member.value()) {
        Member::lemma_reads_back(node, member.value());
    }
}

/// Law: a look at a change is stored field by field, each under its own name and as it is,
/// and is read from the fields of those names.
pub proof fn law_review_is_stored_by_name(node: Node, look: Review)
    ensures
        Review::parsed(node) == Some(look.value()) <==> field::<String>(node, "principal"@) == Some(look.principal@) && field::<Verdict>(node, "verdict"@) == Some(look.verdict) && field::<String>(node, "body"@) == Some(look.body@),
        Review::layout(node, look.value()) ==> field::<String>(node, "principal"@) == Some(look.principal@) && field::<Verdict>(node, "verdict"@) == Some(look.verdict) && field::<String>(node, "body"@) == Some(look.body@),
        Review::layout(node, look.value()) ==> (node matches Node::Tree(tree) && tree@.dom() == set!["principal"@, "verdict"@, "body"@]),
{
    if Review::layout(node, look.value()) {
        Review::lemma_reads_back(node, look.value());
    }
}

/// Law: a stored check is stored field by field, each under its own name and as it is,
/// and is read from the fields of those names.
pub proof fn law_check_body_is_stored_by_name(node: Node, check: CheckBody)
    ensures
        CheckBody::parsed(node) == Some(check.value()) <==> field::<String>(node, "command"@) == Some(check.command@),
        CheckBody::layout(node, check.value()) ==> field::<String>(node, "command"@) == Some(check.command@),
        CheckBody::layout(node, check.value()) ==> (node matches Node::Tree(tree) && tree@.dom() == set!["command"@]),
{
    if CheckBody::layout(node, check.value()) {
        CheckBody::lemma_reads_back(node, check.value());
    }
}

/// Law: a stored revocation is stored field by field, each under its own name and as it is,
/// and is read from the fields of those names.
pub proof fn law_revocation_body_is_stored_by_name(node: Node, revocation: RevocationBody)
    ensures
        RevocationBody::parsed(node) == Some(revocation.value()) <==> field::<String>(node, "reason"@) == Some(revocation.reason@),
        RevocationBody::layout(node, revocation.value()) ==> field::<String>(node, "reason"@) == Some(revocation.reason@),
        RevocationBody::layout(node, revocation.value()) ==> (node matches Node::Tree(tree) && tree@.dom() == set!["reason"@]),
{
    if RevocationBody::layout(node, revocation.value()) {
        RevocationBody::lemma_reads_back(node, revocation.value());
    }
}

/// Law: a check's stored body is stored field by field, each under its own name and as it is,
/// and is read from the fields of those names.
pub proof fn law_effect_body_is_stored_by_name(node: Node, check: EffectBody)
    ensures
        EffectBody::parsed(node) == Some(check.value()) <==> field::<Option<String>>(node, "command"@) == Some(opt_text(check.command)) && field::<Option<String>>(node, "image"@) == Some(opt_text(check.image)) && field::<Vec<String>>(node, "depends"@) == Some(texts(check.depends@)) && field::<Vec<String>>(node, "toolchains"@) == Some(texts(check.toolchains@)),
        EffectBody::layout(node, check.value()) ==> field::<Option<String>>(node, "command"@) == Some(opt_text(check.command)) && field::<Option<String>>(node, "image"@) == Some(opt_text(check.image)) && field::<Vec<String>>(node, "depends"@) == Some(texts(check.depends@)) && field::<Vec<String>>(node, "toolchains"@) == Some(texts(check.toolchains@)),
        EffectBody::layout(node, check.value()) ==> (node matches Node::Tree(tree) && tree@.dom() == set!["command"@, "image"@, "depends"@, "toolchains"@]),
{
    assert(list_value(check.depends@) =~= texts(check.depends@));
    assert(list_value(check.toolchains@) =~= texts(check.toolchains@));
    if EffectBody::layout(node, check.value()) {
        EffectBody::lemma_reads_back(node, check.value());
    }
}

/// Law: a check's stored outcome is stored field by field, each under its own name and as it is,
/// and is read from the fields of those names.
pub proof fn law_run_body_is_stored_by_name(node: Node, run: RunBody)
    ensures
        RunBody::parsed(node) == Some(run.value()) <==> field::<Status>(node, "outcome"@) == Some(run.outcome) && field::<Option<u64>>(node, "duration_secs"@) == Some(run.duration_secs) && field::<Option<String>>(node, "recording"@) == Some(opt_text(run.recording)) && field::<Option<i32>>(node, "exit_code"@) == Some(run.exit_code),
        RunBody::layout(node, run.value()) ==> field::<Status>(node, "outcome"@) == Some(run.outcome) && field::<Option<u64>>(node, "duration_secs"@) == Some(run.duration_secs) && field::<Option<String>>(node, "recording"@) == Some(opt_text(run.recording)) && field::<Option<i32>>(node, "exit_code"@) == Some(run.exit_code),
        RunBody::layout(node, run.value()) ==> (node matches Node::Tree(tree) && tree@.dom() == set!["outcome"@, "duration_secs"@, "recording"@, "exit_code"@]),
{
    if RunBody::layout(node, run.value()) {
        RunBody::lemma_reads_back(node, run.value());
    }
}

/// Law: how a member came in, and what a look says, are stored by name.
pub proof fn law_choices_are_stored_by_name(node: Node)
    ensures
        Provenance::layout(node, Provenance::AdminRegistered) ==> (node matches Node::Tree(tree)
            && tree@.dom() == set!["AdminRegistered"@]),
        Provenance::layout(node, Provenance::SelfAttestedWeb) ==> (node matches Node::Tree(tree)
            && tree@.dom() == set!["SelfAttestedWeb"@]),
        Verdict::layout(node, Verdict::Approve) ==> (node matches Node::Tree(tree) && tree@.dom()
            == set!["Approve"@]),
        Verdict::layout(node, Verdict::RequestChanges) ==> (node matches Node::Tree(tree)
            && tree@.dom() == set!["RequestChanges"@]),
        Verdict::layout(node, Verdict::Comment) ==> (node matches Node::Tree(tree) && tree@.dom()
            == set!["Comment"@]),
{
}

/// Law: what trust rests on is stored by name: keys under their fingerprints, an
/// authority's key, or passkeys under their ids.
pub proof fn law_trust_is_stored_by_name(
    node: Node,
    keys: TextMap<String>,
    ca: String,
    passkeys: TextMap<WebAuthnKey>,
)
    ensures
        Trust::layout(node, Trust::Keys(keys).value()) ==> (node matches Node::Tree(tree)
            && tree@.dom() == set!["Keys"@] && TextMap::<String>::parsed(tree@["Keys"@]) == Some(
            keys.value(),
        )),
        Trust::layout(node, Trust::CertAuthority(ca).value()) ==> (node matches Node::Tree(tree)
            && tree@.dom() == set!["CertAuthority"@] && (
        tree@["CertAuthority"@] matches Node::Blob(text) && text@ == ca@)),
        Trust::layout(node, Trust::WebAuthn(passkeys).value()) ==> (node matches Node::Tree(tree)
            && tree@.dom() == set!["WebAuthn"@] && TextMap::<WebAuthnKey>::parsed(
            tree@["WebAuthn"@],
        ) == Some(passkeys.value())),
{
    if let Node::Tree(tree) = node {
        if Trust::layout(node, Trust::Keys(keys).value()) {
            TextMap::<String>::lemma_reads_back(tree@["Keys"@], keys.value());
        }
        if Trust::layout(node, Trust::WebAuthn(passkeys).value()) {
            TextMap::<WebAuthnKey>::lemma_reads_back(tree@["WebAuthn"@], passkeys.value());
        }
    }
}

/// Law: a table is stored with an entry for each key, under that key, and holds
/// exactly those.
pub proof fn law_table_is_stored_by_key<T: Stored>(node: Node, table: TextMap<T>, key: Seq<char>)
    requires
        TextMap::<T>::layout(node, table.value()),
    ensures
        node matches Node::Tree(tree) && (tree@.contains_key(key) <==> table@.contains_key(key))
            && (table@.contains_key(key) ==> T::parsed(tree@[key]) == Some(table@[key].value())),
{
    TextMap::<T>::lemma_reads_back(node, table.value());
    if let Node::Tree(tree) = node {
        if table@.contains_key(key) {
            assert(table.value().contains_key(key));
            assert(table.value()[key] == table@[key].value());
            T::lemma_reads_back(tree@[key], table@[key].value());
        }
        if tree@.contains_key(key) {
            assert(tree@.dom().contains(key));
            assert(table.value().dom().contains(key));
        }
    }
}

/// Law: a number is stored as the digits that write it, a status as its word, an
/// optional value under `some`, and the items of a list under their numbers.
pub proof fn law_plain_values_are_stored_as_text(node: Node, n: u64, text: Seq<char>)
    ensures
        u64::layout(node, n) <==> (node matches Node::Blob(blob) && blob@ == decimal(n as nat)),
        String::layout(node, text) <==> (node matches Node::Blob(blob) && blob@ == text),
        Status::layout(node, Status::Pass) <==> (node matches Node::Blob(blob) && blob@
            == "pass"@),
        Status::layout(node, Status::Fail) <==> (node matches Node::Blob(blob) && blob@
            == "fail"@),
        Option::<String>::layout(node, Some(text)) ==> (node matches Node::Tree(tree)
            && tree@.dom() == set!["some"@] && (tree@["some"@] matches Node::Blob(blob) && blob@
            == text)),
        index_key(n as nat) == zero_padded(decimal(n as nat), 4),
{
}

} // verus!
