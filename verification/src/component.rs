//! The storage-layout traits that every meta-ref component implements, plus the
//! identity metadata that the command line and the server share.
//!
//! A component stores itself one of three ways: as a [`Document`] (a single
//! document on one ref), as a [`MapDocument`] (named entries in one map on one
//! ref), or as a [`Collection`] (one ref per item under a namespace).

use vstd::prelude::*;

use crate::account::{Account, ACCOUNT_REF};
use crate::checks::{
    assemble_outcome, stored, Check, CheckBody, Outcome, RunOutcome, CHECKS_REF,
};
use crate::comments::{Comment, COMMENTS_NS};
use crate::config::{Config, CONFIG_REF};
use crate::documents::{
    field, lemma_field, map_value, read_field, single, write_single, EffectBody, Node, RunBody,
    Stored,
};
use crate::issues::{Issue, ISSUES_NS};
use crate::keyed::{
    as_map, before, in_order, lemma_as_map_step, lemma_before_irreflexive, TextMap,
};
use crate::members::{Member, MEMBER_NS};
use crate::reviews::{Review, REVIEWS_NS};
use crate::revocations::{Revocation, RevocationBody, REVOKED_REF};
use crate::runner::{CheckDef, CheckRun};
use crate::signers::{Authorization, Signer, MEMBERS_REF};
use crate::text::{after_prefix, opt_text, starts, strip_prefix, texts};

verus! {

/// A type stored whole on a single meta ref.
pub trait Document: Stored {
    /// The ref the document lives on.
    const REF: &'static str;

    /// The ref the document lives on.
    spec fn ref_name() -> Seq<char>;

    /// The ref the document lives on.
    fn refname() -> (r: &'static str)
        ensures
            r@ == Self::ref_name(),
    ;
}

impl Document for Config {
    const REF: &'static str = CONFIG_REF;

    open spec fn ref_name() -> Seq<char> {
        CONFIG_REF@
    }

    fn refname() -> (r: &'static str) {
        Self::REF
    }
}

impl Document for Account {
    const REF: &'static str = ACCOUNT_REF;

    open spec fn ref_name() -> Seq<char> {
        ACCOUNT_REF@
    }

    fn refname() -> (r: &'static str) {
        Self::REF
    }
}

/// Whether what was loaded is what is stored: nothing where the ref is absent, a
/// failure where the document cannot be read.
pub open spec fn is_loaded<T: Stored>(loaded: Option<Option<T>>, node: Option<&Node>) -> bool {
    match node {
        None => loaded == Some(None::<T>),
        Some(node) => match T::parsed(*node) {
            Some(value) => loaded matches Some(Some(v)) && v.value() == value,
            None => loaded is None,
        },
    }
}

fn load_node<T: Stored>(node: Option<&Node>) -> (r: Option<Option<T>>)
    ensures
        is_loaded(r, node),
{
    match node {
        None => Some(None),
        Some(node) => match T::read(node) {
            Some(v) => Some(Some(v)),
            None => None,
        },
    }
}

/// Loads the document from what its ref holds: `Some(None)` when the ref is
/// absent, `None` when it cannot be read.
pub fn load<T: Document>(node: Option<&Node>) -> (r: Option<Option<T>>)
    ensures
        is_loaded(r, node),
{
    load_node(node)
}

/// The ref that a document is stored on, and what it holds then.
pub fn store<T: Document>(value: &T) -> (r: (&'static str, Node))
    ensures
        r.0@ == T::ref_name(),
        T::layout(r.1, value.value()),
{
    (T::refname(), value.write())
}

/// A type stored as an entry of a map, under a key of its own.
pub trait Keyed: Sized {
    /// The field of the document that holds the map.
    spec fn field_name() -> Seq<char>;

    /// The field of the document that holds the map.
    fn map_field() -> (r: &'static str)
        ensures
            r@ == Self::field_name(),
    ;

    /// The value stored per map key.
    type Body: Stored;

    /// The key an item is stored under.
    spec fn map_key(&self) -> Seq<char>;

    /// The value an item is stored as.
    spec fn map_body(&self) -> Self::Body;

    /// Assembles the item from its map key and stored body.
    fn compose(key: String, body: Self::Body) -> (r: Self)
        ensures
            r.map_key() == key@,
            r.map_body() == body,
    ;

    /// Splits the item back into its map key and stored body.
    fn decompose(self) -> (r: (String, Self::Body))
        ensures
            r.0@ == self.map_key(),
            r.1 == self.map_body(),
    ;
}

/// A type stored as one `<key> -> body` map document on a single ref.
pub trait MapDocument: Keyed {
    /// The ref the map document lives on.
    const REF: &'static str;
}

/// The map that a list of items comes to: each key with its body, the last one
/// where a key is listed twice.
pub open spec fn map_document<T: Keyed>(items: Seq<T>) -> Map<Seq<char>, T::Body>
    decreases items.len(),
{
    if items.len() == 0 {
        Map::empty()
    } else {
        map_document(items.drop_last()).insert(items.last().map_key(), items.last().map_body())
    }
}

/// The map that `items` come to.
pub fn to_map<T: Keyed>(items: Vec<T>) -> (r: TextMap<T::Body>)
    ensures
        r@ == map_document(items@),
{
    let mut map: TextMap<T::Body> = TextMap::new();
    let ghost all = items@;
    for item in it: items
        invariant
            it.seq() == all,
            map@ == map_document(all.take(it.index())),
    {
        proof {
            assert(all.take(it.index() + 1).drop_last() =~= all.take(it.index()));
            assert(all.take(it.index() + 1).last() == item);
        }
        let (key, body) = item.decompose();
        map.insert(key, body);
    }
    proof {
        assert(all.take(all.len() as int) =~= all);
    }
    map
}

/// Whether items are in the order of their keys, each key once.
pub open spec fn in_key_order<T: Keyed>(items: Seq<T>) -> bool {
    forall|i: int, j: int|
        0 <= i < j < items.len() ==> before(
            (#[trigger] items[i]).map_key(),
            (#[trigger] items[j]).map_key(),
        )
}

/// The items of a map, in the order of their keys.
pub fn from_map<T: Keyed>(map: TextMap<T::Body>) -> (r: Vec<T>)
    ensures
        map_document(r@) == map@,
        in_key_order(r@),
{
    let ghost held = map@;
    let entries = map.into_entries();
    let ghost all = entries@;
    let mut r: Vec<T> = Vec::new();
    proof {
        assert(as_map(all.take(0)) =~= map_document(r@));
    }
    for entry in it: entries
        invariant
            it.seq() == all,
            in_order(all),
            as_map(all) == held,
            r@.len() == it.index(),
            forall|j: int|
                0 <= j < r@.len() ==> (#[trigger] r@[j]).map_key() == all[j].0@,
            map_document(r@) == as_map(all.take(it.index())),
    {
        let ghost prior = r@;
        let (key, body) = entry;
        r.push(T::compose(key, body));
        proof {
            lemma_as_map_step(all, it.index());
            assert(r@.drop_last() =~= prior);
        }
    }
    proof {
        assert(all.take(all.len() as int) =~= all);
        assert forall|i: int, j: int| 0 <= i < j < r@.len() implies before(
            (#[trigger] r@[i]).map_key(),
            (#[trigger] r@[j]).map_key(),
        ) by {
            assert(before(all[i].0@, all[j].0@));
        }
    }
    r
}

/// Stores the map document of `items`: each under its key, in the field that its
/// type names.
pub fn store_map<T: Keyed>(items: Vec<T>) -> (r: Node)
    ensures
        single::<TextMap<T::Body>>(r, T::field_name(), map_value(map_document(items@))),
{
    let map = to_map(items);
    write_single(T::map_field(), &map)
}

/// Whether what was loaded is what a map document holds: no items where the ref
/// is absent, a failure where the document cannot be read.
pub open spec fn is_loaded_map<T: Keyed>(loaded: Option<Vec<T>>, node: Option<&Node>) -> bool {
    match node {
        None => loaded matches Some(items) && items@.len() == 0,
        Some(node) => match field::<TextMap<T::Body>>(*node, T::field_name()) {
            Some(value) => loaded matches Some(items) && map_value(map_document(items@)) == value
                && in_key_order(items@),
            None => loaded is None,
        },
    }
}

/// Loads the items of a map document, in the order of their keys.
pub fn load_map<T: Keyed>(node: Option<&Node>) -> (r: Option<Vec<T>>)
    ensures
        is_loaded_map(r, node),
{
    match node {
        None => Some(Vec::new()),
        Some(node) => match read_field::<TextMap<T::Body>>(node, T::map_field()) {
            Some(map) => Some(from_map(map)),
            None => None,
        },
    }
}

/// Law: a map document that was stored loads as the items that were stored, each
/// key with the last body given for it.
pub proof fn law_stored_map_loads<T: Keyed>(node: Node, items: Seq<T>)
    requires
        single::<TextMap<T::Body>>(node, T::field_name(), map_value(map_document(items))),
    ensures
        field::<TextMap<T::Body>>(node, T::field_name()) == Some(map_value(map_document(items))),
{
    lemma_field::<TextMap<T::Body>>(node, T::field_name(), map_value(map_document(items)));
}

/// Law: a map document holds every key that is listed, with the last body given
/// for it.
pub proof fn law_map_keeps_the_last<T: Keyed>(items: Seq<T>, i: int)
    requires
        0 <= i < items.len(),
        forall|j: int|
            i < j < items.len() ==> (#[trigger] items[j]).map_key() != items[i].map_key(),
    ensures
        map_document(items).contains_key(items[i].map_key()),
        map_document(items)[items[i].map_key()] == items[i].map_body(),
    decreases items.len(),
{
    if i < items.len() - 1 {
        let rest = items.drop_last();
        assert(items[items.len() - 1].map_key() != items[i].map_key());
        assert forall|j: int| i < j < rest.len() implies (#[trigger] rest[j]).map_key()
            != rest[i].map_key() by {
            assert(rest[j] == items[j]);
        }
        law_map_keeps_the_last(rest, i);
    }
}

/// Whether no two items have the same key.
pub open spec fn distinct_keys<T: Keyed>(items: Seq<T>) -> bool {
    forall|i: int, j: int|
        0 <= i < items.len() && 0 <= j < items.len() && (#[trigger] items[i]).map_key() == (
        #[trigger] items[j]).map_key() ==> i == j
}

/// The keys of a map document are those that are listed.
proof fn lemma_listed_key<T: Keyed>(items: Seq<T>, key: Seq<char>)
    requires
        map_document(items).contains_key(key),
    ensures
        exists|i: int| 0 <= i < items.len() && (#[trigger] items[i]).map_key() == key,
    decreases items.len(),
{
    if items.last().map_key() == key {
        assert(items[items.len() - 1].map_key() == key);
    } else {
        let rest = items.drop_last();
        lemma_listed_key(rest, key);
        let i = choose|i: int| 0 <= i < rest.len() && (#[trigger] rest[i]).map_key() == key;
        assert(items[i].map_key() == key);
    }
}

/// Where no key is listed twice, a map document has as many keys as there are
/// items.
proof fn lemma_document_len<T: Keyed>(items: Seq<T>)
    requires
        distinct_keys(items),
    ensures
        map_document(items).dom().finite(),
        map_document(items).dom().len() == items.len(),
    decreases items.len(),
{
    if items.len() > 0 {
        let rest = items.drop_last();
        assert forall|i: int, j: int|
            0 <= i < rest.len() && 0 <= j < rest.len() && (#[trigger] rest[i]).map_key() == (
            #[trigger] rest[j]).map_key() implies i == j by {
            assert(items[i].map_key() == items[j].map_key());
        }
        lemma_document_len(rest);
        let key = items.last().map_key();
        if map_document(rest).contains_key(key) {
            lemma_listed_key(rest, key);
            let i = choose|i: int| 0 <= i < rest.len() && (#[trigger] rest[i]).map_key() == key;
            assert(items[i].map_key() == items[items.len() - 1].map_key());
        }
        assert(map_document(items).dom() =~= map_document(rest).dom().insert(key));
    }
}

/// Law: a set whose keys are all different loads as the items that were stored,
/// no fewer and no more, in the order of their keys.
pub proof fn law_stored_set_loads<T: Keyed>(node: Node, items: Seq<T>, loaded: Vec<T>, i: int)
    requires
        distinct_keys(items),
        single::<TextMap<T::Body>>(node, T::field_name(), map_value(map_document(items))),
        is_loaded_map(Some(loaded), Some(&node)),
        0 <= i < items.len(),
    ensures
        loaded@.len() == items.len(),
        in_key_order(loaded@),
        exists|j: int|
            0 <= j < loaded@.len() && (#[trigger] loaded@[j]).map_key() == items[i].map_key()
                && loaded@[j].map_body().value() == items[i].map_body().value(),
{
    law_stored_map_loads(node, items);
    let stored = map_document(items);
    let held = map_document(loaded@);
    assert forall|a: int, b: int|
        0 <= a < loaded@.len() && 0 <= b < loaded@.len() && (#[trigger] loaded@[a]).map_key() == (
        #[trigger] loaded@[b]).map_key() implies a == b by {
        lemma_before_irreflexive(loaded@[a].map_key());
        if a < b {
            assert(before(loaded@[a].map_key(), loaded@[b].map_key()));
        } else if b < a {
            assert(before(loaded@[b].map_key(), loaded@[a].map_key()));
        }
    }
    lemma_document_len(items);
    lemma_document_len(loaded@);
    assert(map_value(held) == map_value(stored));
    assert(held.dom() =~= map_value(held).dom());
    assert(stored.dom() =~= map_value(stored).dom());
    let key = items[i].map_key();
    assert forall|k: int| i < k < items.len() implies (#[trigger] items[k]).map_key() != key by {}
    law_map_keeps_the_last(items, i);
    assert(held.contains_key(key));
    lemma_listed_key(loaded@, key);
    let j = choose|j: int| 0 <= j < loaded@.len() && (#[trigger] loaded@[j]).map_key() == key;
    assert forall|k: int| j < k < loaded@.len() implies (#[trigger] loaded@[k]).map_key()
        != loaded@[j].map_key() by {}
    law_map_keeps_the_last(loaded@, j);
    assert(map_value(held)[key] == held[key].value());
    assert(map_value(stored)[key] == stored[key].value());
}

impl Keyed for Check {
    open spec fn field_name() -> Seq<char> {
        "checks"@
    }

    fn map_field() -> (r: &'static str) {
        "checks"
    }

    type Body = CheckBody;

    open spec fn map_key(&self) -> Seq<char> {
        self.name@
    }

    open spec fn map_body(&self) -> CheckBody {
        CheckBody { command: self.command }
    }

    fn compose(key: String, body: CheckBody) -> (r: Check) {
        Check { name: key, command: body.command }
    }

    fn decompose(self) -> (r: (String, CheckBody)) {
        (self.name, CheckBody { command: self.command })
    }
}

impl MapDocument for Check {
    const REF: &'static str = CHECKS_REF;
}

impl Keyed for Revocation {
    open spec fn field_name() -> Seq<char> {
        "revoked"@
    }

    fn map_field() -> (r: &'static str) {
        "revoked"
    }

    type Body = RevocationBody;

    open spec fn map_key(&self) -> Seq<char> {
        self.fingerprint@
    }

    open spec fn map_body(&self) -> RevocationBody {
        RevocationBody { reason: self.reason }
    }

    fn compose(key: String, body: RevocationBody) -> (r: Revocation) {
        Revocation { fingerprint: key, reason: body.reason }
    }

    fn decompose(self) -> (r: (String, RevocationBody)) {
        (self.fingerprint, RevocationBody { reason: self.reason })
    }
}

impl MapDocument for Revocation {
    const REF: &'static str = REVOKED_REF;
}

impl Keyed for Signer {
    open spec fn field_name() -> Seq<char> {
        "members"@
    }

    fn map_field() -> (r: &'static str) {
        "members"
    }

    type Body = Authorization;

    open spec fn map_key(&self) -> Seq<char> {
        self.fingerprint@
    }

    open spec fn map_body(&self) -> Authorization {
        Authorization {
            key: self.key,
            valid_after: self.valid_after,
            valid_before: self.valid_before,
        }
    }

    fn compose(key: String, body: Authorization) -> (r: Signer) {
        Signer {
            fingerprint: key,
            key: body.key,
            valid_after: body.valid_after,
            valid_before: body.valid_before,
        }
    }

    fn decompose(self) -> (r: (String, Authorization)) {
        let Signer { fingerprint, key, valid_after, valid_before } = self;
        (fingerprint, Authorization { key, valid_after, valid_before })
    }
}

impl MapDocument for Signer {
    const REF: &'static str = MEMBERS_REF;
}

impl Keyed for RunOutcome {
    open spec fn field_name() -> Seq<char> {
        "results"@
    }

    fn map_field() -> (r: &'static str) {
        "results"
    }

    type Body = Outcome;

    open spec fn map_key(&self) -> Seq<char> {
        self.name@
    }

    open spec fn map_body(&self) -> Outcome {
        stored(*self)
    }

    fn compose(key: String, body: Outcome) -> (r: RunOutcome) {
        assemble_outcome(key, body)
    }

    fn decompose(self) -> (r: (String, Outcome)) {
        let RunOutcome { name, outcome, duration_secs, log_url } = self;
        (name, Outcome { outcome, duration_secs, log_url })
    }
}

impl Keyed for CheckDef {
    open spec fn field_name() -> Seq<char> {
        "checks"@
    }

    fn map_field() -> (r: &'static str) {
        "checks"
    }

    type Body = EffectBody;

    open spec fn map_key(&self) -> Seq<char> {
        self.name@
    }

    open spec fn map_body(&self) -> EffectBody {
        EffectBody {
            command: self.command,
            image: self.image,
            depends: self.depends,
            toolchains: self.toolchains,
        }
    }

    fn compose(key: String, body: EffectBody) -> (r: CheckDef) {
        CheckDef {
            name: key,
            command: body.command,
            image: body.image,
            depends: body.depends,
            toolchains: body.toolchains,
        }
    }

    fn decompose(self) -> (r: (String, EffectBody)) {
        let CheckDef { name, command, image, depends, toolchains } = self;
        (name, EffectBody { command, image, depends, toolchains })
    }
}

impl MapDocument for CheckDef {
    const REF: &'static str = CHECKS_REF;
}

impl Keyed for CheckRun {
    open spec fn field_name() -> Seq<char> {
        "results"@
    }

    fn map_field() -> (r: &'static str) {
        "results"
    }

    type Body = RunBody;

    open spec fn map_key(&self) -> Seq<char> {
        self.name@
    }

    open spec fn map_body(&self) -> RunBody {
        RunBody {
            outcome: self.status,
            duration_secs: self.duration_secs,
            recording: self.recording,
            exit_code: self.exit_code,
        }
    }

    fn compose(key: String, body: RunBody) -> (r: CheckRun) {
        CheckRun {
            name: key,
            status: body.outcome,
            duration_secs: body.duration_secs,
            recording: body.recording,
            exit_code: body.exit_code,
        }
    }

    fn decompose(self) -> (r: (String, RunBody)) {
        let CheckRun { name, status, duration_secs, recording, exit_code } = self;
        (name, RunBody { outcome: status, duration_secs, recording, exit_code })
    }
}

/// A type stored decomposed, one ref per item, under a namespace.
pub trait Collection: Stored {
    /// The ref namespace (`{NS}/{id}` per item) its items live under.
    const NS: &'static str;

    /// The ref namespace its items live under.
    spec fn ns_name() -> Seq<char>;

    /// The ref namespace its items live under.
    fn namespace() -> (r: &'static str)
        ensures
            r@ == Self::ns_name(),
    ;
}

impl Collection for Member {
    const NS: &'static str = MEMBER_NS;

    open spec fn ns_name() -> Seq<char> {
        MEMBER_NS@
    }

    fn namespace() -> (r: &'static str) {
        Self::NS
    }
}

impl Collection for Issue {
    const NS: &'static str = ISSUES_NS;

    open spec fn ns_name() -> Seq<char> {
        ISSUES_NS@
    }

    fn namespace() -> (r: &'static str) {
        Self::NS
    }
}

impl Collection for Comment {
    const NS: &'static str = COMMENTS_NS;

    open spec fn ns_name() -> Seq<char> {
        COMMENTS_NS@
    }

    fn namespace() -> (r: &'static str) {
        Self::NS
    }
}

impl Collection for Review {
    const NS: &'static str = REVIEWS_NS;

    open spec fn ns_name() -> Seq<char> {
        REVIEWS_NS@
    }

    fn namespace() -> (r: &'static str) {
        Self::NS
    }
}

/// Loads an item from what its ref holds: `Some(None)` when the ref is absent,
/// `None` when it cannot be read.
pub fn load_item<T: Collection>(node: Option<&Node>) -> (r: Option<Option<T>>)
    ensures
        is_loaded(r, node),
{
    load_node(node)
}

/// The ref that the item `id` is stored on, and what it holds then.
pub fn store_item<T: Collection>(id: &str, value: &T) -> (r: (String, Node))
    ensures
        r.0@ == T::ns_name() + "/"@ + id@,
        T::layout(r.1, value.value()),
{
    (item_ref(T::namespace(), id), value.write())
}

/// The items among refs that lie under a namespace, each by its id, or `None`
/// where one of them cannot be read.
pub open spec fn items_under<T: Stored>(namespace: Seq<char>, refs: Seq<(String, Node)>) -> Option<
    Seq<(Seq<char>, T::Value)>,
>
    decreases refs.len(),
{
    if refs.len() == 0 {
        Some(Seq::empty())
    } else {
        match items_under::<T>(namespace, refs.drop_last()) {
            None => None,
            Some(items) => match after_prefix(refs.last().0@, namespace + "/"@) {
                None => Some(items),
                Some(id) => match T::parsed(refs.last().1) {
                    Some(value) => Some(items.push((id, value))),
                    None => None,
                },
            },
        }
    }
}

/// What items with their ids mean.
pub open spec fn item_values<T: Stored>(items: Seq<(String, T)>) -> Seq<(Seq<char>, T::Value)> {
    items.map_values(|item: (String, T)| (item.0@, item.1.value()))
}

proof fn lemma_unreadable<T: Stored>(namespace: Seq<char>, refs: Seq<(String, Node)>, i: int)
    requires
        0 <= i <= refs.len(),
        items_under::<T>(namespace, refs.take(i)) is None,
    ensures
        items_under::<T>(namespace, refs) is None,
    decreases refs.len() - i,
{
    if i < refs.len() {
        assert(refs.take(i + 1).drop_last() =~= refs.take(i));
        lemma_unreadable::<T>(namespace, refs, i + 1);
    } else {
        assert(refs.take(i) =~= refs);
    }
}

/// Every item under `namespace` with its id, in the order of the refs; a ref
/// outside the namespace is passed over, and `None` is returned where an item
/// cannot be read.
pub fn list<T: Stored>(namespace: &str, refs: &[(String, Node)]) -> (r: Option<Vec<(String, T)>>)
    ensures
        match r {
            Some(items) => items_under::<T>(namespace@, refs@) == Some(item_values(items@)),
            None => items_under::<T>(namespace@, refs@) is None,
        },
{
    let mut prefix = namespace.to_owned();
    prefix.append("/");
    let mut r: Vec<(String, T)> = Vec::new();
    let mut i: usize = 0;
    proof {
        assert(item_values(r@) =~= Seq::empty());
        assert(refs@.take(0) =~= Seq::empty());
    }
    while i < refs.len()
        invariant
            i <= refs@.len(),
            prefix@ == namespace@ + "/"@,
            items_under::<T>(namespace@, refs@.take(i as int)) == Some(item_values(r@)),
        decreases refs@.len() - i,
    {
        proof {
            assert(refs@.take(i + 1).drop_last() =~= refs@.take(i as int));
            assert(refs@.take(i + 1).last() == refs@[i as int]);
        }
        if let Some(id) = strip_prefix(refs[i].0.as_str(), prefix.as_str()) {
            match T::read(&refs[i].1) {
                Some(v) => {
                    let ghost prior = r@;
                    let item = (id.to_owned(), v);
                    r.push(item);
                    proof {
                        assert(item_values(r@) =~= item_values(prior).push(
                            (item.0@, item.1.value()),
                        ));
                    }
                },
                None => {
                    proof {
                        lemma_unreadable::<T>(namespace@, refs@, i + 1);
                    }
                    return None;
                },
            }
        }
        i += 1;
    }
    proof {
        assert(refs@.take(refs@.len() as int) =~= refs@);
    }
    Some(r)
}

/// The ref that an item of a namespace is stored on.
pub fn item_ref(namespace: &str, id: &str) -> (r: String)
    ensures
        r@ == namespace@ + "/"@ + id@,
{
    let mut r = namespace.to_owned();
    r.append("/");
    r.append(id);
    r
}

/// Identity metadata a component carries for messages and UI chrome.
pub trait Component {
    /// The singular noun used in messages ("member", "check", "issue").
    const NOUN: &'static str;

    /// The plural noun ("members", "checks", "issues").
    const PLURAL: &'static str;
}

impl Component for Member {
    const NOUN: &'static str = "member";

    const PLURAL: &'static str = "members";
}

impl Component for Check {
    const NOUN: &'static str = "check";

    const PLURAL: &'static str = "checks";
}

impl Component for Issue {
    const NOUN: &'static str = "issue";

    const PLURAL: &'static str = "issues";
}

/// Law: an item is stored under its own name, with all that it is.
pub proof fn law_items_are_stored_whole(
    check: Check,
    revocation: Revocation,
    signer: Signer,
    outcome: RunOutcome,
)
    ensures
        check.map_key() == check.name@,
        check.map_body().command@ == check.command@,
        revocation.map_key() == revocation.fingerprint@,
        revocation.map_body().reason@ == revocation.reason@,
        signer.map_key() == signer.fingerprint@,
        signer.map_body().key@ == signer.key@,
        opt_text(signer.map_body().valid_after) == opt_text(signer.valid_after),
        opt_text(signer.map_body().valid_before) == opt_text(signer.valid_before),
        outcome.map_key() == outcome.name@,
        outcome.map_body().outcome@ == outcome.outcome@,
        outcome.map_body().duration_secs == outcome.duration_secs,
        opt_text(outcome.map_body().log_url) == opt_text(outcome.log_url),
{
}

/// Law: a check and its outcome are stored under the check's name, with all that
/// they are.
pub proof fn law_checks_are_stored_whole(check: CheckDef, run: CheckRun)
    ensures
        check.map_key() == check.name@,
        opt_text(check.map_body().command) == opt_text(check.command),
        opt_text(check.map_body().image) == opt_text(check.image),
        texts(check.map_body().depends@) == texts(check.depends@),
        texts(check.map_body().toolchains@) == texts(check.toolchains@),
        run.map_key() == run.name@,
        run.map_body().outcome == run.status,
        run.map_body().duration_secs == run.duration_secs,
        opt_text(run.map_body().recording) == opt_text(run.recording),
        run.map_body().exit_code == run.exit_code,
{
}

/// Law: where each document lies.
pub proof fn law_documents_have_their_places()
    ensures
        CONFIG_REF@ == "refs/meta/config"@,
        ACCOUNT_REF@ == "refs/meta/account"@,
        CHECKS_REF@ == "refs/meta/checks"@,
        REVOKED_REF@ == "refs/meta/revoked"@,
        MEMBER_NS@ == "refs/meta/member"@,
        ISSUES_NS@ == "refs/meta/issues"@,
        COMMENTS_NS@ == "refs/meta/comments"@,
        REVIEWS_NS@ == "refs/meta/reviews"@,
        MEMBERS_REF@ == "refs/meta/members"@,
        crate::checks::RUNS_NS@ == "refs/meta/runs"@,
        crate::commands::REDACTIONS_NS@ == "refs/meta/redactions"@,
        crate::commands::TOOLCHAINS_NS@ == "refs/meta/toolchains"@,
        <Check as Keyed>::field_name() == "checks"@,
        <Revocation as Keyed>::field_name() == "revoked"@,
        <RunOutcome as Keyed>::field_name() == "results"@,
{
}

/// Law: of the refs that there are, those under a namespace are its items, each by
/// what follows the namespace and with what its ref holds, and all others are
/// passed over.
pub proof fn law_items_are_the_namespaces<T: Stored>(
    namespace: Seq<char>,
    refs: Seq<(String, Node)>,
    refname: String,
    node: Node,
    id: Seq<char>,
)
    requires
        items_under::<T>(namespace, refs) is Some,
    ensures
        refname@ == namespace + "/"@ + id ==> items_under::<T>(
            namespace,
            refs.push((refname, node)),
        ) == (match T::parsed(node) {
            Some(value) => Some(items_under::<T>(namespace, refs)->0.push((id, value))),
            None => None,
        }),
        !starts(refname@, namespace + "/"@) ==> items_under::<T>(
            namespace,
            refs.push((refname, node)),
        ) == items_under::<T>(namespace, refs),
        items_under::<T>(namespace, Seq::empty()) == Some(Seq::<(Seq<char>, T::Value)>::empty()),
{
    let more = refs.push((refname, node));
    assert(more.drop_last() =~= refs);
    assert(more.last() == (refname, node));
    let prefix = namespace + "/"@;
    if refname@ == namespace + "/"@ + id {
        assert(refname@.take(prefix.len() as int) =~= prefix);
        assert(refname@.skip(prefix.len() as int) =~= id);
    }
}

} // verus!
