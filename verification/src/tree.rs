//! What the web UI reads out of git: directory listings, releases, and which
//! languages a repository is written in.

use vstd::prelude::*;
use vstd::utf8::encode_utf8;

use crate::http::MAX_REPO_DEPTH;
use crate::keyed::before;
use crate::object_id::{hex_id, is_id, law_id_reads_as_itself, ObjectId};
use crate::order::{
    as_ints, by_name, is_arranged, is_order, is_sorted, key_before, key_views,
    law_arranged_keeps_every_item, order_of, sort_texts, Key,
};
use crate::seqs::{
    first_where, kept, lemma_first_where, lemma_first_where_is, lemma_kept_from, lemma_kept_has,
    lemma_kept_none, lemma_kept_step,
};
use crate::text::{
    after_last, chars_of, decimal, fields, fields_of, halves, is_digit, is_white, is_word, join,
    joined, law_fields_undo_join, lemma_decimal_round_trip, lemma_index_of_is, lemma_split_front,
    lines, lines_of, lowercase, lowered, opt_text, parse_decimal, parsed_decimal, same, split,
    split_on, split_once, tail_after, texts, trim, trim_nonempty, trimmed, trimmed_nonempty,
};

verus! {

/// What a tree entry is.
#[derive(Debug, Clone, Copy, PartialEq, Eq, Structural)]
pub enum EntryKind {
    /// A directory.
    Tree,
    /// A symbolic link.
    Link,
    /// A submodule.
    Commit,
    /// An executable file.
    BlobExecutable,
    /// A file.
    Blob,
}

/// The kind that a mode column of `git ls-tree` stands for.
pub open spec fn kind_of(mode: Seq<char>) -> EntryKind {
    if mode == "040000"@ || mode == "40000"@ {
        EntryKind::Tree
    } else if mode == "120000"@ {
        EntryKind::Link
    } else if mode == "160000"@ {
        EntryKind::Commit
    } else if mode == "100755"@ {
        EntryKind::BlobExecutable
    } else {
        EntryKind::Blob
    }
}

/// The kind that a mode column of `git ls-tree` stands for.
pub fn entry_mode(mode: &str) -> (r: EntryKind)
    ensures
        r == kind_of(mode@),
{
    if same(mode, "040000") || same(mode, "40000") {
        EntryKind::Tree
    } else if same(mode, "120000") {
        EntryKind::Link
    } else if same(mode, "160000") {
        EntryKind::Commit
    } else if same(mode, "100755") {
        EntryKind::BlobExecutable
    } else {
        EntryKind::Blob
    }
}

/// One entry of a directory listing.
#[derive(Debug, PartialEq, Eq)]
pub struct Entry {
    /// What it is.
    pub kind: EntryKind,
    /// Its name.
    pub filename: String,
    /// The object it names.
    pub oid: ObjectId,
}

/// An entry as plain values.
pub struct EntryView {
    /// What it is.
    pub kind: EntryKind,
    /// Its name.
    pub filename: Seq<char>,
    /// The digits of the object it names.
    pub oid: Seq<char>,
}

impl View for Entry {
    type V = EntryView;

    open spec fn view(&self) -> EntryView {
        EntryView { kind: self.kind, filename: self.filename@, oid: self.oid@ }
    }
}

/// The entries as plain values.
pub open spec fn entry_views(v: Seq<Entry>) -> Seq<EntryView> {
    v.map_values(|e: Entry| e@)
}

/// The entry that a line of `git ls-tree` stands for:
/// `<mode> <type> <oid>\t<name>`.
pub open spec fn entry_on(line: Seq<char>) -> Option<EntryView> {
    match halves(line, '\t') {
        None => None,
        Some((meta, name)) => {
            let columns = split_on(meta, ' ');
            if columns.len() < 3 {
                None
            } else {
                match hex_id(encode_utf8(columns[2])) {
                    None => None,
                    Some(oid) => Some(
                        EntryView { kind: kind_of(columns[0]), filename: name, oid },
                    ),
                }
            }
        },
    }
}

/// Reads one line of `git ls-tree`, or nothing where it is malformed.
pub fn parse_tree_entry(line: &str) -> (r: Option<Entry>)
    ensures
        match r {
            Some(entry) => entry_on(line@) == Some(entry@),
            None => entry_on(line@) is None,
        },
{
    match split_once(line, '\t') {
        None => None,
        Some((meta, name)) => {
            let columns = split(meta.as_str(), ' ');
            proof {
                assert(texts(columns@).len() == columns@.len());
            }
            if columns.len() < 3 {
                return None;
            }
            proof {
                assert(texts(columns@)[0] == columns@[0]@);
                assert(texts(columns@)[2] == columns@[2]@);
            }
            match ObjectId::from_hex(columns[2].as_str().as_bytes()) {
                None => None,
                Some(oid) => Some(
                    Entry { kind: entry_mode(columns[0].as_str()), filename: name, oid },
                ),
            }
        },
    }
}

/// The entries that a listing holds, as they stand in it.
pub open spec fn entries_in(listing: Seq<char>) -> Seq<EntryView> {
    kept(lines_of(listing), |line: Seq<char>| entry_on(line))
}

/// What a directory's entries are ordered by: directories first, then names.
pub open spec fn entry_keys(entries: Seq<EntryView>) -> Seq<(u64, Seq<char>)> {
    entries.map_values(
        |e: EntryView|
            (
                if e.kind is Tree {
                    0u64
                } else {
                    1u64
                },
                e.filename,
            ),
    )
}

fn parse_entries(listing: &str) -> (r: Vec<Entry>)
    ensures
        entry_views(r@) == entries_in(listing@),
{
    let all = lines(listing);
    let ghost seen = texts(all@);
    let ghost f = |line: Seq<char>| entry_on(line);
    let mut r: Vec<Entry> = Vec::new();
    let mut i: usize = 0;
    proof {
        assert(entry_views(r@) =~= kept(seen.take(0), f));
    }
    while i < all.len()
        invariant
            i <= all@.len(),
            seen == texts(all@),
            f == (|line: Seq<char>| entry_on(line)),
            entry_views(r@) == kept(seen.take(i as int), f),
        decreases all@.len() - i,
    {
        proof {
            lemma_kept_step(seen, f, i as int);
            assert(seen[i as int] == all@[i as int]@);
        }
        if let Some(entry) = parse_tree_entry(all[i].as_str()) {
            let ghost prior = r@;
            r.push(entry);
            proof {
                assert(entry_views(r@) =~= entry_views(prior).push(entry@));
            }
        }
        i += 1;
    }
    proof {
        assert(seen.take(seen.len() as int) =~= seen);
    }
    r
}

/// The entries of a directory, given what `git ls-tree` printed of it:
/// directories first, then by name. There are none where git failed.
pub fn list_tree(listing: Option<&str>) -> (r: Vec<Entry>)
    ensures
        match listing {
            None => r@.len() == 0,
            Some(text) => is_arranged(
                entry_views(r@),
                entries_in(text@),
                entry_keys(entries_in(text@)),
            ),
        },
{
    let text = match listing {
        None => {
            return Vec::new();
        },
        Some(text) => text,
    };
    let entries = parse_entries(text);
    let ghost items = entry_views(entries@);
    let mut keys: Vec<Key> = Vec::new();
    let mut i: usize = 0;
    while i < entries.len()
        invariant
            i <= entries@.len(),
            items == entry_views(entries@),
            keys@.len() == i,
            forall|j: int|
                0 <= j < i ==> (#[trigger] key_views(keys@)[j]) == entry_keys(items)[j],
        decreases entries@.len() - i,
    {
        let rank: u64 = match entries[i].kind {
            EntryKind::Tree => 0,
            _ => 1,
        };
        let ghost prior = keys@;
        keys.push((rank, entries[i].filename.clone()));
        proof {
            assert(items[i as int] == entries@[i as int]@);
            assert forall|j: int| 0 <= j < i + 1 implies (#[trigger] key_views(keys@)[j])
                == entry_keys(items)[j] by {
                if j < i {
                    assert(key_views(prior)[j] == entry_keys(items)[j]);
                    assert(keys@[j] == prior[j]);
                }
            }
        }
        i += 1;
    }
    let places = order_of(keys.as_slice());
    let ghost ints = as_ints(places@);
    proof {
        assert(key_views(keys@) =~= entry_keys(items));
    }
    let mut r: Vec<Entry> = Vec::new();
    let mut k: usize = 0;
    while k < places.len()
        invariant
            k <= places@.len(),
            r@.len() == k,
            items == entry_views(entries@),
            ints == as_ints(places@),
            is_order(ints, entry_keys(items)),
            forall|j: int| 0 <= j < k ==> (#[trigger] r@[j])@ == items[ints[j]],
        decreases places@.len() - k,
    {
        proof {
            assert(ints[k as int] == places@[k as int] as int);
            assert(items[ints[k as int]] == entries@[ints[k as int]]@);
        }
        let entry = &entries[places[k]];
        r.push(Entry { kind: entry.kind, filename: entry.filename.clone(), oid: entry.oid.copy() });
        k += 1;
    }
    proof {
        assert(entry_views(r@) =~= Seq::new(ints.len(), |i: int| items[ints[i]]));
    }
    r
}

/// The path that a browse view's segments name: none where one is empty or
/// would step out.
pub open spec fn browsed(sub: Seq<Seq<char>>) -> Option<Seq<char>> {
    if exists|i: int|
        0 <= i < sub.len() && ((#[trigger] sub[i]).len() == 0 || sub[i] == "."@ || sub[i]
            == ".."@) {
        None
    } else {
        Some(joined(sub, "/"@))
    }
}

/// Joins the path segments of a browse view, refusing empty or traversing ones.
pub fn browse_path(sub: &[String]) -> (r: Option<String>)
    ensures
        opt_text(r) == browsed(texts(sub@)),
{
    let ghost all = texts(sub@);
    let mut i: usize = 0;
    while i < sub.len()
        invariant
            i <= sub@.len(),
            all == texts(sub@),
            forall|j: int|
                0 <= j < i ==> (#[trigger] all[j]).len() > 0 && all[j] != "."@ && all[j] != ".."@,
        decreases sub@.len() - i,
    {
        proof {
            assert(all[i as int] == sub@[i as int]@);
        }
        let part = sub[i].as_str();
        if part.is_empty() || same(part, ".") || same(part, "..") {
            return None;
        }
        i += 1;
    }
    Some(join(sub, "/"))
}

/// The language that a file's extension stands for, and its swatch's color.
pub open spec fn language_of(name: Seq<char>) -> Option<(Seq<char>, Seq<char>)> {
    match after_last(name, '.') {
        None => None,
        Some(extension) => {
            let ext = lowered(extension);
            if ext == "rs"@ {
                Some(("Rust"@, "var(--s-type)"@))
            } else if ext == "html"@ || ext == "htm"@ {
                Some(("HTML"@, "var(--s-func)"@))
            } else if ext == "css"@ {
                Some(("CSS"@, "var(--s-prop)"@))
            } else if ext == "js"@ || ext == "mjs"@ || ext == "cjs"@ {
                Some(("JavaScript"@, "var(--s-const)"@))
            } else if ext == "ts"@ || ext == "tsx"@ {
                Some(("TypeScript"@, "var(--s-prop)"@))
            } else if ext == "py"@ {
                Some(("Python"@, "var(--s-string)"@))
            } else if ext == "go"@ {
                Some(("Go"@, "var(--s-prop)"@))
            } else if ext == "c"@ || ext == "h"@ {
                Some(("C"@, "var(--s-const)"@))
            } else if ext == "cpp"@ || ext == "cc"@ || ext == "hpp"@ || ext == "cxx"@ {
                Some(("C++"@, "var(--s-const)"@))
            } else if ext == "sh"@ || ext == "bash"@ {
                Some(("Shell"@, "var(--s-func)"@))
            } else if ext == "toml"@ {
                Some(("TOML"@, "var(--s-type)"@))
            } else if ext == "yaml"@ || ext == "yml"@ {
                Some(("YAML"@, "var(--s-prop)"@))
            } else if ext == "json"@ {
                Some(("JSON"@, "var(--s-const)"@))
            } else if ext == "md"@ || ext == "adoc"@ || ext == "asciidoc"@ {
                Some(("Prose"@, "var(--s-comment)"@))
            } else {
                None
            }
        },
    }
}

/// The language that a file's extension stands for, and its swatch's color, or
/// nothing for a file that does not count toward the breakdown.
pub fn classify_language(name: &str) -> (r: Option<(&'static str, &'static str)>)
    ensures
        match r {
            Some(found) => language_of(name@) == Some((found.0@, found.1@)),
            None => language_of(name@) is None,
        },
{
    match tail_after(name, '.') {
        None => None,
        Some(extension) => {
            let lower = lowercase(extension.as_str());
            let ext = lower.as_str();
            if same(ext, "rs") {
                Some(("Rust", "var(--s-type)"))
            } else if same(ext, "html") || same(ext, "htm") {
                Some(("HTML", "var(--s-func)"))
            } else if same(ext, "css") {
                Some(("CSS", "var(--s-prop)"))
            } else if same(ext, "js") || same(ext, "mjs") || same(ext, "cjs") {
                Some(("JavaScript", "var(--s-const)"))
            } else if same(ext, "ts") || same(ext, "tsx") {
                Some(("TypeScript", "var(--s-prop)"))
            } else if same(ext, "py") {
                Some(("Python", "var(--s-string)"))
            } else if same(ext, "go") {
                Some(("Go", "var(--s-prop)"))
            } else if same(ext, "c") || same(ext, "h") {
                Some(("C", "var(--s-const)"))
            } else if same(ext, "cpp") || same(ext, "cc") || same(ext, "hpp") || same(ext, "cxx") {
                Some(("C++", "var(--s-const)"))
            } else if same(ext, "sh") || same(ext, "bash") {
                Some(("Shell", "var(--s-func)"))
            } else if same(ext, "toml") {
                Some(("TOML", "var(--s-type)"))
            } else if same(ext, "yaml") || same(ext, "yml") {
                Some(("YAML", "var(--s-prop)"))
            } else if same(ext, "json") {
                Some(("JSON", "var(--s-const)"))
            } else if same(ext, "md") || same(ext, "adoc") || same(ext, "asciidoc") {
                Some(("Prose", "var(--s-comment)"))
            } else {
                None
            }
        },
    }
}

/// How much of a repository one language accounts for.
#[derive(Debug, Clone, Copy, PartialEq, Eq)]
pub struct Total {
    /// The language.
    pub name: &'static str,
    /// Its swatch's color.
    pub color: &'static str,
    /// The bytes written in it.
    pub bytes: u64,
}

/// A total as plain values.
pub struct TotalView {
    /// The language.
    pub name: Seq<char>,
    /// Its swatch's color.
    pub color: Seq<char>,
    /// The bytes written in it.
    pub bytes: u64,
}

impl View for Total {
    type V = TotalView;

    open spec fn view(&self) -> TotalView {
        TotalView { name: self.name@, color: self.color@, bytes: self.bytes }
    }
}

/// The totals as plain values.
pub open spec fn total_views(v: Seq<Total>) -> Seq<TotalView> {
    v.map_values(|t: Total| t@)
}

/// A sum that stops at the largest number there is.
pub open spec fn capped_sum(a: u64, b: u64) -> u64 {
    if a + b > u64::MAX {
        u64::MAX
    } else {
        (a + b) as u64
    }
}

/// The size that the columns of `git ls-tree -l` name: the fourth, or zero
/// where it is no number.
pub open spec fn size_in(meta: Seq<char>) -> u64 {
    let columns = fields_of(meta);
    if columns.len() > 3 {
        match parsed_decimal(columns[3], u64::MAX as nat) {
            Some(size) => size as u64,
            None => 0,
        }
    } else {
        0
    }
}

fn parse_size(meta: &str) -> (r: u64)
    ensures
        r == size_in(meta@),
{
    let columns = fields(meta);
    proof {
        assert(texts(columns@).len() == columns@.len());
    }
    if columns.len() > 3 {
        proof {
            assert(texts(columns@)[3] == columns@[3]@);
        }
        match parse_decimal(columns[3].as_str(), u64::MAX) {
            Some(size) => size,
            None => 0,
        }
    } else {
        0
    }
}

/// What a line of `git ls-tree -r -l` adds to the breakdown.
pub open spec fn counted_on(line: Seq<char>) -> Option<TotalView> {
    match halves(line, '\t') {
        None => None,
        Some((meta, name)) => match language_of(name) {
            None => None,
            Some((name, color)) => Some(TotalView { name, color, bytes: size_in(meta) }),
        },
    }
}

fn parse_counted(line: &str) -> (r: Option<Total>)
    ensures
        match r {
            Some(total) => counted_on(line@) == Some(total@),
            None => counted_on(line@) is None,
        },
{
    match split_once(line, '\t') {
        None => None,
        Some((meta, name)) => match classify_language(name.as_str()) {
            None => None,
            Some((lang, color)) => Some(
                Total { name: lang, color, bytes: parse_size(meta.as_str()) },
            ),
        },
    }
}

/// The files that count, one after the other.
pub open spec fn counted(listing: Seq<char>) -> Seq<TotalView> {
    kept(lines_of(listing), |line: Seq<char>| counted_on(line))
}

/// All that counts, together.
pub open spec fn grand_total(files: Seq<TotalView>) -> u64
    decreases files.len(),
{
    if files.len() == 0 {
        0
    } else {
        capped_sum(grand_total(files.drop_last()), files.last().bytes)
    }
}

/// Where a language stands among the totals.
pub open spec fn total_of(totals: Seq<TotalView>, name: Seq<char>) -> int {
    first_where(totals, |t: TotalView| t.name == name)
}

/// The totals with one more file counted.
pub open spec fn with_file(totals: Seq<TotalView>, file: TotalView) -> Seq<TotalView> {
    let at = total_of(totals, file.name);
    if at < totals.len() {
        totals.update(
            at,
            TotalView {
                name: totals[at].name,
                color: totals[at].color,
                bytes: capped_sum(totals[at].bytes, file.bytes),
            },
        )
    } else {
        totals.push(file)
    }
}

/// The total of each language, in the order in which they first occur.
pub open spec fn tallied(files: Seq<TotalView>) -> Seq<TotalView>
    decreases files.len(),
{
    if files.len() == 0 {
        Seq::empty()
    } else {
        with_file(tallied(files.drop_last()), files.last())
    }
}

fn find_total(totals: &Vec<Total>, name: &str) -> (r: usize)
    ensures
        r as int == total_of(total_views(totals@), name@),
        r <= totals@.len(),
{
    let ghost all = total_views(totals@);
    let ghost p = |t: TotalView| t.name == name@;
    let mut i: usize = 0;
    while i < totals.len()
        invariant
            i <= totals@.len(),
            all == total_views(totals@),
            p == (|t: TotalView| t.name == name@),
            forall|j: int| 0 <= j < i ==> !p(#[trigger] all[j]),
        decreases totals@.len() - i,
    {
        proof {
            assert(all[i as int] == totals@[i as int]@);
        }
        if same(totals[i].name, name) {
            proof {
                lemma_first_where_is(all, p, i as int);
            }
            return i;
        }
        i += 1;
    }
    proof {
        lemma_first_where_is(all, p, i as int);
    }
    i
}

fn sum_capped(a: u64, b: u64) -> (r: u64)
    ensures
        r == capped_sum(a, b),
{
    if b > u64::MAX - a {
        u64::MAX
    } else {
        a + b
    }
}

fn add_file(totals: &mut Vec<Total>, file: Total)
    ensures
        total_views(final(totals)@) == with_file(total_views(old(totals)@), file@),
{
    let ghost prior = total_views(totals@);
    let at: usize = find_total(totals, file.name);
    proof {
        lemma_first_where(prior, |t: TotalView| t.name == file@.name);
    }
    if at < totals.len() {
        let there = totals[at];
        proof {
            assert(prior[at as int] == there@);
        }
        totals.set(
            at,
            Total {
                name: there.name,
                color: there.color,
                bytes: sum_capped(there.bytes, file.bytes),
            },
        );
    } else {
        totals.push(file);
    }
    proof {
        assert(total_views(totals@) =~= with_file(prior, file@));
    }
}

/// The totals of each language and of all together, given what
/// `git ls-tree -r -l` printed.
fn tally(listing: &str) -> (r: (Vec<Total>, u64))
    ensures
        total_views(r.0@) == tallied(counted(listing@)),
        r.1 == grand_total(counted(listing@)),
{
    let all = lines(listing);
    let ghost seen = texts(all@);
    let ghost f = |line: Seq<char>| counted_on(line);
    let mut totals: Vec<Total> = Vec::new();
    let mut grand: u64 = 0;
    let mut i: usize = 0;
    proof {
        assert(total_views(totals@) =~= tallied(kept(seen.take(0), f)));
    }
    while i < all.len()
        invariant
            i <= all@.len(),
            seen == texts(all@),
            f == (|line: Seq<char>| counted_on(line)),
            total_views(totals@) == tallied(kept(seen.take(i as int), f)),
            grand == grand_total(kept(seen.take(i as int), f)),
        decreases all@.len() - i,
    {
        proof {
            lemma_kept_step(seen, f, i as int);
            assert(seen[i as int] == all@[i as int]@);
        }
        if let Some(file) = parse_counted(all[i].as_str()) {
            let ghost files = kept(seen.take(i as int), f);
            grand = sum_capped(grand, file.bytes);
            add_file(&mut totals, file);
            proof {
                let more = files.push(file@);
                assert(more.drop_last() =~= files);
                assert(more.last() == file@);
            }
        }
        i += 1;
    }
    proof {
        assert(seen.take(seen.len() as int) =~= seen);
    }
    (totals, grand)
}

/// A language's display name, swatch color, and the percentage of tracked
/// bytes it accounts for.
#[derive(Debug, Clone, Copy, PartialEq, Eq)]
pub struct Language {
    /// The language.
    pub name: &'static str,
    /// Its swatch's color.
    pub color: &'static str,
    /// Its percentage.
    pub percent: u8,
}

/// The percentage that `bytes` are of `grand`: never over a hundred, and capped
/// low where the bytes are too many to count in hundredths.
pub open spec fn percentage(bytes: u64, grand: u64) -> int {
    let scaled = if bytes * 100 > u64::MAX {
        u64::MAX as int
    } else {
        bytes * 100
    };
    let share = scaled / grand as int;
    if share > 255 {
        100
    } else {
        share
    }
}

/// The share that a language is shown with: none under one percent.
pub open spec fn share_of(total: TotalView, grand: u64) -> Option<(Seq<char>, Seq<char>, int)> {
    let percent = percentage(total.bytes, grand);
    if percent > 0 {
        Some((total.name, total.color, percent))
    } else {
        None
    }
}

/// The languages as plain values.
pub open spec fn language_views(v: Seq<Language>) -> Seq<(Seq<char>, Seq<char>, int)> {
    v.map_values(|l: Language| (l.name@, l.color@, l.percent as int))
}

/// What the totals are ordered by: the largest first.
pub open spec fn total_keys(totals: Seq<TotalView>) -> Seq<(u64, Seq<char>)> {
    totals.map_values(|t: TotalView| ((u64::MAX - t.bytes) as u64, Seq::<char>::empty()))
}

/// The first of a sequence, at most four.
pub open spec fn top(totals: Seq<TotalView>) -> Seq<TotalView> {
    if totals.len() > 4 {
        totals.take(4)
    } else {
        totals
    }
}

/// Whether `r` shows the four largest languages of a repository, those under
/// one percent left out.
pub open spec fn shows_languages(r: Seq<Language>, files: Seq<TotalView>) -> bool {
    if grand_total(files) == 0 {
        r.len() == 0
    } else {
        exists|ordered: Seq<TotalView>| #[trigger]
            is_arranged(ordered, tallied(files), total_keys(tallied(files))) && language_views(r)
                == kept(top(ordered), |t: TotalView| share_of(t, grand_total(files)))
    }
}

fn percent_of(bytes: u64, grand: u64) -> (r: u8)
    requires
        grand > 0,
    ensures
        r as int == percentage(bytes, grand),
{
    let scaled: u64 = if bytes > u64::MAX / 100 {
        u64::MAX
    } else {
        bytes * 100
    };
    let share: u64 = scaled / grand;
    if share > 255 {
        100
    } else {
        share as u8
    }
}

fn arrange_totals(totals: &Vec<Total>) -> (r: Vec<Total>)
    ensures
        is_arranged(
            total_views(r@),
            total_views(totals@),
            total_keys(total_views(totals@)),
        ),
{
    let ghost items = total_views(totals@);
    let mut keys: Vec<Key> = Vec::new();
    let mut i: usize = 0;
    while i < totals.len()
        invariant
            i <= totals@.len(),
            items == total_views(totals@),
            keys@.len() == i,
            forall|j: int|
                0 <= j < i ==> (#[trigger] keys@[j]).0 == u64::MAX - items[j].bytes && keys@[j].1@
                    == Seq::<char>::empty(),
        decreases totals@.len() - i,
    {
        proof {
            assert(items[i as int] == totals@[i as int]@);
        }
        keys.push((u64::MAX - totals[i].bytes, String::new()));
        i += 1;
    }
    let places = order_of(keys.as_slice());
    let ghost ints = as_ints(places@);
    proof {
        assert(key_views(keys@) =~= total_keys(items));
    }
    let mut r: Vec<Total> = Vec::new();
    let mut k: usize = 0;
    while k < places.len()
        invariant
            k <= places@.len(),
            r@.len() == k,
            items == total_views(totals@),
            ints == as_ints(places@),
            is_order(ints, total_keys(items)),
            forall|j: int| 0 <= j < k ==> (#[trigger] r@[j])@ == items[ints[j]],
        decreases places@.len() - k,
    {
        proof {
            assert(ints[k as int] == places@[k as int] as int);
            assert(items[ints[k as int]] == totals@[ints[k as int]]@);
        }
        r.push(totals[places[k]]);
        k += 1;
    }
    proof {
        assert(total_views(r@) =~= Seq::new(ints.len(), |i: int| items[ints[i]]));
    }
    r
}

/// The language breakdown of a repository by tracked blob size, given what
/// `git ls-tree -r -l HEAD` printed: the top few languages with integer
/// percentages. There is none where git failed or nothing counts.
pub fn languages(listing: Option<&str>) -> (r: Vec<Language>)
    ensures
        match listing {
            None => r@.len() == 0,
            Some(text) => shows_languages(r@, counted(text@)),
        },
{
    let text = match listing {
        None => {
            return Vec::new();
        },
        Some(text) => text,
    };
    let (totals, grand) = tally(text);
    if grand == 0 {
        return Vec::new();
    }
    let ordered = arrange_totals(&totals);
    let count: usize = if ordered.len() > 4 {
        4
    } else {
        ordered.len()
    };
    let ghost all = total_views(ordered@);
    let ghost f = |t: TotalView| share_of(t, grand);
    let mut r: Vec<Language> = Vec::new();
    let mut i: usize = 0;
    proof {
        assert(language_views(r@) =~= kept(top(all).take(0), f));
        assert(all.len() == ordered@.len());
    }
    while i < count
        invariant
            i <= count,
            count == top(all).len(),
            count <= ordered@.len(),
            grand > 0,
            all == total_views(ordered@),
            f == (|t: TotalView| share_of(t, grand)),
            language_views(r@) == kept(top(all).take(i as int), f),
        decreases count - i,
    {
        proof {
            lemma_kept_step(top(all), f, i as int);
            assert(top(all)[i as int] == ordered@[i as int]@);
        }
        let total = ordered[i];
        let percent: u8 = percent_of(total.bytes, grand);
        if percent > 0 {
            let ghost prior = r@;
            r.push(Language { name: total.name, color: total.color, percent });
            proof {
                assert(language_views(r@) =~= language_views(prior).push(
                    (total@.name, total@.color, percent as int),
                ));
            }
        }
        i += 1;
    }
    proof {
        assert(top(all).take(top(all).len() as int) =~= top(all));
    }
    r
}

/// No language accounts for more than everything.
pub proof fn law_no_total_exceeds_the_whole(files: Seq<TotalView>, i: int)
    requires
        0 <= i < tallied(files).len(),
    ensures
        tallied(files)[i].bytes <= grand_total(files),
        percentage(tallied(files)[i].bytes, grand_total(files)) <= 100 || grand_total(files) == 0,
    decreases files.len(),
{
    let prior = tallied(files.drop_last());
    let file = files.last();
    let at = total_of(prior, file.name);
    lemma_first_where(prior, |t: TotalView| t.name == file.name);
    if at < prior.len() {
        law_no_total_exceeds_the_whole(files.drop_last(), at);
    }
    if i < prior.len() {
        law_no_total_exceeds_the_whole(files.drop_last(), i);
    }
    let bytes = tallied(files)[i].bytes as int;
    let grand = grand_total(files) as int;
    if grand > 0 {
        let scaled = if bytes * 100 > u64::MAX {
            u64::MAX as int
        } else {
            bytes * 100
        };
        assert(scaled / grand <= 100) by (nonlinear_arith)
            requires
                0 <= scaled <= bytes * 100,
                bytes <= grand,
                grand > 0,
        ;
    }
}

/// Each language has one total.
pub proof fn law_languages_are_listed_once(files: Seq<TotalView>, i: int, j: int)
    requires
        0 <= i < j < tallied(files).len(),
    ensures
        tallied(files)[i].name != tallied(files)[j].name,
    decreases files.len(),
{
    let prior = tallied(files.drop_last());
    let file = files.last();
    let p = |t: TotalView| t.name == file.name;
    lemma_first_where(prior, p);
    if j < prior.len() {
        law_languages_are_listed_once(files.drop_last(), i, j);
    } else {
        assert(!p(prior[i]));
    }
}

/// A point in time and the offset it was written down with.
#[derive(Debug, Clone, Copy, PartialEq, Eq, Structural)]
pub struct Date {
    /// Seconds since the Unix epoch.
    pub seconds: i64,
    /// The offset from UTC, in seconds.
    pub offset: i32,
}

/// The date that a text names, as seconds and offset.
pub uninterp spec fn date_of(input: Seq<char>) -> Option<(i64, i32)>;

/// `gix_date::parse` with no current time reads one of git's date formats; a
/// date relative to now is refused. Which date a text names, is left unsaid.
#[verifier::external_body]
fn parse_date(input: &str) -> (r: Option<(i64, i32)>)
    ensures
        r == date_of(input@),
{
    gix_date::parse(input, None).ok().map(|time| (time.seconds, time.offset))
}

/// Reads a strict-ISO 8601 git date (`%aI`).
pub fn parse_iso(input: &str) -> (r: Option<Date>)
    ensures
        match r {
            Some(date) => date_of(input@) == Some((date.seconds, date.offset)),
            None => date_of(input@) is None,
        },
{
    match parse_date(input) {
        Some((seconds, offset)) => Some(Date { seconds, offset }),
        None => None,
    }
}

/// A tagged release: its tag, the release name and notes drawn from the tag (or
/// commit) message, the target commit's date, and that commit's id.
#[derive(Debug, PartialEq, Eq)]
pub struct Release {
    /// The tag.
    pub tag: String,
    /// The release's name.
    pub title: String,
    /// The release's notes.
    pub body: String,
    /// When the commit was made.
    pub date: Date,
    /// The commit.
    pub oid: ObjectId,
}

/// How many releases are shown at most.
pub const MAX_RELEASES: usize = 40;

/// The tags that are shown as releases: the lines that are not blank, the
/// first forty of them.
pub open spec fn listed_tags(list: Seq<char>) -> Seq<Seq<char>> {
    let tags = trimmed_nonempty(lines_of(list));
    if tags.len() > MAX_RELEASES {
        tags.take(MAX_RELEASES as int)
    } else {
        tags
    }
}

/// The tags that are shown as releases, given what `git tag --list` printed.
pub fn release_tags(list: Option<&str>) -> (r: Vec<String>)
    ensures
        texts(r@) == (match list {
            None => Seq::empty(),
            Some(list) => listed_tags(list@),
        }),
{
    match list {
        None => {
            let r: Vec<String> = Vec::new();
            proof {
                assert(texts(r@) =~= Seq::empty());
            }
            r
        },
        Some(list) => {
            let mut tags = trim_nonempty(&lines(list));
            let ghost all = texts(tags@);
            if tags.len() > MAX_RELEASES {
                tags.truncate(MAX_RELEASES);
                proof {
                    assert(texts(tags@) =~= all.take(MAX_RELEASES as int));
                }
            }
            tags
        },
    }
}

/// The part of a text at `i` when it is split at NULs, or nothing.
pub open spec fn nul_part(text: Seq<char>, i: int) -> Option<Seq<char>> {
    let parts = split_on(text, '\0');
    if i < parts.len() {
        Some(parts[i])
    } else {
        None
    }
}

/// The same, the empty text where there is no such part.
pub open spec fn nul_part_or_empty(text: Seq<char>, i: int) -> Seq<char> {
    match nul_part(text, i) {
        Some(part) => part,
        None => Seq::empty(),
    }
}

/// The part of a text at `i` when it is split at NULs.
pub fn nul_field(parts: &Vec<String>, i: usize) -> (r: Option<String>)
    ensures
        opt_text(r) == (if i < parts@.len() {
            Some(parts@[i as int]@)
        } else {
            None
        }),
{
    if i < parts.len() {
        Some(parts[i].clone())
    } else {
        None
    }
}

/// The same, the empty text where there is no such part.
pub fn nul_field_or_empty(parts: &Vec<String>, i: usize) -> (r: String)
    ensures
        r@ == (if i < parts@.len() {
            parts@[i as int]@
        } else {
            Seq::empty()
        }),
{
    if i < parts.len() {
        parts[i].clone()
    } else {
        String::new()
    }
}

/// The commit and the date that `git log -1 --format=%H%x00%aI` printed.
pub open spec fn release_commit(meta: Seq<char>) -> Option<(Seq<char>, (i64, i32))> {
    match hex_id(encode_utf8(nul_part_or_empty(trimmed(meta), 0))) {
        None => None,
        Some(oid) => match nul_part(trimmed(meta), 1) {
            None => None,
            Some(when) => match date_of(when) {
                None => None,
                Some(date) => Some((oid, date)),
            },
        },
    }
}

/// Puts a release together from what git printed of its tag's commit and its
/// message, or nothing where the commit or its date cannot be read.
pub fn release(tag: &str, meta: Option<&str>, notes: Option<&str>) -> (r: Option<Release>)
    ensures
        ({
            let commit = match meta {
                None => None,
                Some(meta) => release_commit(meta@),
            };
            let notes = match notes {
                None => Seq::empty(),
                Some(notes) => notes@,
            };
            match commit {
                None => r is None,
                Some((oid, date)) => r matches Some(release) && release.tag@ == tag@
                    && release.title@ == trimmed(nul_part_or_empty(notes, 0)) && release.body@
                    == trimmed(nul_part_or_empty(notes, 1)) && release.date.seconds == date.0
                    && release.date.offset == date.1 && release.oid@ == oid,
            }
        }),
{
    let text = match meta {
        None => {
            return None;
        },
        Some(meta) => trim(meta),
    };
    let parts = split(text.as_str(), '\0');
    proof {
        assert(texts(parts@).len() == parts@.len());
        assert(forall|i: int| 0 <= i < parts@.len() ==> texts(parts@)[i] == #[trigger] parts@[i]@);
    }
    let hash = nul_field_or_empty(&parts, 0);
    let oid = match ObjectId::from_hex(hash.as_str().as_bytes()) {
        None => {
            return None;
        },
        Some(oid) => oid,
    };
    let date = match nul_field(&parts, 1) {
        None => {
            return None;
        },
        Some(when) => match parse_iso(when.as_str()) {
            None => {
                return None;
            },
            Some(date) => date,
        },
    };
    let noted = match notes {
        None => String::new(),
        Some(notes) => notes.to_owned(),
    };
    let lines = split(noted.as_str(), '\0');
    proof {
        assert(texts(lines@).len() == lines@.len());
        assert(forall|i: int| 0 <= i < lines@.len() ==> texts(lines@)[i] == #[trigger] lines@[i]@);
        if notes is None {
            assert(noted@ =~= Seq::empty());
        }
    }
    let title = nul_field_or_empty(&lines, 0);
    let body = nul_field_or_empty(&lines, 1);
    Some(
        Release {
            tag: tag.to_owned(),
            title: trim(title.as_str()),
            body: trim(body.as_str()),
            date,
            oid,
        },
    )
}

/// A directory found under another.
#[derive(Debug, PartialEq, Eq)]
pub struct Found {
    /// Its name.
    pub name: String,
    /// Whether it is a directory at all.
    pub is_dir: bool,
    /// Whether it is a bare repository.
    pub is_bare: bool,
}

/// A text with every backslash turned into a slash.
pub open spec fn slashed(s: Seq<char>) -> Seq<char> {
    s.map_values(
        |c: char|
            if c == '\\' {
                '/'
            } else {
                c
            },
    )
}

fn slash(s: &str) -> (r: String)
    ensures
        r@ == slashed(s@),
{
    let v = chars_of(s);
    let mut r = String::new();
    let mut i: usize = 0;
    while i < v.len()
        invariant
            i <= v@.len(),
            v@ == s@,
            r@ == slashed(v@.take(i as int)),
        decreases v@.len() - i,
    {
        proof {
            assert(v@.take(i + 1) =~= v@.take(i as int).push(v@[i as int]));
        }
        if v[i] == '\\' {
            r.push('/');
        } else {
            r.push(v[i]);
        }
        proof {
            assert(r@ =~= slashed(v@.take(i + 1)));
        }
        i += 1;
    }
    proof {
        assert(v@.take(v@.len() as int) =~= v@);
    }
    r
}

/// The path of what is found in `dir`, the root being the empty path.
pub open spec fn child_path(dir: Seq<char>, name: Seq<char>) -> Seq<char> {
    if dir.len() == 0 {
        name
    } else {
        dir + "/"@ + name
    }
}

/// The path of what is found in `dir`.
pub fn join_child(dir: &str, name: &str) -> (r: String)
    ensures
        r@ == child_path(dir@, name@),
{
    if dir.is_empty() {
        name.to_owned()
    } else {
        let mut r = dir.to_owned();
        r.append("/");
        r.append(name);
        r
    }
}

/// A search for the bare repositories under a root, a directory at a time: what
/// was found, and the directories still to be read with how many levels are
/// left below each.
#[derive(Debug)]
pub struct Discovery {
    /// The repositories found, as relative slash paths.
    pub found: Vec<String>,
    /// The directories to be read, each with the levels left.
    pub pending: Vec<(String, usize)>,
}

/// The directories to be read, as plain values.
pub open spec fn pending_views(v: Seq<(String, usize)>) -> Seq<(Seq<char>, usize)> {
    v.map_values(|p: (String, usize)| (p.0@, p.1))
}

/// The repositories among what a directory holds.
pub open spec fn repos_in(dir: Seq<char>, entries: Seq<Found>) -> Seq<Seq<char>> {
    kept(
        entries,
        |e: Found|
            if e.is_dir && e.is_bare {
                Some(slashed(child_path(dir, e.name@)))
            } else {
                None
            },
    )
}

/// The directories to be read among what a directory holds.
pub open spec fn dirs_in(dir: Seq<char>, left: usize, entries: Seq<Found>) -> Seq<
    (Seq<char>, usize),
> {
    kept(
        entries,
        |e: Found|
            if e.is_dir && !e.is_bare && left > 1 {
                Some((child_path(dir, e.name@), (left - 1) as usize))
            } else {
                None
            },
    )
}

impl Discovery {
    /// A search at the root.
    pub fn start() -> (r: Discovery)
        ensures
            r.found@.len() == 0,
            pending_views(r.pending@) == seq![(Seq::<char>::empty(), MAX_REPO_DEPTH)],
    {
        let mut pending: Vec<(String, usize)> = Vec::new();
        pending.push((String::new(), MAX_REPO_DEPTH));
        proof {
            assert(pending_views(pending@) =~= seq![(Seq::<char>::empty(), MAX_REPO_DEPTH)]);
        }
        Discovery { found: Vec::new(), pending }
    }

    /// The next directory to be read, and the levels left from it on.
    pub fn next(&mut self) -> (r: Option<(String, usize)>)
        ensures
            final(self).found == old(self).found,
            match r {
                None => old(self).pending@.len() == 0 && final(self).pending@
                    == old(self).pending@,
                Some(dir) => old(self).pending@.len() > 0 && dir == old(self).pending@.last()
                    && final(self).pending@ == old(self).pending@.drop_last(),
            },
    {
        self.pending.pop()
    }

    /// Takes in what a directory holds: a bare repository is found, any other
    /// directory is to be read where there is a level left for it.
    pub fn record(&mut self, dir: &str, left: usize, entries: &[Found])
        ensures
            texts(final(self).found@) == texts(old(self).found@) + repos_in(dir@, entries@),
            pending_views(final(self).pending@) == pending_views(old(self).pending@) + dirs_in(
                dir@,
                left,
                entries@,
            ),
    {
        let ghost f = |e: Found|
            if e.is_dir && e.is_bare {
                Some(slashed(child_path(dir@, e.name@)))
            } else {
                None
            };
        let ghost g = |e: Found|
            if e.is_dir && !e.is_bare && left > 1 {
                Some((child_path(dir@, e.name@), (left - 1) as usize))
            } else {
                None
            };
        let ghost found = texts(self.found@);
        let ghost pending = pending_views(self.pending@);
        let mut i: usize = 0;
        proof {
            assert(found + kept(entries@.take(0), f) =~= found);
            assert(pending + kept(entries@.take(0), g) =~= pending);
        }
        while i < entries.len()
            invariant
                i <= entries@.len(),
                f == |e: Found|
                    if e.is_dir && e.is_bare {
                        Some(slashed(child_path(dir@, e.name@)))
                    } else {
                        None
                    },
                g == |e: Found|
                    if e.is_dir && !e.is_bare && left > 1 {
                        Some((child_path(dir@, e.name@), (left - 1) as usize))
                    } else {
                        None
                    },
                texts(self.found@) == found + kept(entries@.take(i as int), f),
                pending_views(self.pending@) == pending + kept(entries@.take(i as int), g),
            decreases entries@.len() - i,
        {
            proof {
                lemma_kept_step(entries@, f, i as int);
                lemma_kept_step(entries@, g, i as int);
            }
            let entry = &entries[i];
            if entry.is_dir {
                let path = join_child(dir, entry.name.as_str());
                if entry.is_bare {
                    let ghost prior = texts(self.found@);
                    let repo = slash(path.as_str());
                    self.found.push(repo);
                    proof {
                        assert(texts(self.found@) =~= prior.push(slashed(path@)));
                        assert(texts(self.found@) =~= found + kept(entries@.take(i + 1), f));
                    }
                } else if left > 1 {
                    let ghost prior = pending_views(self.pending@);
                    self.pending.push((path, left - 1));
                    proof {
                        assert(pending_views(self.pending@) =~= prior.push(
                            (path@, (left - 1) as usize),
                        ));
                        assert(pending_views(self.pending@) =~= pending + kept(
                            entries@.take(i + 1),
                            g,
                        ));
                    }
                }
            }
            i += 1;
        }
        proof {
            assert(entries@.take(entries@.len() as int) =~= entries@);
        }
    }

    /// The repositories found, sorted.
    pub fn repos(&self) -> (r: Vec<String>)
        ensures
            is_arranged(texts(r@), texts(self.found@), by_name(texts(self.found@))),
            is_sorted(texts(r@)),
    {
        sort_texts(self.found.as_slice())
    }
}

/// A directory is only ever put down to be read with fewer levels left than the
/// one it was found in, so a search ends, and none goes deeper than it began.
pub proof fn law_search_goes_down(dir: Seq<char>, left: usize, entries: Seq<Found>, k: int)
    requires
        0 <= k < dirs_in(dir, left, entries).len(),
    ensures
        0 < dirs_in(dir, left, entries)[k].1 < left,
{
    let g = |e: Found|
        if e.is_dir && !e.is_bare && left > 1 {
            Some((child_path(dir, e.name@), (left - 1) as usize))
        } else {
            None
        };
    let i = lemma_kept_from(entries, g, k);
}

/// Law: what git's modes stand for.
pub proof fn law_modes_are_kinds()
    ensures
        kind_of("040000"@) == EntryKind::Tree,
        kind_of("40000"@) == EntryKind::Tree,
        kind_of("120000"@) == EntryKind::Link,
        kind_of("160000"@) == EntryKind::Commit,
        kind_of("100755"@) == EntryKind::BlobExecutable,
        kind_of("100644"@) == EntryKind::Blob,
{
    reveal_strlit("040000");
    reveal_strlit("40000");
    reveal_strlit("120000");
    reveal_strlit("160000");
    reveal_strlit("100755");
    reveal_strlit("100644");
    assert("40000"@.len() == 5);
    assert("040000"@[0] == '0' && "120000"@[0] == '1');
    assert("160000"@[0] == '1' && "100755"@[0] == '1' && "100644"@[0] == '1');
    assert("120000"@[1] == '2' && "160000"@[1] == '6' && "100755"@[1] == '0');
    assert("100644"@[1] == '0' && "100644"@[3] == '6' && "100755"@[3] == '7');
}

/// Law: a line of a tree's listing is its entry: the mode's kind, the object, and
/// all that follows the tab as the name.
pub proof fn law_tree_line_is_its_entry(
    mode: Seq<char>,
    word: Seq<char>,
    oid: Seq<char>,
    name: Seq<char>,
)
    requires
        !mode.contains(' '),
        !mode.contains('\t'),
        !word.contains(' '),
        !word.contains('\t'),
        is_id(oid),
    ensures
        entry_on(mode + " "@ + word + " "@ + oid + "\t"@ + name) matches Some(entry) && entry.kind
            == kind_of(mode) && entry.oid == oid && entry.filename == name,
{
    reveal_strlit(" ");
    reveal_strlit("\t");
    let meta = mode + " "@ + word + " "@ + oid;
    let line = mode + " "@ + word + " "@ + oid + "\t"@ + name;
    let n = meta.len() as int;
    assert forall|j: int| 0 <= j < oid.len() implies oid[j] != ' ' && oid[j] != '\t' by {
        assert('0' <= oid[j] <= '9' || 'a' <= oid[j] <= 'f');
    }
    assert forall|j: int| 0 <= j < n implies line[j] != '\t' by {
        let a = mode.len();
        let b = a + 1 + word.len();
        if j < a {
            assert(line[j] == mode[j]);
            assert(mode.contains(mode[j]));
        } else if a < j < b {
            assert(line[j] == word[j - a - 1]);
            assert(word.contains(word[j - a - 1]));
        } else if j > b {
            assert(line[j] == oid[j - b - 1]);
        }
    }
    assert(line[n] == '\t');
    lemma_index_of_is(line, '\t', n);
    assert(line.take(n) =~= meta);
    assert(line.skip(n + 1) =~= name);
    assert(meta =~= mode + seq![' '] + (word + seq![' '] + oid));
    assert(!oid.contains(' '));
    lemma_split_front(mode, ' ', word + seq![' '] + oid);
    lemma_split_front(word, ' ', oid);
    lemma_split_front(oid, ' ', seq![]);
    assert(split_on(meta, ' ') =~= seq![mode, word, oid]);
    law_id_reads_as_itself(oid);
}

/// Law: a listing shows every entry, directories first, and each by name.
pub proof fn law_directories_come_first(r: Seq<EntryView>, entries: Seq<EntryView>)
    requires
        is_arranged(r, entries, entry_keys(entries)),
    ensures
        r.len() == entries.len(),
        forall|i: int| 0 <= i < entries.len() ==> r.contains(#[trigger] entries[i]),
        forall|j: int, k: int|
            0 <= j < k < r.len() ==> {
                &&& (#[trigger] r[k]).kind is Tree ==> (#[trigger] r[j]).kind is Tree
                &&& (r[j].kind is Tree <==> r[k].kind is Tree) ==> !before(
                    r[k].filename,
                    r[j].filename,
                )
            },
{
    let keys = entry_keys(entries);
    law_arranged_keeps_every_item(r, entries, keys);
    let places = choose|places: Seq<int>|
        {
            &&& #[trigger] places.no_duplicates()
            &&& places.len() == entries.len()
            &&& forall|k: int|
                0 <= k < places.len() ==> 0 <= #[trigger] places[k] < entries.len() && r[k]
                    == entries[places[k]]
            &&& forall|j: int, k: int|
                0 <= j < k < places.len() ==> !key_before(
                    keys[#[trigger] places[k]],
                    keys[#[trigger] places[j]],
                )
        };
    assert forall|j: int, k: int| 0 <= j < k < r.len() implies {
        &&& (#[trigger] r[k]).kind is Tree ==> (#[trigger] r[j]).kind is Tree
        &&& (r[j].kind is Tree <==> r[k].kind is Tree) ==> !before(r[k].filename, r[j].filename)
    } by {
        assert(!key_before(keys[places[k]], keys[places[j]]));
    }
}

/// Law: a file counts toward the language that its name tells, with the size that
/// the listing gives.
pub proof fn law_file_counts_its_size(meta: Seq<Seq<char>>, size: u64, name: Seq<char>)
    requires
        meta.len() == 3,
        forall|i: int| 0 <= i < 3 ==> is_word(#[trigger] meta[i]),
    ensures
        counted_on(joined(meta, " "@) + " "@ + decimal(size as nat) + "\t"@ + name) == (
        match language_of(name) {
            None => None,
            Some(language) => Some(
                TotalView { name: language.0, color: language.1, bytes: size },
            ),
        }),
{
    reveal_strlit(" ");
    reveal_strlit("\t");
    let digits = decimal(size as nat);
    lemma_decimal_round_trip(size as nat, u64::MAX as nat);
    assert(is_word(digits)) by {
        assert forall|i: int| 0 <= i < digits.len() implies !is_white(#[trigger] digits[i]) by {
            assert(is_digit(digits[i]));
        }
    }
    let words = meta.push(digits);
    assert forall|i: int| 0 <= i < words.len() implies is_word(#[trigger] words[i]) by {
        if i < 3 {
            assert(words[i] == meta[i]);
        }
    }
    law_fields_undo_join(words);
    assert(words.drop_last() =~= meta);
    let text = joined(words, " "@);
    assert(text =~= joined(meta, " "@) + " "@ + digits);
    let line = text + "\t"@ + name;
    lemma_no_tab(words);
    let n = text.len() as int;
    assert forall|j: int| 0 <= j < n implies line[j] != '\t' by {
        assert(line[j] == text[j]);
    }
    assert(line[n] == '\t');
    lemma_index_of_is(line, '\t', n);
    assert(line.take(n) =~= text);
    assert(line.skip(n + 1) =~= name);
}

proof fn lemma_no_tab(words: Seq<Seq<char>>)
    requires
        forall|i: int| 0 <= i < words.len() ==> is_word(#[trigger] words[i]),
    ensures
        forall|j: int| 0 <= j < joined(words, " "@).len() ==> joined(words, " "@)[j] != '\t',
    decreases words.len(),
{
    reveal_strlit(" ");
    if words.len() > 0 {
        let less = words.drop_last();
        assert forall|i: int| 0 <= i < less.len() implies is_word(#[trigger] less[i]) by {
            assert(less[i] == words[i]);
        }
        lemma_no_tab(less);
        let last = words[words.len() - 1];
        assert(is_word(last));
        let all = joined(words, " "@);
        assert forall|j: int| 0 <= j < all.len() implies all[j] != '\t' by {
            if words.len() == 1 {
                assert(all =~= last);
                assert(!is_white(last[j]));
            } else {
                let front = joined(less, " "@);
                assert(all =~= front + " "@ + last);
                if j < front.len() {
                    assert(all[j] == front[j]);
                } else if j > front.len() {
                    assert(all[j] == last[j - front.len() - 1]);
                    assert(!is_white(last[j - front.len() - 1]));
                }
            }
        }
    }
}

/// Whether a file is in a language.
pub open spec fn is_in(file: TotalView, name: Seq<char>) -> bool {
    file.name == name
}

/// Law: a language's total is what its files come to, and a language that has
/// files has a total.
pub proof fn law_total_is_of_the_languages_files(files: Seq<TotalView>, name: Seq<char>)
    ensures
        ({
            let own = files.filter(|file: TotalView| is_in(file, name));
            let at = total_of(tallied(files), name);
            &&& 0 <= at <= tallied(files).len()
            &&& at < tallied(files).len() <==> own.len() > 0
            &&& at < tallied(files).len() ==> tallied(files)[at].name == name && tallied(
                files,
            )[at].bytes == grand_total(own)
        }),
    decreases files.len(),
{
    reveal(Seq::filter);
    let p = |file: TotalView| is_in(file, name);
    let all = tallied(files);
    lemma_total_of(all, name);
    if files.len() > 0 {
        let less = files.drop_last();
        let file = files.last();
        let prior = tallied(less);
        law_total_is_of_the_languages_files(less, name);
        lemma_total_of(prior, name);
        lemma_total_of(prior, file.name);
        let own = less.filter(p);
        if file.name == name {
            assert(files.filter(p) =~= own.push(file));
            assert(own.push(file).drop_last() =~= own);
            let at = total_of(prior, name);
            if at < prior.len() {
                lemma_total_is(all, name, at);
            } else {
                lemma_total_is(all, name, prior.len() as int);
                assert(own =~= Seq::empty());
                assert(grand_total(own) == 0);
            }
        } else {
            assert(files.filter(p) =~= own);
            let at = total_of(prior, name);
            if at < prior.len() {
                lemma_total_is(all, name, at);
            } else {
                lemma_total_is(all, name, all.len() as int);
            }
        }
    }
}

proof fn lemma_total_of(totals: Seq<TotalView>, name: Seq<char>)
    ensures
        0 <= total_of(totals, name) <= totals.len(),
        forall|j: int| 0 <= j < total_of(totals, name) ==> (#[trigger] totals[j]).name != name,
        total_of(totals, name) < totals.len() ==> totals[total_of(totals, name)].name == name,
{
    lemma_first_where(totals, |t: TotalView| t.name == name);
}

proof fn lemma_total_is(totals: Seq<TotalView>, name: Seq<char>, i: int)
    requires
        0 <= i <= totals.len(),
        forall|j: int| 0 <= j < i ==> (#[trigger] totals[j]).name != name,
        i < totals.len() ==> totals[i].name == name,
    ensures
        total_of(totals, name) == i,
{
    lemma_total_of(totals, name);
    let k = total_of(totals, name);
    if k < i {
        assert(totals[k].name != name);
    }
    if i < k {
        assert(totals[i].name != name);
    }
}

/// Law: a share is the whole part of what its bytes come to in a hundred.
pub proof fn law_share_is_of_a_hundred(bytes: u64, grand: u64)
    requires
        0 < grand,
        bytes <= grand,
        grand * 100 <= u64::MAX,
    ensures
        percentage(bytes, grand) * grand <= bytes * 100,
        bytes * 100 < (percentage(bytes, grand) + 1) * grand,
{
    let scaled = bytes * 100;
    let g = grand as int;
    assert(bytes * 100 <= grand * 100);
    vstd::arithmetic::div_mod::lemma_fundamental_div_mod(scaled, g);
    vstd::arithmetic::div_mod::lemma_mod_bound(scaled, g);
    let share = scaled / g;
    assert(share * g == g * share) by (nonlinear_arith);
    assert((share + 1) * g == g * share + g) by (nonlinear_arith);
    assert(share <= 100) by (nonlinear_arith)
        requires
            g * share <= scaled,
            scaled <= g * 100,
            g > 0,
    ;
}

/// Law: the languages that are shown are the four largest, the largest first.
pub proof fn law_largest_languages_are_shown(ordered: Seq<TotalView>, totals: Seq<TotalView>)
    requires
        is_arranged(ordered, totals, total_keys(totals)),
    ensures
        top(ordered).len() <= 4,
        totals.len() >= 4 ==> top(ordered).len() == 4,
        totals.len() <= 4 ==> top(ordered).len() == totals.len(),
        forall|j: int, k: int|
            0 <= j < top(ordered).len() && j < k < ordered.len() ==> (#[trigger] top(
                ordered,
            )[j]).bytes >= (#[trigger] ordered[k]).bytes,
{
    let keys = total_keys(totals);
    law_arranged_keeps_every_item(ordered, totals, keys);
    let places = choose|places: Seq<int>|
        {
            &&& #[trigger] places.no_duplicates()
            &&& places.len() == totals.len()
            &&& forall|k: int|
                0 <= k < places.len() ==> 0 <= #[trigger] places[k] < totals.len() && ordered[k]
                    == totals[places[k]]
            &&& forall|j: int, k: int|
                0 <= j < k < places.len() ==> !key_before(
                    keys[#[trigger] places[k]],
                    keys[#[trigger] places[j]],
                )
        };
    assert forall|j: int, k: int|
        0 <= j < top(ordered).len() && j < k < ordered.len() implies (#[trigger] top(
        ordered,
    )[j]).bytes >= (#[trigger] ordered[k]).bytes by {
        assert(top(ordered)[j] == ordered[j]);
        assert(!key_before(keys[places[k]], keys[places[j]]));
    }
}

/// Law: at most forty tags are shown as releases, the first ones.
pub proof fn law_releases_are_the_first_tags(list: Seq<char>)
    ensures
        listed_tags(list).len() <= 40,
        trimmed_nonempty(lines_of(list)).len() <= 40 ==> listed_tags(list) == trimmed_nonempty(
            lines_of(list),
        ),
        trimmed_nonempty(lines_of(list)).len() > 40 ==> listed_tags(list) == trimmed_nonempty(
            lines_of(list),
        ).take(40),
{
}

/// Law: what a directory holds is a repository where it is a bare one, is looked
/// into where it is any other directory and not too deep, and is passed over
/// otherwise.
pub proof fn law_repositories_are_found(
    dir: Seq<char>,
    left: usize,
    entries: Seq<Found>,
    i: int,
)
    requires
        0 <= i < entries.len(),
        !entries[i].name@.contains('\\'),
        !dir.contains('\\'),
        dir.len() > 0,
    ensures
        entries[i].is_dir && entries[i].is_bare ==> repos_in(dir, entries).contains(
            dir + "/"@ + entries[i].name@,
        ),
        entries[i].is_dir && !entries[i].is_bare && left > 1 ==> dirs_in(
            dir,
            left,
            entries,
        ).contains((dir + "/"@ + entries[i].name@, (left - 1) as usize)),
        left <= 1 ==> dirs_in(dir, left, entries).len() == 0,
{
    reveal_strlit("/");
    let path = dir + "/"@ + entries[i].name@;
    let f = |e: Found|
        if e.is_dir && e.is_bare {
            Some(slashed(child_path(dir, e.name@)))
        } else {
            None
        };
    let g = |e: Found|
        if e.is_dir && !e.is_bare && left > 1 {
            Some((child_path(dir, e.name@), (left - 1) as usize))
        } else {
            None
        };
    if entries[i].is_dir && entries[i].is_bare {
        let k = lemma_kept_has(entries, f, i);
        assert forall|j: int| 0 <= j < path.len() implies path[j] != '\\' by {
            if j < dir.len() {
                assert(path[j] == dir[j]);
                assert(dir.contains(dir[j]));
            } else if j > dir.len() {
                let name = entries[i].name@;
                assert(path[j] == name[j - dir.len() - 1]);
                assert(name.contains(name[j - dir.len() - 1]));
            }
        }
        assert(slashed(path) =~= path);
        assert(repos_in(dir, entries)[k] == path);
    }
    if entries[i].is_dir && !entries[i].is_bare && left > 1 {
        let k = lemma_kept_has(entries, g, i);
        assert(dirs_in(dir, left, entries)[k] == (path, (left - 1) as usize));
    }
    if left <= 1 {
        lemma_kept_none(entries, g);
    }
}

/// Law: a release is the commit that its tag names, at the moment that the commit
/// gives.
pub proof fn law_release_is_its_commit(oid: Seq<char>, moment: Seq<char>)
    requires
        is_id(oid),
        !moment.contains('\0'),
        moment.len() > 0,
        !is_white(moment.last()),
    ensures
        release_commit(oid + "\0"@ + moment) == (match date_of(moment) {
            Some(date) => Some((oid, date)),
            None => None,
        }),
{
    reveal_strlit("\0");
    let text = oid + "\0"@ + moment;
    assert('0' <= oid[0] <= '9' || 'a' <= oid[0] <= 'f');
    assert(text[0] == oid[0]);
    assert(text.last() == moment.last());
    crate::sessions::lemma_trimmed_plain(text);
    assert forall|j: int| 0 <= j < oid.len() implies oid[j] != '\0' by {
        assert('0' <= oid[j] <= '9' || 'a' <= oid[j] <= 'f');
    }
    assert(text =~= oid + seq!['\0'] + moment);
    lemma_split_front(oid, '\0', moment);
    lemma_split_front(moment, '\0', seq![]);
    assert(split_on(text, '\0') =~= seq![oid, moment]);
    law_id_reads_as_itself(oid);
}

/// Law: some languages by their extensions, in whatever case; a file without an
/// extension is in none.
pub proof fn law_languages_are_known_by_extension(stem: Seq<char>, extension: Seq<char>)
    requires
        !extension.contains('.'),
    ensures
        ({
            let found = language_of(stem + seq!['.'] + extension);
            let ext = lowered(extension);
            &&& ext == "rs"@ ==> (found matches Some(language) && language.0 == "Rust"@)
            &&& ext == "html"@ ==> (found matches Some(language) && language.0 == "HTML"@)
            &&& ext == "css"@ ==> (found matches Some(language) && language.0 == "CSS"@)
            &&& ext == "js"@ ==> (found matches Some(language) && language.0 == "JavaScript"@)
            &&& ext == "ts"@ ==> (found matches Some(language) && language.0 == "TypeScript"@)
            &&& ext == "py"@ ==> (found matches Some(language) && language.0 == "Python"@)
            &&& ext == "go"@ ==> (found matches Some(language) && language.0 == "Go"@)
        }),
        !stem.contains('.') ==> language_of(stem) is None,
{
    let name = stem + seq!['.'] + extension;
    let n = stem.len() as int;
    assert(name[n] == '.');
    assert forall|j: int| n < j < name.len() implies name[j] != '.' by {
        assert(name[j] == extension[j - n - 1]);
        assert(extension.contains(extension[j - n - 1]));
    }
    crate::text::lemma_last_index_of_is(name, '.', n);
    assert(name.skip(n + 1) =~= extension);
    reveal_strlit("rs");
    reveal_strlit("html");
    reveal_strlit("htm");
    reveal_strlit("css");
    reveal_strlit("js");
    reveal_strlit("mjs");
    reveal_strlit("cjs");
    reveal_strlit("ts");
    reveal_strlit("tsx");
    reveal_strlit("py");
    reveal_strlit("go");
    assert("rs"@.len() == 2 && "js"@.len() == 2 && "ts"@.len() == 2 && "py"@.len() == 2);
    assert("go"@.len() == 2 && "css"@.len() == 3 && "htm"@.len() == 3 && "mjs"@.len() == 3);
    assert("cjs"@.len() == 3 && "tsx"@.len() == 3 && "html"@.len() == 4);
    assert("rs"@[0] == 'r' && "js"@[0] == 'j' && "ts"@[0] == 't' && "py"@[0] == 'p');
    assert("go"@[0] == 'g' && "css"@[0] == 'c' && "htm"@[0] == 'h');
    crate::text::lemma_last_index_of(stem, '.');
    if crate::text::last_index_of(stem, '.') >= 0 {
        assert(stem.contains('.'));
    }
}

} // verus!
