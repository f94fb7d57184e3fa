//! The file views: the overview's README, the tree pane with the path to the
//! selection expanded, a file's contents, and the comments anchored to it.

use vstd::prelude::*;

use crate::bytes::{decoded, from_utf8_lossy};
use crate::keys::opt_view;
use crate::render::{
    asciidoc_name, converted, detected_language, doc_html, highlight, highlighted, is_doc,
    markdown_name, mime_of,
};
use crate::routes::BlobView;
use crate::seqs::{first_where, kept, lemma_first_where_is, lemma_kept_step};
use crate::shell::{
    ago_seconds, ago_text, can_edit, elapsed, may_edit, printed, read_printed, Auth,
};
use crate::text::{
    base_name, before_last, decimal, file_name, head_before, index_of, join, joined,
    lemma_index_of, lemma_index_of_is,
    lines, lines_of, lowercase, lowered, nonempty, opt_text, push_decimal,
    same, split_nonempty, split_on, texts, trim, trimmed,
};
use crate::tree::{
    browse_path, browsed, child_path, entry_views, join_child, Entry, EntryKind, EntryView,
    Release,
};
use crate::web_edit::LineRange;

verus! {

/// The largest blob or diff rendered in full. Past it the view shows a
/// truncation notice instead: a cap on what one page can cost.
pub const MAX_RENDER_BYTES: usize = 2097152;

/// Whether an entry is a repository's README: a document whose stem is
/// `README`.
pub open spec fn is_readme(entry: EntryView) -> bool {
    &&& !(entry.kind is Tree)
    &&& asciidoc_name(entry.filename) || markdown_name(entry.filename)
    &&& before_last(entry.filename, '.') matches Some(stem) && lowered(stem) == "readme"@
}

fn check_readme(entry: &Entry) -> (r: bool)
    ensures
        r == is_readme(entry@),
{
    match entry.kind {
        EntryKind::Tree => {
            return false;
        },
        _ => {},
    }
    if !is_doc(entry.filename.as_str()) {
        return false;
    }
    match head_before(entry.filename.as_str(), '.') {
        None => false,
        Some(stem) => {
            let stem = lowercase(stem.as_str());
            same(stem.as_str(), "readme")
        },
    }
}

/// The README for the overview: the first AsciiDoc or Markdown file in the root
/// tree whose stem is `README`.
pub fn readme(tree: &[Entry]) -> (r: Option<String>)
    ensures
        ({
            let all = entry_views(tree@);
            let i = first_where(all, |e: EntryView| is_readme(e));
            opt_text(r) == if i < all.len() {
                Some(all[i].filename)
            } else {
                None
            }
        }),
{
    let ghost all = entry_views(tree@);
    let ghost p = |e: EntryView| is_readme(e);
    let mut i: usize = 0;
    while i < tree.len()
        invariant
            i <= tree@.len(),
            all == entry_views(tree@),
            p == (|e: EntryView| is_readme(e)),
            forall|j: int| 0 <= j < i ==> !p(#[trigger] all[j]),
        decreases tree@.len() - i,
    {
        proof {
            assert(all[i as int] == tree@[i as int]@);
        }
        if check_readme(&tree[i]) {
            proof {
                lemma_first_where_is(all, p, i as int);
            }
            return Some(tree[i].filename.clone());
        }
        i += 1;
    }
    proof {
        lemma_first_where_is(all, p, i as int);
    }
    None
}

/// The git tree-ish of a path at `HEAD`.
pub open spec fn at_head(path: Seq<char>) -> Seq<char> {
    if path.len() == 0 {
        "HEAD"@
    } else {
        "HEAD:"@ + path
    }
}

/// The git tree-ish of a path at `HEAD`, the root where it is empty.
pub fn head_spec(path: &str) -> (r: String)
    ensures
        r@ == at_head(path@),
{
    if path.is_empty() {
        "HEAD".to_owned()
    } else {
        let mut r = "HEAD:".to_owned();
        r.append(path);
        r
    }
}

/// Where a tree entry leads.
pub open spec fn entry_link(rel: Seq<char>, dir: Seq<char>, entry: EntryView) -> Seq<char> {
    "/"@ + rel + (if entry.kind is Tree {
        "/tree/"@
    } else {
        "/blob/"@
    }) + child_path(dir, entry.filename)
}

/// The link to a tree entry: a `tree` view for directories, a `blob` view for
/// files. `dir` is the tree's path within the repository, empty at the root.
pub fn entry_href(rel: &str, dir: &str, entry: &Entry) -> (r: String)
    ensures
        r@ == entry_link(rel@, dir@, entry@),
{
    let mut href = "/".to_owned();
    href.append(rel);
    match entry.kind {
        EntryKind::Tree => {
            href.append("/tree/");
        },
        _ => {
            href.append("/blob/");
        },
    }
    href.append(join_child(dir, entry.filename.as_str()).as_str());
    href
}

/// A row of a directory listing.
#[derive(Debug, PartialEq, Eq)]
pub struct ListingRow {
    /// The entry's name.
    pub name: String,
    /// Where it leads.
    pub href: String,
    /// Whether it is a directory.
    pub is_dir: bool,
}

/// The rows as plain values.
pub open spec fn listing_views(v: Seq<ListingRow>) -> Seq<(Seq<char>, Seq<char>, bool)> {
    v.map_values(|row: ListingRow| (row.name@, row.href@, row.is_dir))
}

/// The rows that show a directory's entries.
pub open spec fn listing_of(rel: Seq<char>, dir: Seq<char>, entries: Seq<EntryView>) -> Seq<
    (Seq<char>, Seq<char>, bool),
> {
    entries.map_values(
        |e: EntryView| (e.filename, entry_link(rel, dir, e), e.kind is Tree),
    )
}

/// The rows that show a directory's entries.
pub fn listing(rel: &str, dir: &str, entries: &[Entry]) -> (r: Vec<ListingRow>)
    ensures
        listing_views(r@) == listing_of(rel@, dir@, entry_views(entries@)),
{
    let ghost all = entry_views(entries@);
    let mut r: Vec<ListingRow> = Vec::new();
    let mut i: usize = 0;
    while i < entries.len()
        invariant
            i <= entries@.len(),
            all == entry_views(entries@),
            r@.len() == i,
            forall|j: int|
                0 <= j < i ==> (#[trigger] r@[j]).name@ == all[j].filename && r@[j].href@
                    == entry_link(rel@, dir@, all[j]) && r@[j].is_dir == (all[j].kind is Tree),
        decreases entries@.len() - i,
    {
        let entry = &entries[i];
        let is_dir = match entry.kind {
            EntryKind::Tree => true,
            _ => false,
        };
        proof {
            assert(all[i as int] == entry@);
        }
        r.push(
            ListingRow {
                name: entry.filename.clone(),
                href: entry_href(rel, dir, entry),
                is_dir,
            },
        );
        i += 1;
    }
    proof {
        assert(listing_views(r@) =~= listing_of(rel@, dir@, all));
    }
    r
}

/// The directory that a listing page shows, given its path segments and its
/// entries: none where the path is refused, or names no directory.
pub fn tree_page(sub: &[String], entries: &[Entry]) -> (r: Option<String>)
    ensures
        opt_text(r) == (match browsed(texts(sub@)) {
            None => None,
            Some(dir) => if entries@.len() == 0 && dir.len() > 0 {
                None
            } else {
                Some(dir)
            },
        }),
{
    match browse_path(sub) {
        None => None,
        Some(dir) => if entries.len() == 0 && !dir.as_str().is_empty() {
            None
        } else {
            Some(dir)
        },
    }
}

/// What the files tab is on.
#[derive(Debug, PartialEq, Eq)]
pub struct Selection {
    /// The file that is shown, where one is selected.
    pub file: Option<String>,
    /// The directory that the tree is expanded down to.
    pub dir: String,
}

/// What a selection comes to, given its path and what `git cat-file -t` printed
/// of it: the file that is shown, and the directory that the tree is expanded
/// down to.
pub open spec fn selection_of(selected: Seq<char>, kind: Option<Seq<char>>) -> Option<
    (Option<Seq<char>>, Seq<char>),
> {
    let kind = match kind {
        Some(text) => Some(trimmed(text)),
        None => None,
    };
    if selected.len() == 0 {
        Some((None, Seq::empty()))
    } else if kind == Some("tree"@) {
        Some((None, selected))
    } else if kind == Some("blob"@) {
        Some(
            (
                Some(selected),
                match before_last(selected, '/') {
                    Some(dir) => dir,
                    None => Seq::empty(),
                },
            ),
        )
    } else {
        None
    }
}

/// Reads a selection from its path and from what `git cat-file -t` printed of
/// it: none where it is neither a file nor a directory.
pub fn select(selected: &str, kind: Option<&str>) -> (r: Option<Selection>)
    ensures
        match selection_of(selected@, opt_view(kind)) {
            Some((file, dir)) => r matches Some(s) && opt_text(s.file) == file && s.dir@ == dir,
            None => r is None,
        },
{
    if selected.is_empty() {
        return Some(Selection { file: None, dir: String::new() });
    }
    let kind = match kind {
        None => {
            return None;
        },
        Some(text) => trim(text),
    };
    if same(kind.as_str(), "tree") {
        Some(Selection { file: None, dir: selected.to_owned() })
    } else if same(kind.as_str(), "blob") {
        let dir = match head_before(selected, '/') {
            Some(dir) => dir,
            None => String::new(),
        };
        Some(Selection { file: Some(selected.to_owned()), dir })
    } else {
        None
    }
}

/// The directories that the tree is expanded along: the root, then each
/// directory on the way to `dir`, itself last.
pub open spec fn chain_of(dir: Seq<char>) -> Seq<Seq<char>> {
    let parts = nonempty(split_on(dir, '/'));
    Seq::new(parts.len() + 1, |i: int| joined(parts.take(i), "/"@))
}

/// The directories that the tree is expanded along.
pub fn expanded_dirs(dir: &str) -> (r: Vec<String>)
    ensures
        texts(r@) == chain_of(dir@),
{
    let parts = split_nonempty(dir, '/');
    let ghost all = texts(parts@);
    let n: usize = parts.len();
    let mut so_far: Vec<String> = Vec::new();
    let mut r: Vec<String> = Vec::new();
    proof {
        assert(texts(so_far@) =~= all.take(0));
    }
    r.push(join(so_far.as_slice(), "/"));
    let mut i: usize = 0;
    while i < n
        invariant
            i <= n,
            n == parts@.len(),
            all == texts(parts@),
            texts(so_far@) == all.take(i as int),
            r@.len() == i + 1,
            forall|j: int|
                0 <= j < i + 1 ==> (#[trigger] r@[j])@ == joined(all.take(j), "/"@),
        decreases n - i,
    {
        let ghost before = texts(so_far@);
        so_far.push(parts[i].clone());
        proof {
            assert(texts(so_far@) =~= before.push(all[i as int]));
            assert(texts(so_far@) =~= all.take(i + 1));
        }
        r.push(join(so_far.as_slice(), "/"));
        i += 1;
    }
    proof {
        assert(texts(r@) =~= chain_of(dir@));
    }
    r
}

/// One row of the tree pane.
#[derive(Debug, PartialEq, Eq)]
pub struct TreeRow {
    /// The entry's name.
    pub name: String,
    /// Its path.
    pub path: String,
    /// Whether it is a directory.
    pub is_dir: bool,
    /// How deep it is.
    pub depth: usize,
    /// Whether its entries are shown below it.
    pub expanded: bool,
    /// Whether it is the file shown.
    pub selected: bool,
}

/// A row as plain values.
pub ghost struct TreeRowView {
    /// The entry's name.
    pub name: Seq<char>,
    /// Its path.
    pub path: Seq<char>,
    /// Whether it is a directory.
    pub is_dir: bool,
    /// How deep it is.
    pub depth: nat,
    /// Whether its entries are shown below it.
    pub expanded: bool,
    /// Whether it is the file shown.
    pub selected: bool,
}

impl View for TreeRow {
    type V = TreeRowView;

    open spec fn view(&self) -> TreeRowView {
        TreeRowView {
            name: self.name@,
            path: self.path@,
            is_dir: self.is_dir,
            depth: self.depth as nat,
            expanded: self.expanded,
            selected: self.selected,
        }
    }
}

/// The rows as plain values.
pub open spec fn row_views(v: Seq<TreeRow>) -> Seq<TreeRowView> {
    v.map_values(|row: TreeRow| row@)
}

/// How far a row of the tree pane is indented, in pixels.
pub open spec fn indent_of(depth: usize) -> int {
    let pixels = depth * 15 + 8;
    if pixels > usize::MAX {
        usize::MAX as int
    } else {
        pixels
    }
}

/// How far a row of the tree pane is indented, in pixels.
pub fn row_indent(depth: usize) -> (r: usize)
    ensures
        r == indent_of(depth),
{
    if depth > (usize::MAX - 8) / 15 {
        usize::MAX
    } else {
        depth * 15 + 8
    }
}

/// Where a path stands in the chain of expanded directories, the root left
/// out; the chain's length where it is not in it.
pub open spec fn chain_index(chain: Seq<Seq<char>>, path: Seq<char>) -> int {
    index_of(chain.skip(1), path) + 1
}

/// The row of an entry in an expanded directory.
pub open spec fn row_of(
    chain: Seq<Seq<char>>,
    dir: Seq<char>,
    depth: nat,
    selected: Seq<char>,
    entry: EntryView,
) -> TreeRowView {
    let path = child_path(dir, entry.filename);
    let is_dir = entry.kind is Tree;
    TreeRowView {
        name: entry.filename,
        path,
        is_dir,
        depth,
        expanded: is_dir && chain_index(chain, path) < chain.len(),
        selected: !is_dir && path == selected,
    }
}

/// The rows of the tree pane from an expanded directory's entry `from` on: each
/// entry's row, and below that of an expanded directory its own rows.
/// `listings` holds the entries of each directory of `chain`.
pub open spec fn rows_from(
    chain: Seq<Seq<char>>,
    listings: Seq<Seq<EntryView>>,
    selected: Seq<char>,
    at: int,
    depth: nat,
    from: int,
) -> Seq<TreeRowView>
    decreases chain.len() - at, listings[at].len() - from,
{
    if !(0 <= at < chain.len() && at < listings.len() && 0 <= from < listings[at].len()) {
        Seq::empty()
    } else {
        let row = row_of(chain, chain[at], depth, selected, listings[at][from]);
        let below = chain_index(chain, row.path);
        let inner = if row.expanded && below > at {
            rows_from(chain, listings, selected, below, depth + 1, 0)
        } else {
            Seq::empty()
        };
        seq![row] + inner + rows_from(chain, listings, selected, at, depth, from + 1)
    }
}

fn find_in_chain(chain: &[String], path: &str) -> (r: usize)
    requires
        chain@.len() > 0,
    ensures
        r as int == chain_index(texts(chain@), path@),
        0 < r <= chain@.len(),
{
    let ghost all = texts(chain@).skip(1);
    let mut i: usize = 1;
    while i < chain.len()
        invariant
            1 <= i <= chain@.len(),
            all == texts(chain@).skip(1),
            forall|j: int| 0 <= j < i - 1 ==> #[trigger] all[j] != path@,
        decreases chain@.len() - i,
    {
        proof {
            assert(all[i - 1] == chain@[i as int]@);
        }
        if same(chain[i].as_str(), path) {
            proof {
                lemma_index_of_is(all, path@, i - 1);
            }
            return i;
        }
        i += 1;
    }
    proof {
        lemma_index_of_is(all, path@, i - 1);
    }
    i
}

/// The listings as plain values.
pub open spec fn listings_views(v: Seq<Vec<Entry>>) -> Seq<Seq<EntryView>> {
    v.map_values(|entries: Vec<Entry>| entry_views(entries@))
}

/// Walks the tree under an expanded directory, adding a row per entry and
/// descending into any that is expanded too.
fn collect_rows(
    chain: &[String],
    listings: &[Vec<Entry>],
    selected: &str,
    at: usize,
    depth: usize,
    out: &mut Vec<TreeRow>,
)
    requires
        at < chain@.len(),
        depth <= at,
        listings@.len() == chain@.len(),
    ensures
        row_views(final(out)@) == row_views(old(out)@) + rows_from(
            texts(chain@),
            listings_views(listings@),
            selected@,
            at as int,
            depth as nat,
            0,
        ),
    decreases chain@.len() - at,
{
    let ghost dirs = texts(chain@);
    let ghost views = listings_views(listings@);
    let ghost all = rows_from(dirs, views, selected@, at as int, depth as nat, 0);
    let ghost start = row_views(out@);
    let n: usize = listings[at].len();
    let mut i: usize = 0;
    proof {
        assert(views[at as int].len() == n);
        assert(start + all =~= row_views(out@) + all);
    }
    while i < n
        invariant
            i <= n,
            at < chain@.len(),
            depth <= at,
            listings@.len() == chain@.len(),
            n == listings@[at as int]@.len(),
            dirs == texts(chain@),
            views == listings_views(listings@),
            views[at as int].len() == n,
            start + all == row_views(out@) + rows_from(
                dirs,
                views,
                selected@,
                at as int,
                depth as nat,
                i as int,
            ),
        decreases n - i,
    {
        let ghost prior = row_views(out@);
        let entry = &listings[at][i];
        let path = join_child(chain[at].as_str(), entry.filename.as_str());
        let below: usize = find_in_chain(chain, path.as_str());
        let is_dir = match entry.kind {
            EntryKind::Tree => true,
            _ => false,
        };
        let expanded = is_dir && below < chain.len();
        let shown = !is_dir && same(path.as_str(), selected);
        let ghost row = row_of(dirs, dirs[at as int], depth as nat, selected@, entry@);
        proof {
            assert(views[at as int][i as int] == entry@);
            assert(dirs[at as int] == chain@[at as int]@);
        }
        out.push(
            TreeRow {
                name: entry.filename.clone(),
                path,
                is_dir,
                depth,
                expanded,
                selected: shown,
            },
        );
        proof {
            assert(row_views(out@) =~= prior.push(row));
        }
        let ghost rest = rows_from(dirs, views, selected@, at as int, depth as nat, i + 1);
        if expanded && below > at {
            let ghost inner = rows_from(dirs, views, selected@, below as int, depth as nat + 1, 0);
            collect_rows(chain, listings, selected, below, depth + 1, out);
            proof {
                assert(prior + (seq![row] + inner + rest) =~= prior.push(row) + inner + rest);
            }
        } else {
            proof {
                assert(prior + (seq![row] + Seq::<TreeRowView>::empty() + rest) =~= prior.push(row)
                    + rest);
            }
        }
        i += 1;
    }
    proof {
        assert(row_views(out@) =~= start + all);
    }
}

/// The tree pane: every entry of the root, and of each directory on the way to
/// the selection. `listings` holds the entries of each directory that
/// [`expanded_dirs`] names; one that is missing is shown empty.
pub fn tree_rows(dir: &str, selected: &str, listings: Vec<Vec<Entry>>) -> (r: Vec<TreeRow>)
    ensures
        row_views(r@) == rows_from(
            chain_of(dir@),
            padded(listings_views(listings@), chain_of(dir@).len()),
            selected@,
            0,
            0,
            0,
        ),
{
    let chain = expanded_dirs(dir);
    let ghost given = listings_views(listings@);
    let mut listings = listings;
    let n: usize = chain.len();
    proof {
        assert(texts(chain@).len() == n);
    }
    if listings.len() > n {
        listings.truncate(n);
    }
    while listings.len() < n
        invariant
            n >= 1,
            listings@.len() <= n,
            forall|i: int|
                0 <= i < listings@.len() ==> entry_views(#[trigger] listings@[i]@) == padded(
                    given,
                    n as nat,
                )[i],
            n as nat >= given.len() ==> listings@.len() >= given.len(),
            (n as nat) < given.len() ==> listings@.len() == n,
        decreases n - listings@.len(),
    {
        let empty: Vec<Entry> = Vec::new();
        proof {
            assert(entry_views(empty@) =~= Seq::<EntryView>::empty());
        }
        listings.push(empty);
    }
    let mut r: Vec<TreeRow> = Vec::new();
    proof {
        assert(listings_views(listings@) =~= padded(given, n as nat));
    }
    let ghost none = row_views(r@);
    collect_rows(chain.as_slice(), listings.as_slice(), selected, 0, 0, &mut r);
    proof {
        assert(none =~= Seq::<TreeRowView>::empty());
        assert(row_views(r@) =~= rows_from(
            chain_of(dir@),
            padded(given, n as nat),
            selected@,
            0,
            0,
            0,
        ));
    }
    r
}

/// The listings, as many as there are directories: cut short, or with empty
/// ones at the end.
pub open spec fn padded(listings: Seq<Seq<EntryView>>, n: nat) -> Seq<Seq<EntryView>> {
    Seq::new(
        n,
        |i: int|
            if i < listings.len() {
                listings[i]
            } else {
                Seq::empty()
            },
    )
}

proof fn lemma_nonempty(parts: Seq<Seq<char>>, i: int)
    requires
        0 <= i < nonempty(parts).len(),
    ensures
        nonempty(parts)[i].len() > 0,
    decreases parts.len(),
{
    if i < nonempty(parts.drop_last()).len() {
        lemma_nonempty(parts.drop_last(), i);
    }
}

proof fn lemma_chain_grows(parts: Seq<Seq<char>>, i: int, j: int)
    requires
        0 <= i <= j <= parts.len(),
    ensures
        joined(parts.take(i), "/"@).len() <= joined(parts.take(j), "/"@).len(),
    decreases j - i,
{
    if i < j {
        lemma_chain_grows(parts, i, j - 1);
        assert(parts.take(j).drop_last() =~= parts.take(j - 1));
    }
}

/// A directory that is expanded below another stands further down the way to
/// the selection, so that the tree's rows come to an end.
pub proof fn law_expansion_goes_down(dir: Seq<char>, at: int, name: Seq<char>)
    requires
        0 <= at < chain_of(dir).len(),
        chain_index(chain_of(dir), child_path(chain_of(dir)[at], name)) < chain_of(dir).len(),
    ensures
        chain_index(chain_of(dir), child_path(chain_of(dir)[at], name)) > at,
{
    let chain = chain_of(dir);
    let parts = nonempty(split_on(dir, '/'));
    let path = child_path(chain[at], name);
    lemma_index_of(chain.skip(1), path);
    let k = chain_index(chain, path);
    assert(chain.skip(1)[k - 1] == chain[k]);
    if k <= at {
        lemma_chain_grows(parts, k, at);
        reveal_strlit("/");
        if chain[at].len() > 0 {
            assert(path.len() > chain[at].len());
        } else {
            lemma_nonempty(split_on(dir, '/'), 0);
            lemma_chain_grows(parts, 1, at);
            assert(parts.take(1).drop_last() =~= parts.take(0));
            assert(parts.take(1).last() == parts[0]);
        }
    }
}

/// Whether content looks binary: a NUL byte within its first eight thousand
/// bytes, the heuristic git uses.
pub open spec fn looks_binary(bytes: Seq<u8>) -> bool {
    exists|i: int| 0 <= i < bytes.len() && i < 8000 && #[trigger] bytes[i] == 0
}

/// Whether `bytes` looks like binary content.
pub fn is_binary(bytes: &[u8]) -> (r: bool)
    ensures
        r == looks_binary(bytes@),
{
    let mut i: usize = 0;
    while i < bytes.len() && i < 8000
        invariant
            i <= bytes@.len(),
            i <= 8000,
            forall|j: int| 0 <= j < i ==> #[trigger] bytes@[j] != 0,
        decreases bytes@.len() - i,
    {
        if bytes[i] == 0 {
            return true;
        }
        i += 1;
    }
    false
}

/// What a file view shows of a file's contents.
#[derive(Debug, PartialEq, Eq)]
pub enum Content {
    /// A notice that it is too large.
    TooLarge,
    /// A notice that it is binary.
    Binary,
    /// A formatted document.
    Document(String),
    /// Its source, with a gutter of so many lines, highlighted where there is a
    /// grammar for it.
    Code {
        /// How many lines the gutter counts.
        lines: usize,
        /// The highlighted source.
        highlighted: Option<String>,
        /// The source.
        source: String,
    },
}

/// Whether content shows a file's source.
pub open spec fn shows_code(content: Content, name: Seq<char>, text: Seq<char>) -> bool {
    content matches Content::Code { lines, highlighted: html, source } && lines as int == (if lines_of(
        text,
    ).len() > 0 {
        lines_of(text).len() as int
    } else {
        1
    }) && opt_text(html) == (match detected_language(name) {
        None => None,
        Some(language) => highlighted(language, text),
    }) && source@ == text
}

/// Shows a text file's source with a line-number gutter, highlighted when its
/// name maps to a known grammar.
pub fn blob_body(name: &str, text: &str) -> (r: Content)
    ensures
        shows_code(r, name@, text@),
{
    let all = lines(text);
    proof {
        assert(texts(all@).len() == all@.len());
    }
    let count: usize = if all.len() > 0 {
        all.len()
    } else {
        1
    };
    Content::Code { lines: count, highlighted: highlight(name, text), source: text.to_owned() }
}

/// Whether content shows a file as a view of it is to.
pub open spec fn shows_blob(
    content: Content,
    name: Seq<char>,
    bytes: Seq<u8>,
    truncated: bool,
    view: BlobView,
    asciidoc: Option<Seq<char>>,
) -> bool {
    let text = decoded(bytes);
    if truncated {
        content is TooLarge
    } else if looks_binary(bytes) {
        content is Binary
    } else if view is Rendered && converted(mime_of(name), text, asciidoc) is Some {
        content matches Content::Document(html) && Some(html@) == converted(
            mime_of(name),
            text,
            asciidoc,
        )
    } else {
        shows_code(content, name, text)
    }
}

/// What a file view shows of a file: a prose format as a formatted document
/// where it is to be rendered, everything else as its source, unless it is too
/// large or binary. `asciidoc` is what the AsciiDoc converter made of it.
pub fn blob_content(
    name: &str,
    bytes: &[u8],
    truncated: bool,
    view: BlobView,
    asciidoc: Option<String>,
) -> (r: Content)
    ensures
        shows_blob(r, name@, bytes@, truncated, view, opt_text(asciidoc)),
{
    if truncated {
        return Content::TooLarge;
    }
    if is_binary(bytes) {
        return Content::Binary;
    }
    let text = from_utf8_lossy(bytes);
    match view {
        BlobView::Rendered => match doc_html(name, text.as_str(), asciidoc) {
            Some(html) => Content::Document(html),
            None => blob_body(name, text.as_str()),
        },
        BlobView::Source => blob_body(name, text.as_str()),
    }
}

/// The file that a blob view's segments name: none where they are refused or
/// name nothing.
pub fn blob_path(sub: &[String]) -> (r: Option<String>)
    ensures
        opt_text(r) == (match browsed(texts(sub@)) {
            Some(path) if path.len() > 0 => Some(path),
            _ => None,
        }),
{
    match browse_path(sub) {
        None => None,
        Some(path) => if path.as_str().is_empty() {
            None
        } else {
            Some(path)
        },
    }
}

/// Whether `git cat-file -t` printed that an object is a file.
pub fn is_blob(kind: Option<&str>) -> (r: bool)
    ensures
        r == (kind matches Some(text) && text@ == "blob\n"@),
{
    match kind {
        None => false,
        Some(text) => same(text, "blob\n"),
    }
}

/// Whether a link leads to a document's other view, where it is a prose format
/// that can be shown at all.
pub open spec fn toggles(
    link: Option<(&'static str, String)>,
    rel: Seq<char>,
    path: Seq<char>,
    bytes: Seq<u8>,
    truncated: bool,
    view: BlobView,
) -> bool {
    let name = base_name(path);
    if !truncated && !looks_binary(bytes) && (asciidoc_name(name) || markdown_name(name)) {
        match view {
            BlobView::Rendered => link matches Some(link) && link.0@ == "View source"@ && link.1@
                == "/"@ + rel + "/source/"@ + path,
            BlobView::Source => link matches Some(link) && link.0@ == "View rendered"@ && link.1@
                == "/"@ + rel + "/blob/"@ + path,
        }
    } else {
        link is None
    }
}

/// The link between a document's two views: its label, and where it leads.
pub fn view_toggle(rel: &str, path: &str, bytes: &[u8], truncated: bool, view: BlobView) -> (r:
    Option<(&'static str, String)>)
    ensures
        toggles(r, rel@, path@, bytes@, truncated, view),
{
    let name = file_name(path);
    if truncated || is_binary(bytes) || !is_doc(name.as_str()) {
        return None;
    }
    let mut href = "/".to_owned();
    href.append(rel);
    match view {
        BlobView::Rendered => {
            href.append("/source/");
            href.append(path);
            Some(("View source", href))
        },
        BlobView::Source => {
            href.append("/blob/");
            href.append(path);
            Some(("View rendered", href))
        },
    }
}

/// The head of the files tab's right-hand pane.
#[derive(Debug, PartialEq, Eq)]
pub struct PaneHead {
    /// How many lines the file has, where they can be shown.
    pub lines: Option<usize>,
    /// The text that is copied from it, where all of it was read.
    pub copy: Option<String>,
}

/// What is said of a file above its contents.
pub fn pane_head(bytes: &[u8], truncated: bool) -> (r: PaneHead)
    ensures
        match r.lines {
            Some(n) => !truncated && !looks_binary(bytes@) && n == lines_of(decoded(bytes@)).len(),
            None => truncated || looks_binary(bytes@),
        },
        opt_text(r.copy) == (if truncated {
            None
        } else {
            Some(decoded(bytes@))
        }),
{
    if truncated {
        return PaneHead { lines: None, copy: None };
    }
    let text = from_utf8_lossy(bytes);
    if is_binary(bytes) {
        return PaneHead { lines: None, copy: Some(text) };
    }
    let all = lines(text.as_str());
    proof {
        assert(texts(all@).len() == all@.len());
    }
    PaneHead { lines: Some(all.len()), copy: Some(text) }
}

/// Where a comment's anchor lands on a revision.
#[derive(Debug, PartialEq, Eq)]
pub enum Projection {
    /// Where it was made.
    Current,
    /// Elsewhere.
    Relocated {
        /// The file.
        path: String,
        /// The lines.
        lines: Option<LineRange>,
    },
    /// In a file whose lines changed.
    Outdated {
        /// The file.
        path: String,
    },
    /// In a file that is gone.
    FileDeleted,
}

/// A comment on a file as it was read: its anchor, where that lands on `HEAD`
/// if it could be projected, who wrote it and when, and its text.
#[derive(Debug, PartialEq, Eq)]
pub struct AnchoredComment {
    /// The file it was made on.
    pub path: String,
    /// The lines it was made on.
    pub lines: Option<LineRange>,
    /// Where the anchor lands on `HEAD`.
    pub projection: Option<Projection>,
    /// Who wrote it, where that is known.
    pub author: Option<String>,
    /// When, in seconds since the epoch.
    pub seconds: Option<u64>,
    /// Its text.
    pub body: String,
}

/// Where a comment lands: the file, the lines, and whether it is outdated.
pub open spec fn landing(comment: AnchoredComment) -> Option<
    (Seq<char>, Option<LineRange>, bool),
> {
    match comment.projection {
        None => None,
        Some(Projection::Current) => Some((comment.path@, comment.lines, false)),
        Some(Projection::Relocated { path, lines }) => Some((path@, lines, false)),
        Some(Projection::Outdated { path }) => Some((path@, None, true)),
        Some(Projection::FileDeleted) => None,
    }
}

/// A comment as a file view shows it.
#[derive(Debug, PartialEq, Eq)]
pub struct FileComment {
    /// Who wrote it.
    pub author: String,
    /// When, in seconds since the epoch, or zero.
    pub seconds: i64,
    /// The lines it is on.
    pub lines: Option<LineRange>,
    /// Whether its lines are gone.
    pub outdated: bool,
    /// Its text.
    pub body: String,
}

/// A comment as plain values.
pub ghost struct FileCommentView {
    /// Who wrote it.
    pub author: Seq<char>,
    /// When, in seconds since the epoch, or zero.
    pub seconds: i64,
    /// The lines it is on.
    pub lines: Option<LineRange>,
    /// Whether its lines are gone.
    pub outdated: bool,
    /// Its text.
    pub body: Seq<char>,
}

impl View for FileComment {
    type V = FileCommentView;

    open spec fn view(&self) -> FileCommentView {
        FileCommentView {
            author: self.author@,
            seconds: self.seconds,
            lines: self.lines,
            outdated: self.outdated,
            body: self.body@,
        }
    }
}

/// The comments as plain values.
pub open spec fn comment_views(v: Seq<FileComment>) -> Seq<FileCommentView> {
    v.map_values(|c: FileComment| c@)
}

/// What a file view shows of a comment: nothing where it lands elsewhere.
pub open spec fn shown_on(path: Seq<char>, comment: AnchoredComment) -> Option<FileCommentView> {
    match landing(comment) {
        Some((landed, lines, outdated)) if landed == path => Some(
            FileCommentView {
                author: match comment.author {
                    Some(author) => author@,
                    None => "?"@,
                },
                seconds: match comment.seconds {
                    Some(seconds) => if seconds > i64::MAX {
                        i64::MAX
                    } else {
                        seconds as i64
                    },
                    None => 0,
                },
                lines,
                outdated,
                body: comment.body@,
            },
        ),
        _ => None,
    }
}

fn show_comment(path: &str, comment: &AnchoredComment) -> (r: Option<FileComment>)
    ensures
        match r {
            Some(shown) => shown_on(path@, *comment) == Some(shown@),
            None => shown_on(path@, *comment) is None,
        },
{
    let (landed, lines, outdated) = match &comment.projection {
        None => {
            return None;
        },
        Some(Projection::Current) => (comment.path.as_str(), comment.lines, false),
        Some(Projection::Relocated { path, lines }) => (path.as_str(), *lines, false),
        Some(Projection::Outdated { path }) => (path.as_str(), None, true),
        Some(Projection::FileDeleted) => {
            return None;
        },
    };
    if !same(landed, path) {
        return None;
    }
    let author = match &comment.author {
        Some(author) => author.clone(),
        None => "?".to_owned(),
    };
    let seconds: i64 = match comment.seconds {
        Some(seconds) => if seconds > i64::MAX as u64 {
            i64::MAX
        } else {
            seconds as i64
        },
        None => 0,
    };
    Some(FileComment { author, seconds, lines, outdated, body: comment.body.clone() })
}

/// The comments whose anchors land on `path` at `HEAD`. One that could not be
/// projected is left out rather than failing the page.
pub fn file_comments(path: &str, comments: &[AnchoredComment]) -> (r: Vec<FileComment>)
    ensures
        comment_views(r@) == kept(comments@, |c: AnchoredComment| shown_on(path@, c)),
{
    let ghost f = |c: AnchoredComment| shown_on(path@, c);
    let mut r: Vec<FileComment> = Vec::new();
    let mut i: usize = 0;
    proof {
        assert(comment_views(r@) =~= kept(comments@.take(0), f));
    }
    while i < comments.len()
        invariant
            i <= comments@.len(),
            f == (|c: AnchoredComment| shown_on(path@, c)),
            comment_views(r@) == kept(comments@.take(i as int), f),
        decreases comments@.len() - i,
    {
        proof {
            lemma_kept_step(comments@, f, i as int);
        }
        if let Some(shown) = show_comment(path, &comments[i]) {
            let ghost prior = r@;
            r.push(shown);
            proof {
                assert(comment_views(r@) =~= comment_views(prior).push(shown@));
            }
        }
        i += 1;
    }
    proof {
        assert(comments@.take(comments@.len() as int) =~= comments@);
    }
    r
}

/// The link of a line-anchored comment to the gutter: where it leads, and its
/// label.
pub fn line_chip(range: &LineRange) -> (r: (String, String))
    ensures
        r.0@ == "#L"@ + decimal(range.start as nat),
        r.1@ == (if range.start == range.end {
            "line "@ + decimal(range.start as nat)
        } else {
            "lines "@ + decimal(range.start as nat) + "\u{2013}"@ + decimal(range.end as nat)
        }),
{
    let mut href = "#L".to_owned();
    push_decimal(&mut href, range.start);
    if range.start == range.end {
        let mut label = "line ".to_owned();
        push_decimal(&mut label, range.start);
        (href, label)
    } else {
        let mut label = "lines ".to_owned();
        push_decimal(&mut label, range.start);
        label.append("\u{2013}");
        push_decimal(&mut label, range.end);
        (href, label)
    }
}

/// Whether there is a comments card under a file view: not where there are no
/// comments, and the viewer may add none.
pub fn has_comments_card(comments: &[FileComment], auth: Option<&Auth>, editing: bool) -> (r: bool)
    ensures
        r == (comments@.len() > 0 || may_edit(
            match auth {
                Some(auth) => Some(*auth),
                None => None,
            },
            editing,
        )),
{
    comments.len() > 0 || can_edit(auth, editing)
}

/// A comment is shown on one file at most.
pub proof fn law_comment_is_on_one_file(comment: AnchoredComment, one: Seq<char>, other: Seq<char>)
    requires
        shown_on(one, comment) is Some,
        shown_on(other, comment) is Some,
    ensures
        one == other,
{
}

/// A comment whose lines are gone claims no lines.
pub proof fn law_outdated_comment_has_no_lines(comment: AnchoredComment, path: Seq<char>)
    requires
        shown_on(path, comment) is Some,
        shown_on(path, comment)->0.outdated,
    ensures
        shown_on(path, comment)->0.lines is None,
{
}

/// The body of the overview.
#[derive(Debug, PartialEq, Eq)]
pub enum Overview {
    /// A notice that the repository is empty.
    Empty,
    /// The README's name, and it as HTML.
    Readme(String, String),
    /// The root's entries.
    Files(Vec<ListingRow>),
    /// Nothing.
    Nothing,
}

/// Whether the overview shows a repository: that it is empty where it has no
/// commit, else the README where there is one and it could be rendered, else
/// the root's entries.
pub open spec fn shows_overview(
    shown: Overview,
    rel: Seq<char>,
    updated: Option<Seq<char>>,
    tree: Seq<EntryView>,
    readme: Option<(String, String)>,
) -> bool {
    if printed(updated) is None {
        shown is Empty
    } else if let Some((file, html)) = readme {
        shown == Overview::Readme(file, html)
    } else if tree.len() > 0 {
        shown matches Overview::Files(rows) && listing_views(rows@) == listing_of(
            rel,
            Seq::empty(),
            tree,
        )
    } else {
        shown is Nothing
    }
}

/// What the overview shows of a repository.
pub fn overview(
    rel: &str,
    updated: Option<&str>,
    tree: &[Entry],
    readme: Option<(String, String)>,
) -> (r: Overview)
    ensures
        shows_overview(r, rel@, opt_view(updated), entry_views(tree@), readme),
{
    if read_printed(updated).is_none() {
        return Overview::Empty;
    }
    match readme {
        Some((file, html)) => Overview::Readme(file, html),
        None => if tree.len() > 0 {
            proof {
                reveal_strlit("");
                assert(""@ =~= Seq::<char>::empty());
            }
            Overview::Files(listing(rel, "", tree))
        } else {
            Overview::Nothing
        },
    }
}

/// The latest release as the overview shows it.
#[derive(Debug, PartialEq, Eq)]
pub struct LatestRelease {
    /// The tag.
    pub tag: String,
    /// Where the releases are.
    pub href: String,
    /// What is said of it: its title, and how long ago it was.
    pub note: String,
}

/// Whether the aside shows the latest release.
pub open spec fn shows_latest(
    shown: Option<LatestRelease>,
    rel: Seq<char>,
    releases: Seq<Release>,
    now: i64,
) -> bool {
    if releases.len() == 0 {
        shown is None
    } else {
        shown matches Some(latest) && latest.tag@ == releases[0].tag@ && latest.href@ == "/"@ + rel
            + "/releases"@ && latest.note@ == releases[0].title@ + " \u{b7} "@ + ago_text(
            elapsed(now, releases[0].date.seconds),
        )
    }
}

/// The aside's release card, where there is a release.
pub fn latest_release(rel: &str, releases: &[Release], now: i64) -> (r: Option<LatestRelease>)
    ensures
        shows_latest(r, rel@, releases@, now),
{
    if releases.len() == 0 {
        return None;
    }
    let release = &releases[0];
    let mut href = "/".to_owned();
    href.append(rel);
    href.append("/releases");
    let mut note = release.title.clone();
    note.append(" \u{b7} ");
    note.append(ago_seconds(now, release.date.seconds).as_str());
    Some(LatestRelease { tag: release.tag.clone(), href, note })
}

/// Law: a README is a file of that name, in whatever case, that is AsciiDoc or
/// Markdown; a directory is none.
pub proof fn law_readme_is_a_document_of_that_name(
    kind: EntryKind,
    stem: Seq<char>,
    extension: Seq<char>,
    oid: Seq<char>,
)
    requires
        !extension.contains('.'),
    ensures
        is_readme(EntryView { kind, filename: stem + seq!['.'] + extension, oid }) <==> !(
        kind is Tree) && lowered(stem) == "readme"@ && (lowered(extension) == "adoc"@ || lowered(
            extension,
        ) == "asciidoc"@ || lowered(extension) == "asc"@ || lowered(extension) == "adc"@
            || lowered(extension) == "md"@ || lowered(extension) == "markdown"@ || lowered(
            extension,
        ) == "mdown"@ || lowered(extension) == "mkd"@),
{
    let name = stem + seq!['.'] + extension;
    let n = stem.len() as int;
    assert(name[n] == '.');
    assert forall|j: int| n < j < name.len() implies name[j] != '.' by {
        assert(name[j] == extension[j - n - 1]);
        assert(extension.contains(extension[j - n - 1]));
    }
    crate::text::lemma_last_index_of_is(name, '.', n);
    assert(name.skip(n + 1) =~= extension);
    assert(name.take(n) =~= stem);
}

/// Law: a directory's link leads to its listing and a file's to its contents, each
/// under the path of what holds it.
pub proof fn law_entries_lead_to_themselves(rel: Seq<char>, dir: Seq<char>, entry: EntryView)
    ensures
        entry.kind is Tree && dir.len() > 0 ==> entry_link(rel, dir, entry) == "/"@ + rel
            + "/tree/"@ + dir + "/"@ + entry.filename,
        !(entry.kind is Tree) && dir.len() > 0 ==> entry_link(rel, dir, entry) == "/"@ + rel
            + "/blob/"@ + dir + "/"@ + entry.filename,
        entry.kind is Tree && dir.len() == 0 ==> entry_link(rel, dir, entry) == "/"@ + rel
            + "/tree/"@ + entry.filename,
        !(entry.kind is Tree) && dir.len() == 0 ==> entry_link(rel, dir, entry) == "/"@ + rel
            + "/blob/"@ + entry.filename,
        at_head(seq![]) == "HEAD"@,
        dir.len() > 0 ==> at_head(dir) == "HEAD:"@ + dir,
{
    let kind = if entry.kind is Tree {
        "/tree/"@
    } else {
        "/blob/"@
    };
    if dir.len() > 0 {
        assert("/"@ + rel + kind + (dir + "/"@ + entry.filename) =~= "/"@ + rel + kind + dir + "/"@
            + entry.filename);
    }
}

/// Law: a listing shows every entry once, in order, by its own name, and marks
/// the directories.
pub proof fn law_listing_shows_every_entry(
    rel: Seq<char>,
    dir: Seq<char>,
    entries: Seq<EntryView>,
    i: int,
)
    requires
        0 <= i < entries.len(),
    ensures
        listing_of(rel, dir, entries).len() == entries.len(),
        listing_of(rel, dir, entries)[i].0 == entries[i].filename,
        listing_of(rel, dir, entries)[i].1 == entry_link(rel, dir, entries[i]),
        listing_of(rel, dir, entries)[i].2 == (entries[i].kind is Tree),
{
}

/// Law: what is selected is a file, shown in its directory, or a directory, shown
/// by itself; what is neither is nothing.
pub proof fn law_selection_is_a_file_or_a_directory(dir: Seq<char>, name: Seq<char>)
    requires
        !name.contains('/'),
        name.len() > 0,
    ensures
        selection_of(dir + seq!['/'] + name, Some("blob"@)) == Some(
            (Some(dir + seq!['/'] + name), dir),
        ),
        selection_of(name, Some("blob"@)) == Some((Some(name), Seq::<char>::empty())),
        selection_of(dir + seq!['/'] + name, Some("tree"@)) == Some(
            (None::<Seq<char>>, dir + seq!['/'] + name),
        ),
        selection_of(dir + seq!['/'] + name, None) is None,
        selection_of(seq![], None) == Some((None::<Seq<char>>, Seq::<char>::empty())),
{
    reveal_strlit("blob");
    reveal_strlit("tree");
    assert("blob"@[0] != "tree"@[0]);
    assert("blob"@.last() == 'b' && "tree"@.last() == 'e');
    crate::sessions::lemma_trimmed_plain("blob"@);
    crate::sessions::lemma_trimmed_plain("tree"@);
    let path = dir + seq!['/'] + name;
    let n = dir.len() as int;
    assert(path[n] == '/');
    assert forall|j: int| n < j < path.len() implies path[j] != '/' by {
        assert(path[j] == name[j - n - 1]);
        assert(name.contains(name[j - n - 1]));
    }
    crate::text::lemma_last_index_of_is(path, '/', n);
    assert(path.take(n) =~= dir);
    crate::text::lemma_last_index_of(name, '/');
    if crate::text::last_index_of(name, '/') >= 0 {
        assert(name.contains('/'));
    }
}

/// Law: the directories that are expanded lead from the root to the directory, a
/// name at a time.
pub proof fn law_chain_leads_down(parts: Seq<Seq<char>>)
    requires
        parts.len() > 0,
        forall|i: int|
            0 <= i < parts.len() ==> (#[trigger] parts[i]).len() > 0 && !parts[i].contains('/'),
    ensures
        chain_of(joined(parts, "/"@)).len() == parts.len() + 1,
        chain_of(joined(parts, "/"@))[0].len() == 0,
        chain_of(joined(parts, "/"@))[parts.len() as int] == joined(parts, "/"@),
        forall|i: int|
            1 < i <= parts.len() ==> #[trigger] chain_of(joined(parts, "/"@))[i] == chain_of(
                joined(parts, "/"@),
            )[i - 1] + "/"@ + parts[i - 1],
        chain_of(joined(parts, "/"@))[1] == parts[0],
{
    crate::http::lemma_named_parts(parts);
    let chain = chain_of(joined(parts, "/"@));
    assert(parts.take(parts.len() as int) =~= parts);
    assert(parts.take(0).len() == 0);
    assert(parts.take(1).drop_last() =~= seq![]);
    assert(parts.take(1).last() == parts[0]);
    assert(joined(parts.take(1), "/"@) =~= parts[0]);
    assert forall|i: int| 1 < i <= parts.len() implies #[trigger] chain[i] == chain[i - 1] + "/"@
        + parts[i - 1] by {
        assert(parts.take(i).drop_last() =~= parts.take(i - 1));
        assert(parts.take(i).last() == parts[i - 1]);
    }
}

/// Law: a row of the tree is its entry's: at its own path, expanded exactly where
/// it is a directory on the way, and selected exactly where it is the file that
/// is.
pub proof fn law_row_is_its_entrys(
    chain: Seq<Seq<char>>,
    dir: Seq<char>,
    depth: nat,
    selected: Seq<char>,
    entry: EntryView,
)
    requires
        chain.len() > 0,
    ensures
        ({
            let row = row_of(chain, dir, depth, selected, entry);
            &&& row.name == entry.filename
            &&& row.path == (if dir.len() == 0 {
                entry.filename
            } else {
                dir + "/"@ + entry.filename
            })
            &&& row.is_dir <==> entry.kind is Tree
            &&& row.depth == depth
            &&& row.expanded <==> entry.kind is Tree && chain.skip(1).contains(row.path)
            &&& row.selected <==> !(entry.kind is Tree) && row.path == selected
        }),
{
    lemma_index_of(chain.skip(1), row_of(chain, dir, depth, selected, entry).path);
}

/// Law: the first rows of the tree are the root's entries: each is shown, in
/// order, and between two of them stands only what is in the first.
pub proof fn law_tree_shows_every_entry(
    chain: Seq<Seq<char>>,
    listings: Seq<Seq<EntryView>>,
    selected: Seq<char>,
    at: int,
    depth: nat,
    from: int,
)
    requires
        0 <= at < chain.len(),
        chain.len() == listings.len(),
        0 <= from <= listings[at].len(),
    ensures
        rows_from(chain, listings, selected, at, depth, from).filter(
            |row: TreeRowView| row.depth == depth,
        ) == listings[at].skip(from).map_values(
            |entry: EntryView| row_of(chain, chain[at], depth, selected, entry),
        ),
    decreases chain.len() - at, listings[at].len() - from,
{
    let p = |row: TreeRowView| row.depth == depth;
    let f = |entry: EntryView| row_of(chain, chain[at], depth, selected, entry);
    let rows = rows_from(chain, listings, selected, at, depth, from);
    let rest = listings[at].skip(from);
    if from == listings[at].len() {
        assert(rest.map_values(f) =~= Seq::empty());
        assert(rows.filter(p) =~= Seq::empty()) by {
            reveal(Seq::filter);
        }
    } else {
        let row = row_of(chain, chain[at], depth, selected, listings[at][from]);
        let below = chain_index(chain, row.path);
        let inner = if row.expanded && below > at {
            rows_from(chain, listings, selected, below, depth + 1, 0)
        } else {
            Seq::empty()
        };
        if row.expanded && below > at {
            lemma_index_of(chain.skip(1), row.path);
            lemma_rows_are_deep(chain, listings, selected, below, depth + 1, 0);
        }
        law_tree_shows_every_entry(chain, listings, selected, at, depth, from + 1);
        let later = rows_from(chain, listings, selected, at, depth, from + 1);
        assert(rows == seq![row] + inner + later);
        lemma_filter_row(row, inner, later, p);
        assert(rest.map_values(f) =~= seq![row] + listings[at].skip(from + 1).map_values(f));
        assert(rows.filter(p) =~= rest.map_values(f));
    }
}

/// What is in a directory stands deeper than it.
proof fn lemma_rows_are_deep(
    chain: Seq<Seq<char>>,
    listings: Seq<Seq<EntryView>>,
    selected: Seq<char>,
    at: int,
    depth: nat,
    from: int,
)
    requires
        0 <= at < chain.len(),
        chain.len() == listings.len(),
        0 <= from <= listings[at].len(),
    ensures
        forall|k: int|
            0 <= k < rows_from(chain, listings, selected, at, depth, from).len() ==> (
            #[trigger] rows_from(chain, listings, selected, at, depth, from)[k]).depth >= depth,
    decreases chain.len() - at, listings[at].len() - from,
{
    if from < listings[at].len() {
        let row = row_of(chain, chain[at], depth, selected, listings[at][from]);
        let below = chain_index(chain, row.path);
        if row.expanded && below > at {
            lemma_index_of(chain.skip(1), row.path);
            lemma_rows_are_deep(chain, listings, selected, below, depth + 1, 0);
        }
        lemma_rows_are_deep(chain, listings, selected, at, depth, from + 1);
        let inner = if row.expanded && below > at {
            rows_from(chain, listings, selected, below, depth + 1, 0)
        } else {
            Seq::empty()
        };
        let later = rows_from(chain, listings, selected, at, depth, from + 1);
        let rows = rows_from(chain, listings, selected, at, depth, from);
        assert(rows == seq![row] + inner + later);
        assert forall|k: int| 0 <= k < rows.len() implies (#[trigger] rows[k]).depth >= depth by {
            if k > inner.len() {
                assert(rows[k] == later[k - 1 - inner.len()]);
            } else if k > 0 {
                assert(rows[k] == inner[k - 1]);
            }
        }
    }
}

/// Of a row, what is in it and what follows, the row and some of what follows are
/// left.
proof fn lemma_filter_row(
    row: TreeRowView,
    inner: Seq<TreeRowView>,
    later: Seq<TreeRowView>,
    p: spec_fn(TreeRowView) -> bool,
)
    requires
        p(row),
        forall|k: int| 0 <= k < inner.len() ==> !p(#[trigger] inner[k]),
    ensures
        (seq![row] + inner + later).filter(p) == seq![row] + later.filter(p),
{
    let none: Seq<TreeRowView> = seq![];
    lemma_filter_nothing(inner, p);
    Seq::filter_distributes_over_add(seq![row] + inner, later, p);
    Seq::filter_distributes_over_add(seq![row], inner, p);
    assert(seq![row].filter(p) =~= seq![row]) by {
        reveal(Seq::filter);
        assert(seq![row].drop_last() =~= none);
        assert(none.filter(p) =~= none);
    }
    assert(seq![row] + none =~= seq![row]);
}

proof fn lemma_filter_nothing(rows: Seq<TreeRowView>, p: spec_fn(TreeRowView) -> bool)
    requires
        forall|k: int| 0 <= k < rows.len() ==> !p(#[trigger] rows[k]),
    ensures
        rows.filter(p) == Seq::<TreeRowView>::empty(),
    decreases rows.len(),
{
    reveal(Seq::filter);
    if rows.len() > 0 {
        assert(!p(rows[rows.len() - 1]));
        lemma_filter_nothing(rows.drop_last(), p);
    }
}

/// Law: a file with a NUL among its first eight thousand bytes is taken for
/// binary, and no other is.
pub proof fn law_binary_files_hold_a_nul(bytes: Seq<u8>)
    ensures
        looks_binary(bytes) <==> exists|i: int|
            0 <= i < bytes.len() && i < 8000 && #[trigger] bytes[i] == 0u8,
{
}

/// Law: what is shown of a file: of one that is too large or binary, that it is;
/// of a document, what it is rendered to, unless its source is asked for; of any
/// other, its text, whole.
pub proof fn law_file_is_shown(
    content: Content,
    name: Seq<char>,
    bytes: Seq<u8>,
    truncated: bool,
    view: BlobView,
    asciidoc: Option<Seq<char>>,
)
    requires
        shows_blob(content, name, bytes, truncated, view, asciidoc),
    ensures
        content is TooLarge <==> truncated,
        content is Binary <==> !truncated && looks_binary(bytes),
        content matches Content::Document(html) ==> view is Rendered && converted(
            mime_of(name),
            decoded(bytes),
            asciidoc,
        ) == Some(html@),
        content matches Content::Code { lines, highlighted, source } ==> source@ == decoded(bytes)
            && (lines_of(decoded(bytes)).len() > 0 ==> lines == lines_of(decoded(bytes)).len()) && (
        lines_of(decoded(bytes)).len() == 0 ==> lines == 1),
        !truncated && !looks_binary(bytes) && view is Source ==> content is Code,
{
}

/// Law: a comment is shown on the file that it lands on, with its own text, lines
/// and author; one that the file lost, or that cannot be placed, is shown on none.
pub proof fn law_comment_is_shown_where_it_lands(comment: AnchoredComment, path: Seq<char>)
    ensures
        shown_on(path, comment) is Some <==> (match comment.projection {
            None => false,
            Some(Projection::FileDeleted) => false,
            Some(Projection::Current) => comment.path@ == path,
            Some(Projection::Relocated { path: to, lines }) => to@ == path,
            Some(Projection::Outdated { path: to }) => to@ == path,
        }),
        shown_on(path, comment) matches Some(shown) ==> shown.body == comment.body@ && (
        comment.author matches Some(author) ==> shown.author == author@) && shown.outdated == (
        comment.projection matches Some(Projection::Outdated { path: to })) && (
        comment.projection matches Some(Projection::Current) ==> shown.lines == comment.lines) && (
        comment.projection matches Some(Projection::Relocated { path: to, lines }) ==> shown.lines
            == lines) && (comment.seconds is Some && comment.seconds->0 <= i64::MAX ==> shown.seconds
            == comment.seconds->0 as i64),
{
}

/// Law: the overview shows the README where there is one, else the files, and of
/// a repository without commits that it is empty; the latest release is the first.
pub proof fn law_overview_shows_the_readme(
    shown: Overview,
    rel: Seq<char>,
    updated: Option<Seq<char>>,
    tree: Seq<EntryView>,
    readme: Option<(String, String)>,
)
    requires
        shows_overview(shown, rel, updated, tree, readme),
    ensures
        shown is Empty <==> printed(updated) is None,
        printed(updated) is Some && readme is Some ==> (shown matches Overview::Readme(file, html)
            && readme == Some((file, html))),
        printed(updated) is Some && readme is None && tree.len() > 0 ==> (
        shown matches Overview::Files(rows) && rows@.len() == tree.len() && forall|i: int|
            0 <= i < rows@.len() ==> (#[trigger] rows@[i]).name@ == tree[i].filename),
        printed(updated) is Some && readme is None && tree.len() == 0 ==> shown is Nothing,
{
    if let Overview::Files(rows) = shown {
        if printed(updated) is Some && readme is None {
            assert(listing_views(rows@).len() == rows@.len());
            assert forall|i: int| 0 <= i < rows@.len() implies (#[trigger] rows@[i]).name@
                == tree[i].filename by {
                assert(listing_views(rows@)[i].0 == rows@[i].name@);
            }
        }
    }
}

/// Law: a document can be seen rendered and as its source, and each view leads to
/// the other; nothing else has two views.
pub proof fn law_views_lead_to_each_other(
    link: Option<(&'static str, String)>,
    rel: Seq<char>,
    path: Seq<char>,
    bytes: Seq<u8>,
    truncated: bool,
    view: BlobView,
)
    requires
        toggles(link, rel, path, bytes, truncated, view),
    ensures
        link is Some <==> !truncated && !looks_binary(bytes) && (asciidoc_name(base_name(path))
            || markdown_name(base_name(path))),
        link matches Some((label, href)) ==> href@ == "/"@ + rel + (match view {
            BlobView::Rendered => "/source/"@,
            BlobView::Source => "/blob/"@,
        }) + path,
{
}

/// Law: the latest release is the first that is listed.
pub proof fn law_latest_release_is_the_first(
    shown: Option<LatestRelease>,
    rel: Seq<char>,
    releases: Seq<Release>,
    now: i64,
)
    requires
        shows_latest(shown, rel, releases, now),
    ensures
        shown is None <==> releases.len() == 0,
        shown matches Some(latest) ==> latest.tag@ == releases[0].tag@ && latest.href@ == "/"@ + rel
            + "/releases"@,
{
}

} // verus!
