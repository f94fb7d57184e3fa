//! The native smart-HTTP endpoints under `/_native/`: what a request names,
//! how fetch and push requests are read, the push-certificate nonce, and the
//! advertisement and report that answer them.

use vstd::prelude::*;
use vstd::utf8::{encode_utf8, is_ascii_chars, is_ascii_chars_encode_utf8};

use crate::bytes::{decoded, from_utf8_lossy, law_text_survives_bytes, push_bytes};
use crate::http::{
    are_repo_segments, law_safe_names_are_plain, law_segment_stays_put, lemma_named_parts,
    lemma_suffix, plain_segment, query_service, repo_segments, safe_segment, service_of,
};
use crate::object_id::{
    all_zeros, blob_hash, digits, hash_blob, hex_id, is_id, law_id_reads_as_itself, null_digits,
    ObjectId,
};
use crate::pktline::{
    blocks, flush, framed, frames, law_markers_are_passed_over, lemma_frames_flush,
    lemma_frames_front, lemma_lines_among_concat, lines_among, packed, pkt_line, pkt_lines,
    push_flush, push_pkt_text, Packet,
};
use crate::seqs::{
    first_where, kept, lemma_first_where, lemma_first_where_is, lemma_kept_all, lemma_kept_concat,
    lemma_kept_none, lemma_kept_step,
};
use crate::text::{
    after_prefix, before_suffix, decimal, ends, ends_with, fields, fields_of, halves, is_digit,
    is_white, is_word, join, joined, law_fields_undo_join, law_split_undoes_join, lemma_decimal_round_trip,
    lemma_encoded_concat, lemma_encoded_size, lemma_fields_front, lemma_index_of_is, lemma_split_front,
    lemma_stripped_end, lemma_stripped_end_keeps, lemma_trimmed_end_keeps, nonempty, opt_text,
    parse_decimal, parsed_decimal, push_decimal, same, split, split_nonempty, split_on,
    split_once, starts, starts_with, strip_prefix, strip_suffix, stripped_end, texts, trim_end,
    trim_end_of, trimmed_end,
};

verus! {

/// The repository before a service suffix, its segments joined, and the suffix.
pub open spec fn target_before(rest: Seq<char>, suffix: Seq<char>) -> Option<
    (Seq<char>, Seq<char>),
> {
    match before_suffix(rest.take(rest.len() - suffix.len()), "/"@) {
        Some(repo) => if repo_segments(nonempty(split_on(repo, '/'))) {
            Some((joined(nonempty(split_on(repo, '/')), "/"@), suffix))
        } else {
            None
        },
        None => None,
    }
}

/// What a native path names: `/_native/<repo>/<suffix>` for one of the three
/// service suffixes, the repository held to the gateway's own rule.
pub open spec fn native_target(path: Seq<char>) -> Option<(Seq<char>, Seq<char>)> {
    match after_prefix(path, "/_native/"@) {
        Some(rest) => if ends(rest, "info/refs"@) {
            target_before(rest, "info/refs"@)
        } else if ends(rest, "git-upload-pack"@) {
            target_before(rest, "git-upload-pack"@)
        } else if ends(rest, "git-receive-pack"@) {
            target_before(rest, "git-receive-pack"@)
        } else {
            None
        },
        None => None,
    }
}

fn target_of(rest: &str, suffix: &'static str) -> (r: Option<(String, &'static str)>)
    requires
        ends(rest@, suffix@),
    ensures
        match r {
            Some((repo, service)) => target_before(rest@, suffix@) == Some((repo@, service@)),
            None => target_before(rest@, suffix@) is None,
        },
{
    let before = match strip_suffix(rest, suffix) {
        Some(before) => before,
        None => {
            return None;
        },
    };
    match strip_suffix(before, "/") {
        Some(repo) => {
            let segments = split_nonempty(repo, '/');
            if are_repo_segments(&segments) {
                Some((join(&segments, "/"), suffix))
            } else {
                None
            }
        },
        None => None,
    }
}

/// What a native path names: the repository and the service suffix.
pub fn split_path(path: &str) -> (r: Option<(String, &'static str)>)
    ensures
        match r {
            Some((repo, suffix)) => native_target(path@) == Some((repo@, suffix@)),
            None => native_target(path@) is None,
        },
{
    match strip_prefix(path, "/_native/") {
        Some(rest) => if ends_with(rest, "info/refs") {
            target_of(rest, "info/refs")
        } else if ends_with(rest, "git-upload-pack") {
            target_of(rest, "git-upload-pack")
        } else if ends_with(rest, "git-receive-pack") {
            target_of(rest, "git-receive-pack")
        } else {
            None
        },
        None => None,
    }
}

/// A native request can only name a repository below the data directory: what
/// its path comes to is one to three safe names, one below the other.
pub proof fn law_native_path_stays_inside(path: Seq<char>)
    requires
        native_target(path) is Some,
    ensures
        ({
            let (repo, suffix) = native_target(path)->0;
            repo_segments(split_on(repo, '/'))
        }),
{
    let rest = after_prefix(path, "/_native/"@)->0;
    let (_, suffix) = native_target(path)->0;
    let repo = before_suffix(rest.take(rest.len() - suffix.len()), "/"@)->0;
    let parts = nonempty(split_on(repo, '/'));
    assert forall|i: int| 0 <= i < parts.len() implies !(#[trigger] parts[i]).contains('/') by {
        law_segment_stays_put(parts[i]);
    }
    reveal_strlit("/");
    assert("/"@ =~= seq!['/']);
    law_split_undoes_join(parts, '/');
}

/// What a native GET asks for.
#[derive(Debug)]
pub enum Advertise {
    /// Nothing that is served.
    NotFound,
    /// A service that there is not.
    UnknownService,
    /// The refs of a repository, for one of the two services; a push may make
    /// the repository first.
    Refs {
        /// The repository.
        repo: String,
        /// Whether the service is `git-receive-pack`.
        receive: bool,
    },
}

/// The service that a query asks for; a fetch where it names none.
pub open spec fn asked_service(query: Seq<char>) -> Seq<char> {
    match service_of(query) {
        Some(service) => service,
        None => "git-upload-pack"@,
    }
}

/// What a native GET asks for.
pub fn get_request(path: &str, query: &str) -> (r: Advertise)
    ensures
        match native_target(path@) {
            Some((repo, suffix)) => if suffix != "info/refs"@ {
                r is NotFound
            } else if asked_service(query@) == "git-upload-pack"@ {
                r matches Advertise::Refs { repo: name, receive } && name@ == repo && !receive
            } else if asked_service(query@) == "git-receive-pack"@ {
                r matches Advertise::Refs { repo: name, receive } && name@ == repo && receive
            } else {
                r is UnknownService
            },
            None => r is NotFound,
        },
{
    match split_path(path) {
        Some((repo, suffix)) => {
            if !same(suffix, "info/refs") {
                return Advertise::NotFound;
            }
            let service = match query_service(query) {
                Some(service) => service,
                None => "git-upload-pack".to_owned(),
            };
            proof {
                reveal_strlit("git-upload-pack");
                reveal_strlit("git-receive-pack");
            }
            if same(service.as_str(), "git-upload-pack") {
                Advertise::Refs { repo, receive: false }
            } else if same(service.as_str(), "git-receive-pack") {
                Advertise::Refs { repo, receive: true }
            } else {
                Advertise::UnknownService
            }
        },
        None => Advertise::NotFound,
    }
}

/// What a native POST asks for.
#[derive(Debug)]
pub enum Rpc {
    /// Nothing that is served.
    NotFound,
    /// A fetch from the repository.
    UploadPack(String),
    /// A push to the repository.
    ReceivePack(String),
}

/// What a native POST asks for.
pub fn post_request(path: &str) -> (r: Rpc)
    ensures
        match native_target(path@) {
            Some((repo, suffix)) => if suffix == "git-upload-pack"@ {
                r matches Rpc::UploadPack(name) && name@ == repo
            } else if suffix == "git-receive-pack"@ {
                r matches Rpc::ReceivePack(name) && name@ == repo
            } else {
                r is NotFound
            },
            None => r is NotFound,
        },
{
    match split_path(path) {
        Some((repo, suffix)) => {
            proof {
                reveal_strlit("git-upload-pack");
                reveal_strlit("git-receive-pack");
            }
            if same(suffix, "git-upload-pack") {
                Rpc::UploadPack(repo)
            } else if same(suffix, "git-receive-pack") {
                Rpc::ReceivePack(repo)
            } else {
                Rpc::NotFound
            }
        },
        None => Rpc::NotFound,
    }
}

/// The id that a `want` line asks for: the first field after the word.
pub open spec fn wanted(line: Seq<u8>) -> Option<Seq<char>> {
    match after_prefix(stripped_end(decoded(line), '\n'), "want "@) {
        Some(rest) => if fields_of(rest).len() > 0 {
            hex_id(encode_utf8(fields_of(rest)[0]))
        } else {
            None
        },
        None => None,
    }
}

/// The id that a `have` line offers: all that follows the word.
pub open spec fn offered(line: Seq<u8>) -> Option<Seq<char>> {
    match after_prefix(stripped_end(decoded(line), '\n'), "have "@) {
        Some(rest) => hex_id(encode_utf8(rest)),
        None => None,
    }
}

/// The ids that a fetch request wants, in the order of its lines.
pub open spec fn fetch_wants(body: Seq<u8>) -> Seq<Seq<char>> {
    kept(frames(body), |line: Seq<u8>| wanted(line))
}

/// The ids that a fetch request has, in the order of its lines.
pub open spec fn fetch_haves(body: Seq<u8>) -> Seq<Seq<char>> {
    kept(frames(body), |line: Seq<u8>| offered(line))
}

/// Reads a fetch request: the ids that it wants and those that it has, in the
/// order of its lines. A line that is neither, or whose id is none, is passed
/// over.
pub fn parse_upload_request(body: &[u8]) -> (r: (Vec<ObjectId>, Vec<ObjectId>))
    ensures
        digits(r.0@) == fetch_wants(body@),
        digits(r.1@) == fetch_haves(body@),
{
    let lines = pkt_lines(body);
    let ghost all = blocks(lines@);
    let ghost want = |line: Seq<u8>| wanted(line);
    let ghost have = |line: Seq<u8>| offered(line);
    let mut wants: Vec<ObjectId> = Vec::new();
    let mut haves: Vec<ObjectId> = Vec::new();
    let mut i: usize = 0;
    proof {
        assert(digits(wants@) =~= kept(all.take(0), want));
        assert(digits(haves@) =~= kept(all.take(0), have));
    }
    while i < lines.len()
        invariant
            i <= lines@.len(),
            all == blocks(lines@),
            want == (|line: Seq<u8>| wanted(line)),
            have == (|line: Seq<u8>| offered(line)),
            digits(wants@) == kept(all.take(i as int), want),
            digits(haves@) == kept(all.take(i as int), have),
        decreases lines@.len() - i,
    {
        proof {
            lemma_kept_step(all, want, i as int);
            lemma_kept_step(all, have, i as int);
            assert(all[i as int] == lines@[i as int]@);
        }
        let raw = from_utf8_lossy(&lines[i]);
        let text = trim_end_of(raw.as_str(), '\n');
        let ghost before_wants = digits(wants@);
        let ghost before_haves = digits(haves@);
        if let Some(rest) = strip_prefix(text.as_str(), "want ") {
            proof {
                assert(after_prefix(text@, "have "@) is None) by {
                    reveal_strlit("want ");
                    reveal_strlit("have ");
                    assert(text@.take(5)[0] == "want "@[0]);
                    if starts(text@, "have "@) {
                        assert(text@.take(5)[0] == "have "@[0]);
                    }
                }
            }
            let parts = fields(rest);
            proof {
                assert(texts(parts@).len() == parts@.len());
            }
            if parts.len() > 0 {
                proof {
                    assert(texts(parts@)[0] == parts@[0]@);
                }
                if let Some(id) = ObjectId::from_hex(parts[0].as_str().as_bytes()) {
                    wants.push(id);
                    proof {
                        assert(digits(wants@) =~= before_wants.push(id@));
                    }
                }
            }
        } else if let Some(rest) = strip_prefix(text.as_str(), "have ") {
            if let Some(id) = ObjectId::from_hex(rest.as_bytes()) {
                haves.push(id);
                proof {
                    assert(digits(haves@) =~= before_haves.push(id@));
                }
            }
        }
        i += 1;
    }
    proof {
        assert(all.take(all.len() as int) =~= all);
    }
    (wants, haves)
}

/// What a ref has to be before an edit applies.
#[derive(Debug)]
pub enum Expected {
    /// The ref is not there.
    MustNotExist,
    /// The ref points at this object.
    MustExistAndMatch(ObjectId),
}

/// One ref that a push changes.
#[derive(Debug)]
pub struct RefEdit {
    /// The ref.
    pub name: String,
    /// What it has to be before.
    pub expected: Expected,
    /// What it is to point at; `None` deletes it.
    pub new: Option<ObjectId>,
}

/// A ref edit in mathematical terms: the ref, what it pointed at before, if it
/// was there, and what it is to point at, if it is to be there.
pub struct Edit {
    /// The ref.
    pub name: Seq<char>,
    /// What it has to point at before, or nothing where it must not exist.
    pub before: Option<Seq<char>>,
    /// What it is to point at, or nothing where it is deleted.
    pub after: Option<Seq<char>>,
}

impl View for RefEdit {
    type V = Edit;

    open spec fn view(&self) -> Edit {
        Edit {
            name: self.name@,
            before: match self.expected {
                Expected::MustNotExist => None,
                Expected::MustExistAndMatch(id) => Some(id@),
            },
            after: match self.new {
                Some(id) => Some(id@),
                None => None,
            },
        }
    }
}

/// The views of a sequence of edits.
pub open spec fn edits(v: Seq<RefEdit>) -> Seq<Edit> {
    v.map_values(|e: RefEdit| e@)
}

/// An id that may stand for no object.
pub open spec fn present(id: Seq<char>) -> Option<Seq<char>> {
    if id == null_digits() {
        None
    } else {
        Some(id)
    }
}

/// The edit that a command's text asks for: `<old> <new> <ref>`, before a NUL
/// that may begin a capability list.
pub open spec fn command_edit(text: Seq<char>) -> Option<Edit> {
    let parts = fields_of(split_on(stripped_end(text, '\n'), '\0')[0]);
    if parts.len() < 3 {
        None
    } else {
        match (hex_id(encode_utf8(parts[0])), hex_id(encode_utf8(parts[1]))) {
            (Some(old_id), Some(new_id)) => Some(
                Edit { name: parts[2], before: present(old_id), after: present(new_id) },
            ),
            _ => None,
        }
    }
}

fn edit_of(text: &str) -> (r: Option<RefEdit>)
    ensures
        match r {
            Some(edit) => command_edit(text@) == Some(edit@),
            None => command_edit(text@) is None,
        },
{
    let line = trim_end_of(text, '\n');
    let pieces = split(line.as_str(), '\0');
    proof {
        assert(texts(pieces@).len() == pieces@.len());
        assert(split_on(line@, '\0').len() > 0);
        assert(texts(pieces@)[0] == pieces@[0]@);
    }
    let parts = fields(pieces[0].as_str());
    proof {
        assert(texts(parts@).len() == parts@.len());
    }
    if parts.len() < 3 {
        return None;
    }
    proof {
        assert(texts(parts@)[0] == parts@[0]@);
        assert(texts(parts@)[1] == parts@[1]@);
        assert(texts(parts@)[2] == parts@[2]@);
    }
    let old_id = ObjectId::from_hex(parts[0].as_str().as_bytes());
    let new_id = ObjectId::from_hex(parts[1].as_str().as_bytes());
    match (old_id, new_id) {
        (Some(old_id), Some(new_id)) => {
            let expected = if old_id.is_null() {
                Expected::MustNotExist
            } else {
                Expected::MustExistAndMatch(old_id)
            };
            let new = if new_id.is_null() {
                None
            } else {
                Some(new_id)
            };
            Some(RefEdit { name: parts[2].clone(), expected, new })
        },
        _ => None,
    }
}

/// The edit that a command line asks for.
pub fn parse_command(line: &[u8]) -> (r: Option<RefEdit>)
    ensures
        match r {
            Some(edit) => command_edit(decoded(line@)) == Some(edit@),
            None => command_edit(decoded(line@)) is None,
        },
{
    let text = from_utf8_lossy(line);
    edit_of(text.as_str())
}

/// A parsed push request: the ref edits it asks for and, when the client
/// signed it, the certificate text (exactly what the client signed, then its
/// signature) and the nonce it echoes.
#[derive(Debug)]
pub struct ParsedReceive {
    /// The ref edits.
    pub ref_edits: Vec<RefEdit>,
    /// The certificate.
    pub cert: Option<String>,
    /// The nonce that the certificate echoes.
    pub nonce: Option<String>,
}

/// Whether a request's first line opens a push certificate.
pub open spec fn opens_cert(line: Seq<u8>) -> bool {
    trimmed_end(split_on(decoded(line), '\0')[0]) == "push-cert"@
}

/// Whether a line closes the certificate.
pub open spec fn closes_cert(text: Seq<char>) -> bool {
    trimmed_end(text) == "push-cert-end"@
}

/// The lines of a certificate: all after the one that opens it, up to the one
/// that closes it.
pub open spec fn cert_lines(commands: Seq<Seq<u8>>) -> Seq<Seq<char>> {
    let rest = commands.skip(1).map_values(|line: Seq<u8>| decoded(line));
    rest.take(first_where(rest, |text: Seq<char>| closes_cert(text)))
}

/// Texts put one after the other.
pub open spec fn concatenated(parts: Seq<Seq<char>>) -> Seq<char>
    decreases parts.len(),
{
    if parts.len() == 0 {
        seq![]
    } else {
        concatenated(parts.drop_last()) + parts.last()
    }
}

/// How many lines come before the blank one that ends the header.
pub open spec fn header_size(lines: Seq<Seq<char>>) -> int {
    first_where(lines, |text: Seq<char>| stripped_end(text, '\n').len() == 0)
}

/// The nonce that a header gives: the last one.
pub open spec fn header_nonce(header: Seq<Seq<char>>) -> Option<Seq<char>>
    decreases header.len(),
{
    if header.len() == 0 {
        None
    } else {
        match after_prefix(stripped_end(header.last(), '\n'), "nonce "@) {
            Some(value) => Some(value),
            None => header_nonce(header.drop_last()),
        }
    }
}

/// The lines between the header and the signature: the commands.
pub open spec fn signed_commands(lines: Seq<Seq<char>>) -> Seq<Seq<char>> {
    let n = header_size(lines);
    let rest = if n < lines.len() {
        lines.skip(n + 1)
    } else {
        seq![]
    };
    rest.take(
        first_where(rest, |text: Seq<char>| starts(stripped_end(text, '\n'), "-----BEGIN"@)),
    )
}

fn cert_texts(commands: &[Vec<u8>]) -> (r: Vec<String>)
    requires
        commands@.len() > 0,
    ensures
        texts(r@) == cert_lines(blocks(commands@)),
{
    let mut r: Vec<String> = Vec::new();
    let ghost all = blocks(commands@).skip(1).map_values(|line: Seq<u8>| decoded(line));
    let ghost p = |text: Seq<char>| closes_cert(text);
    let mut i: usize = 1;
    proof {
        assert(texts(r@) =~= all.take(0));
    }
    while i < commands.len()
        invariant
            1 <= i <= commands@.len(),
            all == blocks(commands@).skip(1).map_values(|line: Seq<u8>| decoded(line)),
            p == (|text: Seq<char>| closes_cert(text)),
            texts(r@) == all.take(i - 1),
            forall|j: int| 0 <= j < i - 1 ==> !p(#[trigger] all[j]),
        decreases commands@.len() - i,
    {
        let text = from_utf8_lossy(&commands[i]);
        proof {
            assert(all[i - 1] == text@);
        }
        let trimmed = trim_end(text.as_str());
        if same(trimmed.as_str(), "push-cert-end") {
            proof {
                lemma_first_where_is(all, p, i - 1);
            }
            return r;
        }
        let ghost before = texts(r@);
        r.push(text);
        proof {
            assert(texts(r@) =~= before.push(text@));
            assert(texts(r@) =~= all.take(i as int));
        }
        i += 1;
    }
    proof {
        lemma_first_where_is(all, p, i - 1);
    }
    r
}

fn read_header(lines: &Vec<String>) -> (r: (usize, Option<String>))
    ensures
        r.0 == header_size(texts(lines@)),
        r.0 <= lines@.len(),
        opt_text(r.1) == header_nonce(texts(lines@).take(header_size(texts(lines@)))),
{
    let ghost all = texts(lines@);
    let ghost p = |text: Seq<char>| stripped_end(text, '\n').len() == 0;
    let mut nonce: Option<String> = None;
    let mut i: usize = 0;
    while i < lines.len()
        invariant
            i <= lines@.len(),
            all == texts(lines@),
            p == (|text: Seq<char>| stripped_end(text, '\n').len() == 0),
            forall|j: int| 0 <= j < i ==> !p(#[trigger] all[j]),
            opt_text(nonce) == header_nonce(all.take(i as int)),
        decreases lines@.len() - i,
    {
        let text = trim_end_of(lines[i].as_str(), '\n');
        proof {
            assert(all[i as int] == lines@[i as int]@);
            assert(all.take(i + 1).drop_last() =~= all.take(i as int));
            assert(all.take(i + 1).last() == all[i as int]);
        }
        if text.as_str().is_empty() {
            proof {
                lemma_first_where_is(all, p, i as int);
            }
            return (i, nonce);
        }
        if let Some(value) = strip_prefix(text.as_str(), "nonce ") {
            nonce = Some(value.to_owned());
        }
        i += 1;
    }
    proof {
        lemma_first_where_is(all, p, i as int);
    }
    (i, nonce)
}

fn read_commands(lines: &Vec<String>, header: usize) -> (r: Vec<RefEdit>)
    requires
        header == header_size(texts(lines@)),
        header <= lines@.len(),
    ensures
        edits(r@) == kept(signed_commands(texts(lines@)), |text: Seq<char>| command_edit(text)),
{
    let ghost all = texts(lines@);
    let ghost rest = if header < all.len() {
        all.skip(header + 1)
    } else {
        seq![]
    };
    let ghost p = |text: Seq<char>| starts(stripped_end(text, '\n'), "-----BEGIN"@);
    let ghost f = |text: Seq<char>| command_edit(text);
    let mut r: Vec<RefEdit> = Vec::new();
    proof {
        assert(edits(r@) =~= kept(rest.take(0), f));
    }
    if header == lines.len() {
        proof {
            lemma_first_where_is(rest, p, 0);
        }
        return r;
    }
    let mut i: usize = header + 1;
    while i < lines.len()
        invariant
            header < i <= lines@.len(),
            all == texts(lines@),
            rest == all.skip(header + 1),
            header == header_size(all),
            p == (|text: Seq<char>| starts(stripped_end(text, '\n'), "-----BEGIN"@)),
            f == (|text: Seq<char>| command_edit(text)),
            forall|j: int| 0 <= j < i - header - 1 ==> !p(#[trigger] rest[j]),
            edits(r@) == kept(rest.take(i - header - 1), f),
        decreases lines@.len() - i,
    {
        proof {
            assert(rest[i - header - 1] == lines@[i as int]@);
            lemma_kept_step(rest, f, i - header - 1);
        }
        let text = trim_end_of(lines[i].as_str(), '\n');
        if starts_with(text.as_str(), "-----BEGIN") {
            proof {
                lemma_first_where_is(rest, p, i - header - 1);
            }
            return r;
        }
        let ghost before = edits(r@);
        if let Some(edit) = edit_of(lines[i].as_str()) {
            r.push(edit);
            proof {
                assert(edits(r@) =~= before.push(edit@));
            }
        }
        i += 1;
    }
    proof {
        lemma_first_where_is(rest, p, rest.len() as int);
    }
    r
}

/// Whether a push request holds a certificate.
pub open spec fn is_signed(lines: Seq<Seq<u8>>) -> bool {
    lines.len() > 0 && opens_cert(lines[0])
}

/// The edits that a push request's lines ask for: those inside its certificate,
/// where it holds one.
pub open spec fn requested_edits(lines: Seq<Seq<u8>>) -> Seq<Edit> {
    if is_signed(lines) {
        kept(signed_commands(cert_lines(lines)), |text: Seq<char>| command_edit(text))
    } else {
        kept(lines, |line: Seq<u8>| command_edit(decoded(line)))
    }
}

/// The certificate that a push request holds, as the client sent it.
pub open spec fn sent_certificate(lines: Seq<Seq<u8>>) -> Option<Seq<char>> {
    if is_signed(lines) {
        Some(concatenated(cert_lines(lines)))
    } else {
        None
    }
}

/// The nonce that a push request's certificate echoes.
pub open spec fn echoed_nonce(lines: Seq<Seq<u8>>) -> Option<Seq<char>> {
    if is_signed(lines) {
        header_nonce(cert_lines(lines).take(header_size(cert_lines(lines))))
    } else {
        None
    }
}

/// Reads a push request's lines: either plain commands, or a `push-cert` block
/// (a line that opens it, a header that a blank line ends, the commands, the
/// signature, a line that closes it). With a certificate the commands inside
/// it are the ones that count.
pub fn parse_receive_request(commands: &[Vec<u8>]) -> (r: ParsedReceive)
    ensures
        edits(r.ref_edits@) == requested_edits(blocks(commands@)),
        opt_text(r.cert) == sent_certificate(blocks(commands@)),
        opt_text(r.nonce) == echoed_nonce(blocks(commands@)),
{
    let ghost all = blocks(commands@);
    let mut signed = false;
    if commands.len() > 0 {
        let first = from_utf8_lossy(&commands[0]);
        let pieces = split(first.as_str(), '\0');
        proof {
            assert(texts(pieces@).len() == pieces@.len());
            assert(split_on(first@, '\0').len() > 0);
            assert(texts(pieces@)[0] == pieces@[0]@);
            assert(all[0] == commands@[0]@);
        }
        let word = trim_end(pieces[0].as_str());
        signed = same(word.as_str(), "push-cert");
    }
    if !signed {
        let ghost f = |line: Seq<u8>| command_edit(decoded(line));
        let mut ref_edits: Vec<RefEdit> = Vec::new();
        let mut i: usize = 0;
        proof {
            assert(edits(ref_edits@) =~= kept(all.take(0), f));
        }
        while i < commands.len()
            invariant
                i <= commands@.len(),
                all == blocks(commands@),
                f == (|line: Seq<u8>| command_edit(decoded(line))),
                edits(ref_edits@) == kept(all.take(i as int), f),
            decreases commands@.len() - i,
        {
            proof {
                lemma_kept_step(all, f, i as int);
                assert(all[i as int] == commands@[i as int]@);
            }
            let ghost before = edits(ref_edits@);
            if let Some(edit) = parse_command(&commands[i]) {
                ref_edits.push(edit);
                proof {
                    assert(edits(ref_edits@) =~= before.push(edit@));
                }
            }
            i += 1;
        }
        proof {
            assert(all.take(all.len() as int) =~= all);
        }
        return ParsedReceive { ref_edits, cert: None, nonce: None };
    }
    let lines = cert_texts(commands);
    let ghost cert_seq = texts(lines@);
    let mut cert = String::new();
    let mut i: usize = 0;
    while i < lines.len()
        invariant
            i <= lines@.len(),
            cert_seq == texts(lines@),
            cert@ == concatenated(cert_seq.take(i as int)),
        decreases lines@.len() - i,
    {
        cert.append(lines[i].as_str());
        proof {
            assert(cert_seq.take(i + 1).drop_last() =~= cert_seq.take(i as int));
            assert(cert_seq.take(i + 1).last() == lines@[i as int]@);
        }
        i += 1;
    }
    proof {
        assert(cert_seq.take(cert_seq.len() as int) =~= cert_seq);
    }
    let (header, nonce) = read_header(&lines);
    let ref_edits = read_commands(&lines, header);
    ParsedReceive { ref_edits, cert: Some(cert), nonce }
}

/// How long an issued nonce stays echoable, in seconds.
pub const NONCE_SLOP_SECONDS: u64 = 300;

/// What is hashed to bind a nonce to a process, a repository and a moment.
pub open spec fn nonce_text(secret: Seq<char>, repo: Seq<char>, stamp: nat) -> Seq<char> {
    secret + ":"@ + repo + ":"@ + decimal(stamp)
}

/// The keyed hash that binds a nonce to the process that holds `secret`, to
/// `repo` and to `stamp`.
pub fn nonce_mac(secret: &str, repo: &str, stamp: u64) -> (r: Option<String>)
    ensures
        opt_text(r) == blob_hash(encode_utf8(nonce_text(secret@, repo@, stamp as nat))),
{
    let mut data = secret.to_owned();
    data.append(":");
    data.append(repo);
    data.append(":");
    push_decimal(&mut data, stamp);
    hash_blob(data.as_str().as_bytes())
}

/// The nonce issued for `repo` at `stamp`.
pub open spec fn nonce_at(secret: Seq<char>, repo: Seq<char>, stamp: nat) -> Option<Seq<char>> {
    match blob_hash(encode_utf8(nonce_text(secret, repo, stamp))) {
        Some(mac) => Some(decimal(stamp) + "-"@ + mac),
        None => None,
    }
}

/// A fresh nonce for `repo`, issued at `now`.
pub fn issue_nonce(secret: &str, repo: &str, now: u64) -> (r: Option<String>)
    ensures
        opt_text(r) == nonce_at(secret@, repo@, now as nat),
{
    match nonce_mac(secret, repo, now) {
        Some(mac) => Some(nonce_from(now, mac.as_str())),
        None => None,
    }
}

/// The nonce that a stamp and its hash make.
pub fn nonce_from(stamp: u64, mac: &str) -> (r: String)
    ensures
        r@ == decimal(stamp as nat) + "-"@ + mac@,
{
    let mut nonce = String::new();
    push_decimal(&mut nonce, stamp);
    nonce.append("-");
    nonce.append(mac);
    proof {
        assert(nonce@ =~= decimal(stamp as nat) + "-"@ + mac@);
    }
    nonce
}

/// The stamp that a nonce carries and the hash it claims.
pub open spec fn nonce_parts(nonce: Seq<char>) -> Option<(nat, Seq<char>)> {
    match halves(nonce, '-') {
        Some((stamp, mac)) => match parsed_decimal(stamp, u64::MAX as nat) {
            Some(n) => Some((n, mac)),
            None => None,
        },
        None => None,
    }
}

/// The stamp that a nonce carries and the hash it claims.
pub fn split_nonce(nonce: &str) -> (r: Option<(u64, String)>)
    ensures
        match r {
            Some((stamp, mac)) => nonce_parts(nonce@) == Some((stamp as nat, mac@)),
            None => nonce_parts(nonce@) is None,
        },
{
    match split_once(nonce, '-') {
        Some((stamp, mac)) => match parse_decimal(stamp.as_str(), u64::MAX) {
            Some(n) => Some((n, mac)),
            None => None,
        },
        None => None,
    }
}

/// Whether `stamp` is no older than the slop allows at `now`; one from the
/// future is not old.
pub open spec fn fresh(stamp: nat, now: nat) -> bool {
    now <= stamp + NONCE_SLOP_SECONDS
}

/// Whether `nonce` is one that the holder of `secret` issued for `repo` and
/// that is still fresh at `now`.
pub open spec fn nonce_ok(
    secret: Seq<char>,
    repo: Seq<char>,
    nonce: Seq<char>,
    now: nat,
) -> bool {
    match nonce_parts(nonce) {
        Some((stamp, mac)) => blob_hash(encode_utf8(nonce_text(secret, repo, stamp))) == Some(mac)
            && fresh(stamp, now),
        None => false,
    }
}

/// Whether `nonce` is one that this process issued for `repo` within the slop
/// window: checked by computing it again, with nothing stored.
pub fn nonce_valid(secret: &str, repo: &str, nonce: &str, now: u64) -> (r: bool)
    ensures
        r == nonce_ok(secret@, repo@, nonce@, now as nat),
{
    match split_nonce(nonce) {
        Some((stamp, mac)) => {
            let expected = nonce_mac(secret, repo, stamp);
            mac_accepted(&expected, mac.as_str(), stamp, now)
        },
        None => false,
    }
}

/// Whether the hash a nonce claims is the expected one, and its stamp fresh.
pub fn mac_accepted(expected: &Option<String>, mac: &str, stamp: u64, now: u64) -> (r: bool)
    ensures
        r == (opt_text(*expected) == Some(mac@) && fresh(stamp as nat, now as nat)),
{
    let matches = match expected {
        Some(hash) => same(hash.as_str(), mac),
        None => false,
    };
    let age: u64 = if now > stamp {
        now - stamp
    } else {
        0
    };
    matches && age <= NONCE_SLOP_SECONDS
}

/// A nonce is accepted for the repository it was issued for as long as it is
/// fresh, and not a second longer.
pub proof fn law_issued_nonce_is_valid_while_fresh(
    secret: Seq<char>,
    repo: Seq<char>,
    stamp: u64,
    now: u64,
)
    requires
        nonce_at(secret, repo, stamp as nat) is Some,
    ensures
        nonce_ok(secret, repo, nonce_at(secret, repo, stamp as nat)->0, now as nat) == (now
            <= stamp + 300),
{
    let text = decimal(stamp as nat);
    let mac = blob_hash(encode_utf8(nonce_text(secret, repo, stamp as nat)))->0;
    let nonce = text + "-"@ + mac;
    lemma_decimal_round_trip(stamp as nat, u64::MAX as nat);
    reveal_strlit("-");
    assert forall|j: int| 0 <= j < text.len() implies nonce[j] != '-' by {
        assert(is_digit(text[j]));
        assert(nonce[j] == text[j]);
    }
    lemma_index_of_is(nonce, '-', text.len() as int);
    assert(nonce.take(text.len() as int) =~= text);
    assert(nonce.skip(1 + text.len() as int) =~= mac);
}

/// What stops a push before anything is staged: a certificate whose nonce is
/// missing or not one recently issued for the repository.
pub fn receive_refusal(
    parsed: &ParsedReceive,
    secret: &str,
    repo: &str,
    now: u64,
) -> (r: Option<&'static str>)
    ensures
        r is Some <==> parsed.cert is Some && !(parsed.nonce matches Some(nonce) && nonce_ok(
            secret@,
            repo@,
            nonce@,
            now as nat,
        )),
        r matches Some(reason) ==> reason@ == "push certificate nonce was missing or stale"@,
{
    if parsed.cert.is_none() {
        return None;
    }
    let accepted = match &parsed.nonce {
        Some(nonce) => nonce_valid(secret, repo, nonce.as_str(), now),
        None => false,
    };
    if accepted {
        None
    } else {
        Some("push certificate nonce was missing or stale")
    }
}

/// The refs of a repository, with the one that `HEAD` names.
#[derive(Debug)]
pub struct RefAdvertisement {
    /// The ref that `HEAD` points at.
    pub head: Option<String>,
    /// The refs and what they point at.
    pub refs: Vec<(String, ObjectId)>,
}

/// The views of a sequence of refs.
pub open spec fn ref_views(v: Seq<(String, ObjectId)>) -> Seq<(Seq<char>, Seq<char>)> {
    v.map_values(|r: (String, ObjectId)| (r.0@, r.1@))
}

/// The capabilities that the first line of an advertisement carries.
pub open spec fn capabilities(
    head: Option<String>,
    receive: bool,
    nonce: Option<Seq<char>>,
) -> Seq<char> {
    let base = if receive {
        "report-status delete-refs ofs-delta agent=git-ents/1.0"@
    } else {
        "ofs-delta agent=git-ents/1.0"@
    };
    let cert = match nonce {
        Some(nonce) => base + " push-cert="@ + nonce,
        None => base,
    };
    match head {
        Some(name) => cert + " symref=HEAD:"@ + name@,
        None => cert,
    }
}

/// What `HEAD` points at: the object of the first ref of its name.
pub open spec fn head_id(
    head: Option<String>,
    refs: Seq<(Seq<char>, Seq<char>)>,
) -> Option<Seq<char>> {
    match head {
        Some(name) => {
            let i = first_where(refs, |r: (Seq<char>, Seq<char>)| r.0 == name@);
            if i < refs.len() {
                Some(refs[i].1)
            } else {
                None
            }
        },
        None => None,
    }
}

/// One line of an advertisement.
pub open spec fn ref_line(id: Seq<char>, name: Seq<char>, caps: Option<Seq<char>>) -> Seq<u8> {
    framed(
        encode_utf8(
            match caps {
                Some(caps) => id + " "@ + name + "\0"@ + caps + "\n"@,
                None => id + " "@ + name + "\n"@,
            },
        ),
    )
}

/// The lines for the refs, the first of which carries the capabilities unless
/// a line before it has.
pub open spec fn ref_lines(
    refs: Seq<(Seq<char>, Seq<char>)>,
    caps: Seq<char>,
    carried: bool,
) -> Seq<u8>
    decreases refs.len(),
{
    if refs.len() == 0 {
        seq![]
    } else {
        ref_lines(refs.drop_last(), caps, carried) + ref_line(
            refs.last().1,
            refs.last().0,
            if carried || refs.len() > 1 {
                None
            } else {
                Some(caps)
            },
        )
    }
}

/// An advertisement: `HEAD` first if it resolves, then every ref, then a
/// flush; a repository without refs advertises its capabilities alone.
pub open spec fn advertisement(
    ad: RefAdvertisement,
    receive: bool,
    nonce: Option<Seq<char>>,
) -> Seq<u8> {
    let caps = capabilities(ad.head, receive, nonce);
    let refs = ref_views(ad.refs@);
    if refs.len() == 0 {
        ref_line(null_digits(), "capabilities^{}"@, Some(caps)) + flush()
    } else {
        match head_id(ad.head, refs) {
            Some(id) => ref_line(id, "HEAD"@, Some(caps)) + ref_lines(refs, caps, true) + flush(),
            None => ref_lines(refs, caps, false) + flush(),
        }
    }
}

fn push_ref(out: &mut Vec<u8>, id: &str, name: &str, caps: Option<&str>)
    ensures
        final(out)@ == old(out)@ + ref_line(
            id@,
            name@,
            match caps {
                Some(caps) => Some(caps@),
                None => None,
            },
        ),
{
    let mut line = id.to_owned();
    line.append(" ");
    line.append(name);
    if let Some(caps) = caps {
        line.append("\0");
        line.append(caps);
    }
    line.append("\n");
    push_pkt_text(out, line.as_str());
}

/// The advertised lines of a repository's refs.
pub fn advertisement_lines(
    ad: &RefAdvertisement,
    receive: bool,
    push_cert_nonce: Option<&str>,
) -> (r: Vec<u8>)
    ensures
        r@ == advertisement(
            *ad,
            receive,
            match push_cert_nonce {
                Some(nonce) => Some(nonce@),
                None => None,
            },
        ),
{
    let mut caps = if receive {
        "report-status delete-refs ofs-delta agent=git-ents/1.0".to_owned()
    } else {
        "ofs-delta agent=git-ents/1.0".to_owned()
    };
    if let Some(nonce) = push_cert_nonce {
        caps.append(" push-cert=");
        caps.append(nonce);
    }
    if let Some(head) = &ad.head {
        caps.append(" symref=HEAD:");
        caps.append(head.as_str());
    }
    let ghost all = ref_views(ad.refs@);
    let mut out: Vec<u8> = Vec::new();
    if ad.refs.len() == 0 {
        let null = ObjectId::null();
        push_ref(&mut out, null.as_str(), "capabilities^{}", Some(caps.as_str()));
        push_flush(&mut out);
        proof {
            assert(all.len() == 0);
            assert(out@ =~= ref_line(null_digits(), "capabilities^{}"@, Some(caps@)) + flush());
        }
        return out;
    }
    let mut carried = false;
    if let Some(head) = &ad.head {
        let ghost p = |r: (Seq<char>, Seq<char>)| r.0 == head@;
        let mut i: usize = 0;
        while i < ad.refs.len() && !same(ad.refs[i].0.as_str(), head.as_str())
            invariant
                i <= ad.refs@.len(),
                all == ref_views(ad.refs@),
                p == (|r: (Seq<char>, Seq<char>)| r.0 == head@),
                forall|j: int| 0 <= j < i ==> !p(#[trigger] all[j]),
            decreases ad.refs@.len() - i,
        {
            proof {
                assert(all[i as int] == (ad.refs@[i as int].0@, ad.refs@[i as int].1@));
            }
            i += 1;
        }
        proof {
            if i < all.len() {
                assert(all[i as int] == (ad.refs@[i as int].0@, ad.refs@[i as int].1@));
            }
            lemma_first_where_is(all, p, i as int);
        }
        if i < ad.refs.len() {
            push_ref(&mut out, ad.refs[i].1.as_str(), "HEAD", Some(caps.as_str()));
            carried = true;
        }
    }
    let ghost start = out@;
    let mut i: usize = 0;
    proof {
        assert(out@ =~= start + ref_lines(all.take(0), caps@, carried));
    }
    while i < ad.refs.len()
        invariant
            i <= ad.refs@.len(),
            all == ref_views(ad.refs@),
            out@ == start + ref_lines(all.take(i as int), caps@, carried),
        decreases ad.refs@.len() - i,
    {
        let ghost before = out@;
        if carried || i > 0 {
            push_ref(&mut out, ad.refs[i].1.as_str(), ad.refs[i].0.as_str(), None);
        } else {
            push_ref(&mut out, ad.refs[i].1.as_str(), ad.refs[i].0.as_str(), Some(caps.as_str()));
        }
        proof {
            assert(all.take(i + 1).drop_last() =~= all.take(i as int));
            assert(all.take(i + 1).last() == (ad.refs@[i as int].0@, ad.refs@[i as int].1@));
            assert(out@ =~= start + ref_lines(all.take(i + 1), caps@, carried));
        }
        i += 1;
    }
    proof {
        assert(all.take(all.len() as int) =~= all);
    }
    push_flush(&mut out);
    proof {
        if carried {
            assert(out@ =~= start + ref_lines(all, caps@, true) + flush());
        } else {
            assert(start =~= seq![]);
            assert(out@ =~= ref_lines(all, caps@, false) + flush());
        }
        assert(out@ =~= advertisement(
            *ad,
            receive,
            match push_cert_nonce {
                Some(nonce) => Some(nonce@),
                None => None,
            },
        ));
    }
    out
}

/// The body that answers a native GET: the service's name, a flush, and the
/// advertisement.
pub fn advertisement_body(
    ad: &RefAdvertisement,
    receive: bool,
    push_cert_nonce: Option<&str>,
) -> (r: Vec<u8>)
    ensures
        r@ == framed(
            encode_utf8(
                if receive {
                    "# service=git-receive-pack\n"@
                } else {
                    "# service=git-upload-pack\n"@
                },
            ),
        ) + flush() + advertisement(
            *ad,
            receive,
            match push_cert_nonce {
                Some(nonce) => Some(nonce@),
                None => None,
            },
        ),
{
    let mut out = pkt_line(
        if receive {
            "# service=git-receive-pack\n".as_bytes()
        } else {
            "# service=git-upload-pack\n".as_bytes()
        },
    );
    push_flush(&mut out);
    let lines = advertisement_lines(ad, receive, push_cert_nonce);
    push_bytes(&mut out, &lines);
    out
}

/// What became of a push.
#[derive(Debug)]
pub enum PushOutcome {
    /// Every edit was applied.
    Accepted,
    /// No edit was applied, for this reason.
    Rejected(String),
}

/// The line that reports on one ref.
pub open spec fn report_line(name: Seq<char>, outcome: PushOutcome) -> Seq<u8> {
    framed(
        encode_utf8(
            match outcome {
                PushOutcome::Accepted => "ok "@ + name + "\n"@,
                PushOutcome::Rejected(reason) => "ng "@ + name + " "@ + reason@ + "\n"@,
            },
        ),
    )
}

/// The lines that report on every ref.
pub open spec fn report_lines(names: Seq<Seq<char>>, outcome: PushOutcome) -> Seq<u8>
    decreases names.len(),
{
    if names.len() == 0 {
        seq![]
    } else {
        report_lines(names.drop_last(), outcome) + report_line(names.last(), outcome)
    }
}

/// The report that answers a push.
pub open spec fn push_report(names: Seq<Seq<char>>, outcome: PushOutcome) -> Seq<u8> {
    framed(encode_utf8("unpack ok\n"@)) + report_lines(names, outcome) + flush()
}

/// The report that answers a push: `unpack ok`, one line for each ref in the
/// order of the commands, and a flush.
pub fn report_status(names: &[String], outcome: &PushOutcome) -> (r: Vec<u8>)
    ensures
        r@ == push_report(texts(names@), *outcome),
{
    let mut out = pkt_line("unpack ok\n".as_bytes());
    let ghost start = out@;
    let ghost all = texts(names@);
    let mut i: usize = 0;
    proof {
        assert(out@ =~= start + report_lines(all.take(0), *outcome));
    }
    while i < names.len()
        invariant
            i <= names@.len(),
            all == texts(names@),
            out@ == start + report_lines(all.take(i as int), *outcome),
        decreases names@.len() - i,
    {
        let mut line = String::new();
        match outcome {
            PushOutcome::Accepted => {
                line.append("ok ");
                line.append(names[i].as_str());
            },
            PushOutcome::Rejected(reason) => {
                line.append("ng ");
                line.append(names[i].as_str());
                line.append(" ");
                line.append(reason.as_str());
            },
        }
        line.append("\n");
        proof {
            assert(line@ =~= match *outcome {
                PushOutcome::Accepted => "ok "@ + names@[i as int]@ + "\n"@,
                PushOutcome::Rejected(reason) => "ng "@ + names@[i as int]@ + " "@ + reason@
                    + "\n"@,
            });
            assert(all.take(i + 1).drop_last() =~= all.take(i as int));
            assert(all.take(i + 1).last() == names@[i as int]@);
        }
        let ghost before = out@;
        push_pkt_text(&mut out, line.as_str());
        proof {
            assert(out@ =~= start + report_lines(all.take(i + 1), *outcome));
        }
        i += 1;
    }
    proof {
        assert(all.take(all.len() as int) =~= all);
    }
    push_flush(&mut out);
    out
}

/// The body that answers a fetch: nothing in common is acknowledged, and the
/// pack follows.
pub fn upload_body(pack: &[u8]) -> (r: Vec<u8>)
    ensures
        r@ == framed(encode_utf8("NAK\n"@)) + pack@,
{
    let mut out = pkt_line("NAK\n".as_bytes());
    push_bytes(&mut out, pack);
    out
}

/// The names of the refs that a push changes, in order.
pub fn edit_names(ref_edits: &Vec<RefEdit>) -> (r: Vec<String>)
    ensures
        texts(r@) == edits(ref_edits@).map_values(|e: Edit| e.name),
{
    let mut r: Vec<String> = Vec::new();
    let mut i: usize = 0;
    while i < ref_edits.len()
        invariant
            i <= ref_edits@.len(),
            texts(r@) == edits(ref_edits@).map_values(|e: Edit| e.name).take(i as int),
        decreases ref_edits@.len() - i,
    {
        let ghost before = texts(r@);
        let name = ref_edits[i].name.clone();
        r.push(name);
        proof {
            assert(texts(r@) =~= before.push(name@));
            let names = edits(ref_edits@).map_values(|e: Edit| e.name);
            assert(names[i as int] == name@);
            assert(names.take(i + 1) =~= names.take(i as int).push(name@));
        }
        i += 1;
    }
    proof {
        let names = edits(ref_edits@).map_values(|e: Edit| e.name);
        assert(names.take(names.len() as int) =~= names);
    }
    r
}

/// A certificate comes apart into what the client put together: a header of
/// lines that are not blank, a blank line, the commands, and a signature. The
/// commands are exactly those between the blank line and the signature.
pub proof fn law_certificate_parts(
    header: Seq<Seq<char>>,
    blank: Seq<char>,
    commands: Seq<Seq<char>>,
    signature: Seq<Seq<char>>,
)
    requires
        forall|i: int|
            0 <= i < header.len() ==> stripped_end(#[trigger] header[i], '\n').len() > 0,
        stripped_end(blank, '\n').len() == 0,
        forall|i: int|
            0 <= i < commands.len() ==> !starts(
                stripped_end(#[trigger] commands[i], '\n'),
                "-----BEGIN"@,
            ),
        signature.len() > 0,
        starts(stripped_end(signature[0], '\n'), "-----BEGIN"@),
    ensures
        header_size(header + seq![blank] + commands + signature) == header.len(),
        signed_commands(header + seq![blank] + commands + signature) == commands,
{
    let lines = header + seq![blank] + commands + signature;
    let p = |text: Seq<char>| stripped_end(text, '\n').len() == 0;
    assert forall|j: int| 0 <= j < header.len() implies !p(#[trigger] lines[j]) by {
        assert(lines[j] == header[j]);
    }
    assert(lines[header.len() as int] == blank);
    lemma_first_where_is(lines, p, header.len() as int);
    let rest = lines.skip(1 + header.len() as int);
    assert(rest =~= commands + signature);
    let q = |text: Seq<char>| starts(stripped_end(text, '\n'), "-----BEGIN"@);
    assert forall|j: int| 0 <= j < commands.len() implies !q(#[trigger] rest[j]) by {
        assert(rest[j] == commands[j]);
    }
    assert(rest[commands.len() as int] == signature[0]);
    lemma_first_where_is(rest, q, commands.len() as int);
    assert(rest.take(commands.len() as int) =~= commands);
}

/// Whether a text may follow a command: nothing, newlines, or a NUL with
/// capabilities behind it.
pub open spec fn ends_command(tail: Seq<char>) -> bool {
    tail.len() == 0 || tail[0] == '\0' || forall|i: int|
        0 <= i < tail.len() ==> #[trigger] tail[i] == '\n'
}

/// Whether a text can be a ref's name in a command: a word without a NUL.
pub open spec fn is_ref_name(name: Seq<char>) -> bool {
    is_word(name) && !name.contains('\0')
}

/// What is cut off a command's end is no part of the command.
proof fn lemma_command_alone(command: Seq<char>, tail: Seq<char>)
    requires
        command.len() > 0,
        command.last() != '\n',
        !command.contains('\0'),
        ends_command(tail),
    ensures
        split_on(stripped_end(command + tail, '\n'), '\0')[0] == command,
{
    let text = command + tail;
    let n = command.len() as int;
    if tail.len() > 0 && tail[0] == '\0' {
        assert(text[n] == '\0');
        lemma_stripped_end_keeps(text, '\n', n);
        let kept_text = stripped_end(text, '\n');
        let rest = kept_text.skip(n + 1);
        assert(kept_text =~= command + seq!['\0'] + rest);
        lemma_split_front(command, '\0', rest);
    } else {
        let newlines = Seq::new(tail.len(), |i: int| '\n');
        assert(tail =~= newlines);
        lemma_stripped_end(command, '\n', tail.len());
        lemma_split_front(command, '\0', seq![]);
    }
}

/// The three words of a command are its fields.
proof fn lemma_command_fields(old_id: Seq<char>, new_id: Seq<char>, name: Seq<char>)
    requires
        is_id(old_id),
        is_id(new_id),
        is_ref_name(name),
    ensures
        ({
            let command = old_id + " "@ + new_id + " "@ + name;
            &&& fields_of(command) == seq![old_id, new_id, name]
            &&& command.len() > 80
            &&& command.last() != '\n'
            &&& !command.contains('\0')
            &&& command[0] == old_id[0]
            &&& command[39] == old_id[39]
        }),
{
    reveal_strlit(" ");
    let command = old_id + " "@ + new_id + " "@ + name;
    assert(" "@ =~= seq![' ']);
    assert(is_word(old_id)) by {
        assert forall|i: int| 0 <= i < old_id.len() implies !is_white(#[trigger] old_id[i]) by {}
    }
    assert(is_word(new_id)) by {
        assert forall|i: int| 0 <= i < new_id.len() implies !is_white(#[trigger] new_id[i]) by {}
    }
    assert(command =~= old_id + seq![' '] + (new_id + seq![' '] + name));
    lemma_fields_front(old_id, ' ', new_id + seq![' '] + name);
    lemma_fields_front(new_id, ' ', name);
    lemma_fields_front(name, ' ', seq![]);
    assert(fields_of(command) =~= seq![old_id, new_id, name]);
    assert(command.last() == name.last());
    assert(!is_white(name[name.len() - 1]));
    assert forall|i: int| 0 <= i < command.len() implies #[trigger] command[i] != '\0' by {
        if i < 40 {
            assert(command[i] == old_id[i]);
        } else if 41 <= i < 81 {
            assert(command[i] == new_id[i - 41]);
        } else if 82 <= i {
            assert(command[i] == name[i - 82]);
            assert(name.contains(name[i - 82]));
        }
    }
}

/// Law: a command, with or without capabilities or a newline after it, asks for
/// what it says: the ref goes from the first id to the second, an id of zeros
/// standing for a ref that is not there.
pub proof fn law_command_reads_as_written(
    old_id: Seq<char>,
    new_id: Seq<char>,
    name: Seq<char>,
    tail: Seq<char>,
)
    requires
        is_id(old_id),
        is_id(new_id),
        is_ref_name(name),
        ends_command(tail),
    ensures
        command_edit(old_id + " "@ + new_id + " "@ + name + tail) matches Some(edit) && edit.name
            == name && (edit.before is None <==> all_zeros(old_id)) && (edit.after is None
            <==> all_zeros(new_id)) && (edit.before matches Some(id) ==> id == old_id) && (
        edit.after matches Some(id) ==> id == new_id),
{
    let command = old_id + " "@ + new_id + " "@ + name;
    lemma_command_fields(old_id, new_id, name);
    lemma_command_alone(command, tail);
    law_id_reads_as_itself(old_id);
    law_id_reads_as_itself(new_id);
}

/// A change of one ref, as a client asks for it.
pub struct Change {
    /// The object that the ref points at; zeros where there is no such ref.
    pub old_id: Seq<char>,
    /// The object that it is to point at; zeros where it is to go.
    pub new_id: Seq<char>,
    /// The ref.
    pub name: Seq<char>,
    /// What follows the command on its line.
    pub tail: Seq<char>,
}

impl Change {
    /// Whether the change can be written as a command.
    pub open spec fn ok(self) -> bool {
        is_id(self.old_id) && is_id(self.new_id) && is_ref_name(self.name) && ends_command(
            self.tail,
        )
    }

    /// The command's line.
    pub open spec fn line(self) -> Seq<char> {
        self.old_id + " "@ + self.new_id + " "@ + self.name + self.tail
    }

    /// Whether an edit makes this change.
    pub open spec fn made_by(self, edit: Edit) -> bool {
        &&& edit.name == self.name
        &&& edit.before == (if all_zeros(self.old_id) {
            None
        } else {
            Some(self.old_id)
        })
        &&& edit.after == (if all_zeros(self.new_id) {
            None
        } else {
            Some(self.new_id)
        })
    }
}

proof fn lemma_change_reads(change: Change)
    requires
        change.ok(),
    ensures
        command_edit(change.line()) is Some,
        change.made_by(command_edit(change.line())->0),
{
    law_command_reads_as_written(change.old_id, change.new_id, change.name, change.tail);
}

/// Law: a push without a certificate asks for the changes that its lines write,
/// all of them, in their order.
pub proof fn law_plain_push_asks_for_its_changes(changes: Seq<Change>)
    requires
        forall|i: int| 0 <= i < changes.len() ==> (#[trigger] changes[i]).ok(),
    ensures
        ({
            let lines = changes.map_values(|change: Change| encode_utf8(change.line()));
            &&& requested_edits(lines).len() == changes.len()
            &&& forall|i: int|
                0 <= i < changes.len() ==> (#[trigger] changes[i]).made_by(
                    requested_edits(lines)[i],
                )
            &&& sent_certificate(lines) is None
            &&& echoed_nonce(lines) is None
        }),
{
    let lines = changes.map_values(|change: Change| encode_utf8(change.line()));
    let f = |line: Seq<u8>| command_edit(decoded(line));
    let want = changes.map_values(|change: Change| command_edit(change.line())->0);
    assert forall|i: int| 0 <= i < lines.len() implies f(#[trigger] lines[i]) == Some(want[i]) by {
        assert(changes[i].ok());
        lemma_change_reads(changes[i]);
        law_text_survives_bytes(changes[i].line());
    }
    lemma_kept_all(lines, f, want);
    if lines.len() > 0 {
        let change = changes[0];
        let text = change.line();
        let command = change.old_id + " "@ + change.new_id + " "@ + change.name;
        law_text_survives_bytes(text);
        assert(lines[0] == encode_utf8(text));
        lemma_command_fields(change.old_id, change.new_id, change.name);
        let first = split_on(text, '\0')[0];
        assert(first.len() >= 40 && first[39] == change.old_id[39]) by {
            if change.tail.len() > 0 && change.tail[0] == '\0' {
                let rest = change.tail.skip(1);
                assert(text =~= command + seq!['\0'] + rest);
                lemma_split_front(command, '\0', rest);
            } else {
                assert forall|i: int| 0 <= i < text.len() implies #[trigger] text[i] != '\0' by {
                    if i < command.len() {
                        assert(text[i] == command[i]);
                        assert(command.contains(command[i]));
                    } else {
                        assert(text[i] == change.tail[i - command.len()]);
                    }
                }
                lemma_split_front(text, '\0', seq![]);
            }
        }
        lemma_trimmed_end_keeps(first, 39);
        reveal_strlit("push-cert");
        assert("push-cert"@.len() == 9);
        assert(!opens_cert(lines[0]));
    }
    assert forall|i: int| 0 <= i < changes.len() implies (#[trigger] changes[i]).made_by(
        requested_edits(lines)[i],
    ) by {
        lemma_change_reads(changes[i]);
        assert(requested_edits(lines)[i] == want[i]);
    }
}

/// Texts in a row, however they are put together.
proof fn lemma_concatenated(parts: Seq<Seq<char>>)
    ensures
        concatenated(parts) == parts.flatten(),
    decreases parts.len(),
{
    if parts.len() > 0 {
        lemma_concatenated(parts.drop_last());
        parts.drop_last().lemma_flatten_push(parts.last());
        assert(parts.drop_last().push(parts.last()) =~= parts);
    } else {
        assert(concatenated(parts) =~= parts.flatten());
    }
}

/// Law: a signed push asks for the changes that its certificate writes between
/// the blank line and the signature, in their order, and is signed as a whole:
/// the certificate is everything between the lines that open and close it, and
/// the nonce the one that its header echoes.
pub proof fn law_signed_push_asks_for_its_changes(
    caps: Seq<char>,
    header: Seq<Seq<char>>,
    nonce: Seq<char>,
    changes: Seq<Change>,
    signature: Seq<Seq<char>>,
    rest: Seq<Seq<char>>,
)
    requires
        header.len() > 0,
        nonce.len() > 0,
        nonce.last() != '\n',
        forall|i: int|
            0 <= i < header.len() ==> (#[trigger] header[i]).len() > 0 && header[i][0] != '\n'
                && !starts(header[i], "nonce "@) && trimmed_end(header[i]) != "push-cert-end"@,
        forall|i: int| 0 <= i < changes.len() ==> (#[trigger] changes[i]).ok(),
        signature.len() > 0,
        starts(signature[0], "-----BEGIN"@),
        forall|i: int|
            0 <= i < signature.len() ==> trimmed_end(#[trigger] signature[i])
                != "push-cert-end"@,
        trimmed_end("nonce "@ + nonce + "\n"@) != "push-cert-end"@,
    ensures
        ({
            let signed = header + seq!["nonce "@ + nonce + "\n"@, "\n"@] + changes.map_values(
                |change: Change| change.line(),
            ) + signature;
            let lines = seq![encode_utf8("push-cert\0"@ + caps)] + (signed + seq![
                "push-cert-end\n"@,
            ] + rest).map_values(|text: Seq<char>| encode_utf8(text));
            &&& requested_edits(lines).len() == changes.len()
            &&& forall|i: int|
                0 <= i < changes.len() ==> (#[trigger] changes[i]).made_by(
                    requested_edits(lines)[i],
                )
            &&& sent_certificate(lines) == Some(signed.flatten())
            &&& echoed_nonce(lines) == Some(nonce)
        }),
{
    let echo = "nonce "@ + nonce + "\n"@;
    let blank = "\n"@;
    let written = changes.map_values(|change: Change| change.line());
    let signed = header + seq![echo, blank] + written + signature;
    let after = signed + seq!["push-cert-end\n"@] + rest;
    let lines = seq![encode_utf8("push-cert\0"@ + caps)] + after.map_values(
        |text: Seq<char>| encode_utf8(text),
    );
    reveal_strlit("push-cert\0");
    reveal_strlit("push-cert");
    reveal_strlit("push-cert-end");
    reveal_strlit("push-cert-end\n");
    reveal_strlit("\n");
    reveal_strlit("nonce ");
    reveal_strlit("-----BEGIN");
    // The line that opens the certificate.
    let open = "push-cert\0"@ + caps;
    law_text_survives_bytes(open);
    assert(open =~= "push-cert"@ + seq!['\0'] + caps);
    assert forall|i: int| 0 <= i < 9 implies #[trigger] "push-cert"@[i] != '\0' by {}
    lemma_split_front("push-cert"@, '\0', caps);
    assert("push-cert"@.last() == 't');
    assert(trimmed_end("push-cert"@) == "push-cert"@);
    assert(lines[0] == encode_utf8(open));
    assert(opens_cert(lines[0]));
    // The lines inside it.
    let texts_after = lines.skip(1).map_values(|line: Seq<u8>| decoded(line));
    assert forall|i: int| 0 <= i < after.len() implies texts_after[i] == after[i] by {
        law_text_survives_bytes(after[i]);
    }
    assert(texts_after =~= after);
    let closing = |text: Seq<char>| closes_cert(text);
    let h = header.len() as int;
    let c = changes.len() as int;
    let n = signed.len() as int;
    assert forall|i: int| 0 <= i < n implies !closing(#[trigger] after[i]) by {
        if i < h {
            assert(after[i] == header[i]);
        } else if i == h {
            assert(after[i] == echo);
        } else if i == h + 1 {
            assert(after[i] == blank);
            assert(blank.drop_last() =~= seq![]);
            assert(trimmed_end(blank.drop_last()).len() == 0);
            assert(trimmed_end(blank).len() == 0);
        } else if i < h + 2 + c {
            let change = changes[i - h - 2];
            assert(change.ok());
            assert(after[i] == change.line());
            assert(change.line()[39] == change.old_id[39]);
            lemma_trimmed_end_keeps(change.line(), 39);
        } else {
            assert(after[i] == signature[i - h - 2 - c]);
        }
    }
    assert(after[n] == "push-cert-end\n"@);
    assert("push-cert-end\n"@.drop_last() =~= "push-cert-end"@);
    assert("push-cert-end"@.last() == 'd');
    assert(trimmed_end("push-cert-end"@) == "push-cert-end"@);
    assert("push-cert-end\n"@.last() == '\n');
    assert(trimmed_end("push-cert-end\n"@) == "push-cert-end"@);
    assert(closing(after[n]));
    lemma_first_where_is(after, closing, n);
    assert(after.take(n) =~= signed);
    assert(cert_lines(lines) == signed);
    lemma_concatenated(signed);
    // Its header and its commands.
    let head = header.push(echo);
    assert forall|i: int| 0 <= i < head.len() implies stripped_end(
        #[trigger] head[i],
        '\n',
    ).len() > 0 by {
        if i < h {
            assert(head[i] == header[i]);
        } else {
            assert(head[i] == echo);
            assert(echo[0] == 'n');
        }
        lemma_stripped_end_keeps(head[i], '\n', 0);
    }
    assert(blank.drop_last() =~= seq![]);
    assert(stripped_end(blank.drop_last(), '\n').len() == 0);
    assert(stripped_end(blank, '\n').len() == 0);
    assert forall|i: int| 0 <= i < written.len() implies !starts(
        stripped_end(#[trigger] written[i], '\n'),
        "-----BEGIN"@,
    ) by {
        let change = changes[i];
        assert(change.ok());
        assert(written[i] == change.line());
        assert(change.line()[0] == change.old_id[0]);
        assert('0' <= change.old_id[0] <= '9' || 'a' <= change.old_id[0] <= 'f');
        lemma_stripped_end_keeps(change.line(), '\n', 0);
        let kept_text = stripped_end(written[i], '\n');
        if starts(kept_text, "-----BEGIN"@) {
            assert(kept_text.take(10)[0] == "-----BEGIN"@[0]);
        }
    }
    assert(starts(stripped_end(signature[0], '\n'), "-----BEGIN"@)) by {
        let s = signature[0];
        assert(s.take(10)[9] == "-----BEGIN"@[9]);
        lemma_stripped_end_keeps(s, '\n', 9);
        assert(stripped_end(s, '\n').take(10) =~= s.take(10));
    }
    law_certificate_parts(head, blank, written, signature);
    assert(head + seq![blank] + written + signature =~= signed);
    assert(header_size(signed) == h + 1);
    assert(signed_commands(signed) == written);
    assert(signed.take(h + 1) =~= head);
    assert(head.drop_last() =~= header);
    assert(stripped_end(echo, '\n') == "nonce "@ + nonce) by {
        let said = "nonce "@ + nonce;
        assert(echo =~= said + Seq::new(1, |i: int| '\n'));
        lemma_stripped_end(said, '\n', 1);
    }
    assert(("nonce "@ + nonce).take(6) =~= "nonce "@);
    assert(("nonce "@ + nonce).skip(6) =~= nonce);
    let f = |text: Seq<char>| command_edit(text);
    let want = changes.map_values(|change: Change| command_edit(change.line())->0);
    assert forall|i: int| 0 <= i < written.len() implies f(#[trigger] written[i]) == Some(
        want[i],
    ) by {
        assert(changes[i].ok());
        lemma_change_reads(changes[i]);
    }
    lemma_kept_all(written, f, want);
    assert forall|i: int| 0 <= i < changes.len() implies (#[trigger] changes[i]).made_by(
        requested_edits(lines)[i],
    ) by {
        lemma_change_reads(changes[i]);
        assert(requested_edits(lines)[i] == want[i]);
    }
}

/// Whether a text begins with `said` and goes on with a NUL or a newline.
pub open spec fn says(text: Seq<char>, said: Seq<char>) -> bool {
    &&& text.len() > said.len()
    &&& text.take(said.len() as int) == said
    &&& text[said.len() as int] == '\0' || text[said.len() as int] == '\n'
}

/// Whether a line that names a ref and carries `caps` is short enough for its
/// four digits.
pub open spec fn fits_line(name: Seq<char>, caps: Seq<char>) -> bool {
    encode_utf8(name).len() + encode_utf8(caps).len() + 47 <= 0xffff
}

/// A line of an advertisement is as long as its parts.
proof fn lemma_line_size(id: Seq<char>, name: Seq<char>, caps: Seq<char>)
    requires
        is_id(id),
        fits_line(name, caps),
    ensures
        encode_utf8(id + " "@ + name + "\n"@).len() + 4 <= 0xffff,
        encode_utf8(id + " "@ + name + "\0"@ + caps + "\n"@).len() + 4 <= 0xffff,
{
    reveal_strlit(" ");
    reveal_strlit("\0");
    reveal_strlit("\n");
    lemma_encoded_concat(id, " "@);
    lemma_encoded_concat(id + " "@, name);
    lemma_encoded_concat(id + " "@ + name, "\n"@);
    lemma_encoded_concat(id + " "@ + name, "\0"@);
    lemma_encoded_concat(id + " "@ + name + "\0"@, caps);
    lemma_encoded_concat(id + " "@ + name + "\0"@ + caps, "\n"@);
    assert(is_ascii_chars(id + " "@)) by {
        assert forall|i: int| 0 <= i < 41 implies '\0' <= #[trigger] (id + " "@)[i] <= '\u{7f}' by {
            if i < 40 {
                assert('0' <= id[i] <= '9' || 'a' <= id[i] <= 'f');
            }
        }
    }
    assert(is_ascii_chars("\n"@));
    assert(is_ascii_chars("\0"@));
    is_ascii_chars_encode_utf8(id + " "@);
    is_ascii_chars_encode_utf8("\n"@);
    is_ascii_chars_encode_utf8("\0"@);
}

/// The text of a ref's line.
spec fn line_text(id: Seq<char>, name: Seq<char>, caps: Option<Seq<char>>) -> Seq<char> {
    match caps {
        Some(caps) => id + " "@ + name + "\0"@ + caps + "\n"@,
        None => id + " "@ + name + "\n"@,
    }
}

/// A ref's line is read back from the front of what it begins.
proof fn lemma_ref_line(
    id: Seq<char>,
    name: Seq<char>,
    caps: Seq<char>,
    carries: bool,
    rest: Seq<u8>,
)
    requires
        is_id(id),
        fits_line(name, caps),
    ensures
        ({
            let carried = if carries {
                Some(caps)
            } else {
                None
            };
            &&& frames(ref_line(id, name, carried) + rest) == seq![
                encode_utf8(line_text(id, name, carried)),
            ] + frames(rest)
            &&& decoded(encode_utf8(line_text(id, name, carried))) == line_text(id, name, carried)
            &&& says(line_text(id, name, carried), id + " "@ + name)
        }),
{
    reveal_strlit(" ");
    reveal_strlit("\0");
    reveal_strlit("\n");
    let carried = if carries {
        Some(caps)
    } else {
        None
    };
    let text = line_text(id, name, carried);
    lemma_line_size(id, name, caps);
    lemma_frames_front(encode_utf8(text), rest);
    law_text_survives_bytes(text);
    assert(text.take((id + " "@ + name).len() as int) =~= id + " "@ + name);
}

/// The lines of refs, one by one.
spec fn told_lines(refs: Seq<(Seq<char>, Seq<char>)>, caps: Seq<char>, carried: bool) -> Seq<
    Seq<u8>,
> {
    Seq::new(
        refs.len(),
        |k: int|
            encode_utf8(
                line_text(
                    refs[k].1,
                    refs[k].0,
                    if carried || k > 0 {
                        None
                    } else {
                        Some(caps)
                    },
                ),
            ),
    )
}

/// Whether every line of refs fits.
spec fn lines_fit(refs: Seq<(Seq<char>, Seq<char>)>, caps: Seq<char>) -> bool {
    forall|k: int|
        0 <= k < refs.len() ==> is_id((#[trigger] refs[k]).1) && fits_line(refs[k].0, caps)
}

/// The lines of refs are read back one by one.
proof fn lemma_ref_lines(
    refs: Seq<(Seq<char>, Seq<char>)>,
    caps: Seq<char>,
    carried: bool,
    rest: Seq<u8>,
)
    requires
        lines_fit(refs, caps),
    ensures
        frames(ref_lines(refs, caps, carried) + rest) == told_lines(refs, caps, carried) + frames(
            rest,
        ),
    decreases refs.len(),
{
    let body = ref_lines(refs, caps, carried);
    let all = told_lines(refs, caps, carried);
    if refs.len() == 0 {
        assert(body + rest =~= rest);
        assert(all + frames(rest) =~= frames(rest));
    } else {
        let less = refs.drop_last();
        let last = refs[refs.len() - 1];
        let carries = !(carried || refs.len() > 1);
        let said = if carries {
            Some(caps)
        } else {
            None
        };
        let line = ref_line(last.1, last.0, said);
        assert forall|k: int| 0 <= k < less.len() implies is_id((#[trigger] less[k]).1)
            && fits_line(less[k].0, caps) by {
            assert(less[k] == refs[k]);
        }
        lemma_ref_lines(less, caps, carried, line + rest);
        lemma_ref_line(last.1, last.0, caps, carries, rest);
        assert(body + rest =~= ref_lines(less, caps, carried) + (line + rest));
        let front = told_lines(less, caps, carried);
        let own = seq![encode_utf8(line_text(last.1, last.0, said))];
        assert(frames(body + rest) == front + (own + frames(rest)));
        assert(front + own =~= all);
        assert(front + (own + frames(rest)) =~= all + frames(rest));
    }
}

/// A line of refs says its ref.
proof fn lemma_told_line(
    refs: Seq<(Seq<char>, Seq<char>)>,
    caps: Seq<char>,
    carried: bool,
    k: int,
)
    requires
        lines_fit(refs, caps),
        0 <= k < refs.len(),
    ensures
        says(decoded(told_lines(refs, caps, carried)[k]), refs[k].1 + " "@ + refs[k].0),
{
    assert(is_id(refs[k].1));
    lemma_ref_line(refs[k].1, refs[k].0, caps, !(carried || k > 0), seq![]);
}

/// Nothing is read from the flush that ends an advertisement.
proof fn lemma_flush_alone()
    ensures
        frames(flush()) == Seq::<Seq<u8>>::empty(),
{
    let none: Seq<u8> = seq![];
    assert(flush() + none =~= flush());
    lemma_frames_flush(none);
    assert(frames(none) =~= Seq::<Seq<u8>>::empty());
}

/// The lines of an advertisement with refs whose `HEAD` names one of them.
proof fn lemma_headed_lines(
    refs: Seq<(Seq<char>, Seq<char>)>,
    caps: Seq<char>,
    id: Seq<char>,
)
    requires
        lines_fit(refs, caps),
        is_id(id),
        encode_utf8(caps).len() <= 0xff00,
    ensures
        frames(ref_line(id, "HEAD"@, Some(caps)) + ref_lines(refs, caps, true) + flush()) == seq![
            encode_utf8(line_text(id, "HEAD"@, Some(caps))),
        ] + told_lines(refs, caps, true),
        says(decoded(encode_utf8(line_text(id, "HEAD"@, Some(caps)))), id + " HEAD"@),
{
    reveal_strlit("HEAD");
    reveal_strlit(" HEAD");
    reveal_strlit(" ");
    assert(is_ascii_chars("HEAD"@));
    is_ascii_chars_encode_utf8("HEAD"@);
    let rest = ref_lines(refs, caps, true) + flush();
    lemma_ref_line(id, "HEAD"@, caps, true, rest);
    assert(ref_line(id, "HEAD"@, Some(caps)) + ref_lines(refs, caps, true) + flush() =~= ref_line(
        id,
        "HEAD"@,
        Some(caps),
    ) + rest);
    lemma_ref_lines(refs, caps, true, flush());
    lemma_flush_alone();
    assert(told_lines(refs, caps, true) + frames(flush()) =~= told_lines(refs, caps, true));
    assert(id + " "@ + "HEAD"@ =~= id + " HEAD"@);
}

/// The line of an advertisement without refs.
proof fn lemma_empty_line(caps: Seq<char>)
    requires
        encode_utf8(caps).len() <= 0xff00,
    ensures
        ({
            let lines = frames(
                ref_line(null_digits(), "capabilities^{}"@, Some(caps)) + flush(),
            );
            lines.len() == 1 && says(
                decoded(lines[0]),
                Seq::new(40, |i: int| '0') + " capabilities^{}"@,
            )
        }),
{
    reveal_strlit("capabilities^{}");
    reveal_strlit(" capabilities^{}");
    reveal_strlit(" ");
    assert(is_ascii_chars("capabilities^{}"@));
    is_ascii_chars_encode_utf8("capabilities^{}"@);
    lemma_ref_line(null_digits(), "capabilities^{}"@, caps, true, flush());
    lemma_flush_alone();
    assert(null_digits() + " "@ + "capabilities^{}"@ =~= null_digits() + " capabilities^{}"@);
    assert(null_digits() =~= Seq::new(40, |i: int| '0'));
}

/// Law: what an advertisement tells, read back line by line, is the repository's
/// refs: after the line of `HEAD`, where that names one of them, the k-th line is
/// the k-th ref's own object and name, and there is no other. `HEAD` is at the
/// object of the ref that it names. A repository without refs says so by a line
/// of zeros.
pub proof fn law_advertisement_reads_back(
    ad: RefAdvertisement,
    receive: bool,
    nonce: Option<Seq<char>>,
)
    requires
        forall|k: int| 0 <= k < ad.refs@.len() ==> is_id((#[trigger] ad.refs@[k]).1@),
        forall|k: int|
            0 <= k < ad.refs@.len() ==> fits_line(
                (#[trigger] ad.refs@[k]).0@,
                capabilities(ad.head, receive, nonce),
            ),
        encode_utf8(capabilities(ad.head, receive, nonce)).len() <= 0xff00,
    ensures
        ({
            let lines = frames(advertisement(ad, receive, nonce));
            let named = ad.head is Some && exists|k: int|
                0 <= k < ad.refs@.len() && (#[trigger] ad.refs@[k]).0@ == ad.head->0@;
            let first = if named {
                1int
            } else {
                0int
            };
            if ad.refs@.len() == 0 {
                lines.len() == 1 && says(
                    decoded(lines[0]),
                    Seq::new(40, |i: int| '0') + " capabilities^{}"@,
                )
            } else {
                &&& lines.len() == ad.refs@.len() + first
                &&& forall|k: int|
                    0 <= k < ad.refs@.len() ==> says(
                        decoded(lines[k + first]),
                        (#[trigger] ad.refs@[k]).1@ + " "@ + ad.refs@[k].0@,
                    )
                &&& forall|k: int|
                    0 <= k < ad.refs@.len() && ad.head is Some && (#[trigger] ad.refs@[k]).0@
                        == ad.head->0@ && (forall|j: int|
                        0 <= j < k ==> (#[trigger] ad.refs@[j]).0@ != ad.head->0@) ==> says(
                        decoded(lines[0]),
                        ad.refs@[k].1@ + " HEAD"@,
                    )
            }
        }),
        ends(advertisement(ad, receive, nonce), seq![48u8, 48u8, 48u8, 48u8]),
{
    let caps = capabilities(ad.head, receive, nonce);
    let refs = ref_views(ad.refs@);
    let body = advertisement(ad, receive, nonce);
    let lines = frames(body);
    assert(body.skip(body.len() - 4) =~= seq![48u8, 48u8, 48u8, 48u8]);
    assert(refs.len() == ad.refs@.len());
    if refs.len() == 0 {
        lemma_empty_line(caps);
    } else {
        assert forall|k: int| 0 <= k < refs.len() implies is_id((#[trigger] refs[k]).1)
            && fits_line(refs[k].0, caps) by {
            assert(is_id(ad.refs@[k].1@));
        }
        let at = head_place(ad.head, refs);
        lemma_head_place(ad, refs);
        let named = at < refs.len();
        let first = if named {
            1int
        } else {
            0int
        };
        let told = told_lines(refs, caps, named);
        if named {
            assert(is_id(refs[at].1));
            lemma_headed_lines(refs, caps, refs[at].1);
        } else {
            lemma_ref_lines(refs, caps, false, flush());
            lemma_flush_alone();
            assert(told + frames(flush()) =~= told);
        }
        assert forall|k: int| 0 <= k < ad.refs@.len() implies says(
            decoded(lines[k + first]),
            (#[trigger] ad.refs@[k]).1@ + " "@ + ad.refs@[k].0@,
        ) by {
            assert(refs[k] == (ad.refs@[k].0@, ad.refs@[k].1@));
            lemma_told_line(refs, caps, named, k);
            assert(lines[k + first] == told[k]);
        }
    }
}

/// Where the ref that `HEAD` names stands.
spec fn head_place(head: Option<String>, refs: Seq<(Seq<char>, Seq<char>)>) -> int {
    match head {
        Some(name) => first_where(refs, |r: (Seq<char>, Seq<char>)| r.0 == name@),
        None => refs.len() as int,
    }
}

/// The ref that `HEAD` names is the first of its name.
proof fn lemma_head_place(ad: RefAdvertisement, refs: Seq<(Seq<char>, Seq<char>)>)
    requires
        refs == ref_views(ad.refs@),
    ensures
        ({
            let at = head_place(ad.head, refs);
            &&& 0 <= at <= refs.len()
            &&& at < refs.len() <==> (ad.head is Some && exists|k: int|
                0 <= k < ad.refs@.len() && (#[trigger] ad.refs@[k]).0@ == ad.head->0@)
            &&& head_id(ad.head, refs) == (if at < refs.len() {
                Some(refs[at].1)
            } else {
                None
            })
            &&& forall|k: int|
                0 <= k < ad.refs@.len() && ad.head is Some && (#[trigger] ad.refs@[k]).0@
                    == ad.head->0@ && (forall|j: int|
                    0 <= j < k ==> (#[trigger] ad.refs@[j]).0@ != ad.head->0@) ==> k == at
                    && refs[at].1 == ad.refs@[k].1@
        }),
{
    let at = head_place(ad.head, refs);
    if let Some(name) = ad.head {
        let p = |r: (Seq<char>, Seq<char>)| r.0 == name@;
        lemma_first_where(refs, p);
        if at < refs.len() {
            assert(p(refs[at]));
            assert(ad.refs@[at].0@ == name@);
        }
        assert forall|k: int| 0 <= k < ad.refs@.len() && (#[trigger] ad.refs@[k]).0@
            == name@ implies at <= k by {
            assert(refs[k].0 == name@);
            if k < at {
                assert(!p(refs[k]));
            }
        }
    }
}

/// Law: the capabilities are the words that git looks for, among them the nonce
/// that a signed push is to echo and the ref that `HEAD` names.
pub proof fn law_capabilities_are_words(
    head: Option<String>,
    receive: bool,
    nonce: Option<Seq<char>>,
)
    requires
        head matches Some(name) ==> is_word(name@),
        nonce matches Some(text) ==> is_word(text),
    ensures
        fields_of(capabilities(head, receive, nonce)) == (if receive {
            seq!["report-status"@, "delete-refs"@, "ofs-delta"@, "agent=git-ents/1.0"@]
        } else {
            seq!["ofs-delta"@, "agent=git-ents/1.0"@]
        }) + (match nonce {
            Some(text) => seq!["push-cert="@ + text],
            None => seq![],
        }) + (match head {
            Some(name) => seq!["symref=HEAD:"@ + name@],
            None => seq![],
        }),
{
    reveal_strlit(" ");
    reveal_strlit("report-status");
    reveal_strlit("delete-refs");
    reveal_strlit("ofs-delta");
    reveal_strlit("agent=git-ents/1.0");
    reveal_strlit("push-cert=");
    reveal_strlit("symref=HEAD:");
    reveal_strlit(" push-cert=");
    reveal_strlit(" symref=HEAD:");
    reveal_strlit("report-status delete-refs ofs-delta agent=git-ents/1.0");
    reveal_strlit("ofs-delta agent=git-ents/1.0");
    let base = if receive {
        seq!["report-status"@, "delete-refs"@, "ofs-delta"@, "agent=git-ents/1.0"@]
    } else {
        seq!["ofs-delta"@, "agent=git-ents/1.0"@]
    };
    let cert = match nonce {
        Some(text) => seq!["push-cert="@ + text],
        None => seq![],
    };
    let link = match head {
        Some(name) => seq!["symref=HEAD:"@ + name@],
        None => seq![],
    };
    let words = base + cert + link;
    assert(is_word("report-status"@));
    assert(is_word("delete-refs"@));
    assert(is_word("ofs-delta"@));
    assert(is_word("agent=git-ents/1.0"@));
    assert forall|i: int| 0 <= i < words.len() implies is_word(#[trigger] words[i]) by {
        if i >= base.len() + cert.len() {
            let name = head->0@;
            let word = "symref=HEAD:"@ + name;
            assert(words[i] == word);
            assert forall|j: int| 0 <= j < word.len() implies !is_white(#[trigger] word[j]) by {
                if j >= 12 {
                    assert(word[j] == name[j - 12]);
                }
            }
        } else if i >= base.len() {
            let text = nonce->0;
            let word = "push-cert="@ + text;
            assert(words[i] == word);
            assert forall|j: int| 0 <= j < word.len() implies !is_white(#[trigger] word[j]) by {
                if j >= 10 {
                    assert(word[j] == text[j - 10]);
                }
            }
        }
    }
    law_fields_undo_join(words);
    let said = if receive {
        "report-status delete-refs ofs-delta agent=git-ents/1.0"@
    } else {
        "ofs-delta agent=git-ents/1.0"@
    };
    reveal_with_fuel(joined, 5);
    if receive {
        assert(base.drop_last() =~= seq!["report-status"@, "delete-refs"@, "ofs-delta"@]);
        assert(base.drop_last().drop_last() =~= seq!["report-status"@, "delete-refs"@]);
        assert(base.drop_last().drop_last().drop_last() =~= seq!["report-status"@]);
    } else {
        assert(base.drop_last() =~= seq!["ofs-delta"@]);
    }
    assert(joined(base, " "@) =~= said);
    let two = base + cert;
    let mid = match nonce {
        Some(text) => said + " push-cert="@ + text,
        None => said,
    };
    if nonce is Some {
        assert(two.drop_last() =~= base);
        assert(joined(two, " "@) =~= mid);
    } else {
        assert(two =~= base);
    }
    if head is Some {
        assert(words.drop_last() =~= two);
        assert(joined(words, " "@) =~= capabilities(head, receive, nonce));
    } else {
        assert(words =~= two);
    }
}

/// Law: the report of a push, read back line by line, says that the pack was
/// taken in and then tells of each ref in turn, by its own name, whether it was
/// changed or why not.
pub proof fn law_report_tells_of_every_ref(names: Seq<Seq<char>>, outcome: PushOutcome)
    requires
        forall|i: int|
            0 <= i < names.len() ==> encode_utf8(#[trigger] names[i]).len() + (match outcome {
                PushOutcome::Accepted => 0nat,
                PushOutcome::Rejected(reason) => encode_utf8(reason@).len() + 1nat,
            }) + 8 <= 0xffff,
    ensures
        ({
            let lines = frames(push_report(names, outcome));
            &&& lines.len() == names.len() + 1
            &&& decoded(lines[0]) == "unpack ok\n"@
            &&& forall|i: int|
                0 <= i < names.len() ==> decoded(lines[i + 1]) == (match outcome {
                    PushOutcome::Accepted => "ok "@ + (#[trigger] names[i]) + "\n"@,
                    PushOutcome::Rejected(reason) => "ng "@ + names[i] + " "@ + reason@ + "\n"@,
                })
        }),
{
    let none: Seq<u8> = seq![];
    let ok = encode_utf8("unpack ok\n"@);
    law_text_survives_bytes("unpack ok\n"@);
    reveal_strlit("unpack ok\n");
    lemma_encoded_size("unpack ok\n"@);
    assert(flush() + none =~= flush());
    lemma_frames_flush(none);
    assert(frames(flush()) =~= seq![]);
    lemma_report_lines(names, outcome, flush());
    let body = report_lines(names, outcome) + flush();
    assert(push_report(names, outcome) =~= framed(ok) + body);
    lemma_frames_front(ok, body);
    let lines = frames(push_report(names, outcome));
    let told = Seq::new(names.len(), |i: int| encode_utf8(report_text(names[i], outcome)));
    assert(told + frames(flush()) =~= told);
    assert(lines == seq![ok] + told);
    assert forall|i: int| 0 <= i < names.len() implies decoded(lines[i + 1]) == (match outcome {
        PushOutcome::Accepted => "ok "@ + (#[trigger] names[i]) + "\n"@,
        PushOutcome::Rejected(reason) => "ng "@ + names[i] + " "@ + reason@ + "\n"@,
    }) by {
        law_text_survives_bytes(report_text(names[i], outcome));
        assert(lines[i + 1] == told[i]);
    }
}

/// What a report says of one ref.
spec fn report_text(name: Seq<char>, outcome: PushOutcome) -> Seq<char> {
    match outcome {
        PushOutcome::Accepted => "ok "@ + name + "\n"@,
        PushOutcome::Rejected(reason) => "ng "@ + name + " "@ + reason@ + "\n"@,
    }
}

/// The lines of a report are read back one by one.
proof fn lemma_report_lines(names: Seq<Seq<char>>, outcome: PushOutcome, rest: Seq<u8>)
    requires
        forall|i: int|
            0 <= i < names.len() ==> encode_utf8(#[trigger] names[i]).len() + (match outcome {
                PushOutcome::Accepted => 0nat,
                PushOutcome::Rejected(reason) => encode_utf8(reason@).len() + 1nat,
            }) + 8 <= 0xffff,
    ensures
        frames(report_lines(names, outcome) + rest) == Seq::new(
            names.len(),
            |i: int| encode_utf8(report_text(names[i], outcome)),
        ) + frames(rest),
    decreases names.len(),
{
    let told = Seq::new(names.len(), |i: int| encode_utf8(report_text(names[i], outcome)));
    if names.len() == 0 {
        assert(report_lines(names, outcome) + rest =~= rest);
        assert(told + frames(rest) =~= frames(rest));
    } else {
        let less = names.drop_last();
        let name = names[names.len() - 1];
        let text = report_text(name, outcome);
        assert forall|i: int| 0 <= i < less.len() implies encode_utf8(#[trigger] less[i]).len() + (
        match outcome {
            PushOutcome::Accepted => 0nat,
            PushOutcome::Rejected(reason) => encode_utf8(reason@).len() + 1nat,
        }) + 8 <= 0xffff by {
            assert(less[i] == names[i]);
        }
        lemma_report_lines(less, outcome, framed(encode_utf8(text)) + rest);
        reveal_strlit("ok ");
        reveal_strlit("ng ");
        reveal_strlit(" ");
        reveal_strlit("\n");
        assert(is_ascii_chars("ok "@));
        assert(is_ascii_chars("ng "@));
        assert(is_ascii_chars(" "@));
        assert(is_ascii_chars("\n"@));
        is_ascii_chars_encode_utf8("ok "@);
        is_ascii_chars_encode_utf8("ng "@);
        is_ascii_chars_encode_utf8(" "@);
        is_ascii_chars_encode_utf8("\n"@);
        match outcome {
            PushOutcome::Accepted => {
                lemma_encoded_concat("ok "@, name);
                lemma_encoded_concat("ok "@ + name, "\n"@);
            },
            PushOutcome::Rejected(reason) => {
                lemma_encoded_concat("ng "@, name);
                lemma_encoded_concat("ng "@ + name, " "@);
                lemma_encoded_concat("ng "@ + name + " "@, reason@);
                lemma_encoded_concat("ng "@ + name + " "@ + reason@, "\n"@);
            },
        }
        assert(encode_utf8(names[names.len() - 1]) == encode_utf8(name));
        lemma_frames_front(encode_utf8(text), rest);
        assert(report_lines(names, outcome) + rest =~= report_lines(less, outcome) + (framed(
            encode_utf8(text),
        ) + rest));
        let front = Seq::new(less.len(), |i: int| encode_utf8(report_text(less[i], outcome)));
        assert(front + seq![encode_utf8(text)] =~= told);
        assert(front + (seq![encode_utf8(text)] + frames(rest)) =~= told + frames(rest));
    }
}

/// Law: a native request names the repository between the prefix and the service
/// in its path, one to three plain names deep, and the service that follows; any
/// other name is refused.
pub proof fn law_native_path_names_its_repository(parts: Seq<Seq<char>>, service: Seq<char>)
    requires
        parts.len() > 0,
        forall|i: int|
            0 <= i < parts.len() ==> (#[trigger] parts[i]).len() > 0 && !parts[i].contains('/'),
        service == "info/refs"@ || service == "git-upload-pack"@ || service
            == "git-receive-pack"@,
    ensures
        native_target("/_native/"@ + joined(parts, "/"@) + "/"@ + service) == (if parts.len() <= 3
            && forall|i: int| 0 <= i < parts.len() ==> plain_segment(#[trigger] parts[i]) {
            Some((joined(parts, "/"@), service))
        } else {
            None
        }),
{
    reveal_strlit("/_native/");
    reveal_strlit("/");
    reveal_strlit("info/refs");
    reveal_strlit("git-upload-pack");
    reveal_strlit("git-receive-pack");
    assert("/"@ =~= seq!['/']);
    let repo = joined(parts, "/"@);
    let rest = repo + "/"@ + service;
    let path = "/_native/"@ + repo + "/"@ + service;
    assert(path.take(9) =~= "/_native/"@);
    assert(path.skip(9) =~= rest);
    lemma_suffix(repo + "/"@, service);
    lemma_suffix(repo, "/"@);
    assert(rest.take(rest.len() - service.len()) =~= repo + "/"@);
    lemma_named_parts(parts);
    if service != "info/refs"@ && ends(rest, "info/refs"@) {
        assert(rest.skip(rest.len() - 9)[8] == "info/refs"@[8]);
        assert(rest.last() == service.last());
    }
    if service == "git-receive-pack"@ && ends(rest, "git-upload-pack"@) {
        assert(rest.skip(rest.len() - 15)[9] == "git-upload-pack"@[9]);
        assert(rest[rest.len() - 6] == service[10]);
    }
    if parts.len() <= 3 && forall|i: int|
        0 <= i < parts.len() ==> plain_segment(#[trigger] parts[i]) {
        assert forall|i: int| 0 <= i < parts.len() implies safe_segment(#[trigger] parts[i]) by {
            law_safe_names_are_plain(parts[i]);
        }
    } else if repo_segments(parts) {
        assert forall|i: int| 0 <= i < parts.len() implies plain_segment(#[trigger] parts[i]) by {
            law_safe_names_are_plain(parts[i]);
        }
    }
}

/// Whether a text may follow the id on a `want` line: nothing, or white space
/// with capabilities behind it, that ends in something other than a newline, or
/// in one.
pub open spec fn ends_want(tail: Seq<char>) -> bool {
    tail.len() == 0 || tail[0] == ' ' || tail == "\n"@
}

/// Law: a `want` line asks for its id, whatever capabilities follow, and offers
/// nothing; a `have` line offers its id and asks for nothing; any other line does
/// neither.
pub proof fn law_fetch_lines_are_read(id: Seq<char>, tail: Seq<char>)
    requires
        is_id(id),
        ends_want(tail),
    ensures
        wanted(encode_utf8("want "@ + id + tail)) == Some(id),
        offered(encode_utf8("want "@ + id + tail)) is None,
        offered(encode_utf8("have "@ + id + "\n"@)) == Some(id),
        offered(encode_utf8("have "@ + id)) == Some(id),
        wanted(encode_utf8("have "@ + id + "\n"@)) is None,
        wanted(encode_utf8("done\n"@)) is None,
        offered(encode_utf8("done\n"@)) is None,
{
    reveal_strlit("want ");
    reveal_strlit("have ");
    reveal_strlit("done\n");
    reveal_strlit("\n");
    law_id_reads_as_itself(id);
    assert(is_word(id)) by {
        assert forall|i: int| 0 <= i < id.len() implies !is_white(#[trigger] id[i]) by {}
    }
    // A `want` line.
    let want = "want "@ + id + tail;
    law_text_survives_bytes(want);
    lemma_stripped_end_keeps(want, '\n', 44);
    assert(want[44] == id[39]);
    let line = stripped_end(want, '\n');
    assert(line.take(5) =~= "want "@);
    assert(starts(line, "want "@));
    let rest = line.skip(5);
    assert(rest.take(40) =~= id);
    if rest.len() == 40 {
        assert(rest =~= id);
        lemma_fields_front(id, ' ', seq![]);
    } else {
        assert(rest[40] == want[45]);
        assert(want[45] == tail[0]);
        if tail == "\n"@ {
            let said = "want "@ + id;
            assert(want =~= said + Seq::new(1, |i: int| '\n'));
            assert(said.last() == id[39]);
            lemma_stripped_end(said, '\n', 1);
            assert(line.len() == 45);
        }
        assert(rest[40] == ' ');
        assert(rest =~= id + seq![' '] + rest.skip(41));
        lemma_fields_front(id, ' ', rest.skip(41));
    }
    assert(fields_of(rest)[0] == id);
    if starts(line, "have "@) {
        assert(line.take(5)[0] == "have "@[0]);
        assert(line[0] == 'w');
    }
    // A `have` line.
    let have = "have "@ + id;
    let ended = have + "\n"@;
    law_text_survives_bytes(have);
    law_text_survives_bytes(ended);
    assert("have "@ + id + "\n"@ =~= ended);
    assert(have.last() == id[39]);
    assert(ended =~= have + Seq::new(1, |i: int| '\n'));
    assert(have =~= have + Seq::new(0, |i: int| '\n'));
    lemma_stripped_end(have, '\n', 1);
    lemma_stripped_end(have, '\n', 0);
    assert(have.take(5) =~= "have "@);
    assert(have.skip(5) =~= id);
    if starts(have, "want "@) {
        assert(have.take(5)[0] == "want "@[0]);
    }
    // Another line.
    law_text_survives_bytes("done\n"@);
    let done = "done\n"@;
    assert(done.len() == 5);
    lemma_stripped_end_keeps(done, '\n', 3);
    let bare = stripped_end(done, '\n');
    assert(bare[0] == 'd');
    if starts(bare, "want "@) {
        assert(bare.take(5)[0] == "want "@[0]);
    }
    if starts(bare, "have "@) {
        assert(bare.take(5)[0] == "have "@[0]);
    }
}

/// Law: a fetch asks for the ids on its `want` lines and offers those on its
/// `have` lines, all of them, in their order.
pub proof fn law_fetch_is_read(
    wants: Seq<(Seq<char>, Seq<char>)>,
    haves: Seq<Seq<char>>,
)
    requires
        forall|i: int|
            0 <= i < wants.len() ==> is_id((#[trigger] wants[i]).0) && ends_want(wants[i].1)
                && wants[i].1.len() <= 4096,
        forall|i: int| 0 <= i < haves.len() ==> is_id(#[trigger] haves[i]),
    ensures
        ({
            let body = packed(
                wants.map_values(
                    |want: (Seq<char>, Seq<char>)|
                        Packet::Line(encode_utf8("want "@ + want.0 + want.1)),
                ) + seq![Packet::Flush] + haves.map_values(
                    |id: Seq<char>| Packet::Line(encode_utf8("have "@ + id + "\n"@)),
                ) + seq![Packet::Line(encode_utf8("done\n"@))],
            );
            &&& fetch_wants(body) == wants.map_values(|want: (Seq<char>, Seq<char>)| want.0)
            &&& fetch_haves(body) == haves
        }),
{
    let asked = wants.map_values(
        |want: (Seq<char>, Seq<char>)| encode_utf8("want "@ + want.0 + want.1),
    );
    let held = haves.map_values(|id: Seq<char>| encode_utf8("have "@ + id + "\n"@));
    let done = seq![encode_utf8("done\n"@)];
    let first = wants.map_values(
        |want: (Seq<char>, Seq<char>)| Packet::Line(encode_utf8("want "@ + want.0 + want.1)),
    );
    let second = haves.map_values(
        |id: Seq<char>| Packet::Line(encode_utf8("have "@ + id + "\n"@)),
    );
    let last = seq![Packet::Line(encode_utf8("done\n"@))];
    let packets = first + seq![Packet::Flush] + second + last;
    assert(first =~= lines_only(asked));
    assert(second =~= lines_only(held));
    assert(last =~= lines_only(done));
    lemma_lines_only(asked);
    lemma_lines_only(held);
    lemma_lines_only(done);
    let none: Seq<Seq<u8>> = seq![];
    assert(lines_among(seq![Packet::Flush]) =~= none) by {
        let rest: Seq<Packet> = seq![];
        assert(seq![Packet::Flush].skip(1) =~= rest);
        assert(lines_among(rest) =~= none);
    }
    lemma_lines_among_concat(first, seq![Packet::Flush]);
    lemma_lines_among_concat(first + seq![Packet::Flush], second);
    lemma_lines_among_concat(first + seq![Packet::Flush] + second, last);
    let all = asked + held + done;
    assert(lines_among(packets) =~= all);
    reveal_strlit("want ");
    reveal_strlit("have ");
    reveal_strlit("done\n");
    reveal_strlit("\n");
    assert forall|i: int| 0 <= i < all.len() implies (#[trigger] all[i]).len() + 4 <= 0xffff by {
        if i < asked.len() {
            assert(is_id(wants[i].0));
            lemma_encoded_size("want "@ + wants[i].0 + wants[i].1);
        } else if i < asked.len() + held.len() {
            let id = haves[i - asked.len()];
            assert(is_id(id));
            lemma_encoded_size("have "@ + id + "\n"@);
        } else {
            lemma_encoded_size("done\n"@);
        }
    }
    law_markers_are_passed_over(packets);
    let want = |line: Seq<u8>| wanted(line);
    let have = |line: Seq<u8>| offered(line);
    let ids = wants.map_values(|want: (Seq<char>, Seq<char>)| want.0);
    let no_ids: Seq<Seq<char>> = seq![];
    assert forall|i: int| 0 <= i < asked.len() implies want(#[trigger] asked[i]) == Some(ids[i])
        && have(asked[i]) is None by {
        assert(is_id(wants[i].0));
        law_fetch_lines_are_read(wants[i].0, wants[i].1);
    }
    assert forall|i: int| 0 <= i < held.len() implies have(#[trigger] held[i]) == Some(haves[i])
        && want(held[i]) is None by {
        assert(is_id(haves[i]));
        law_fetch_lines_are_read(haves[i], seq![]);
    }
    lemma_done_is_neither();
    lemma_kept_all(asked, want, ids);
    lemma_kept_none(held, want);
    lemma_kept_none(done, want);
    lemma_kept_none(asked, have);
    lemma_kept_all(held, have, haves);
    lemma_kept_none(done, have);
    lemma_kept_concat(asked + held, done, want);
    lemma_kept_concat(asked, held, want);
    lemma_kept_concat(asked + held, done, have);
    lemma_kept_concat(asked, held, have);
    assert(ids + no_ids + no_ids =~= ids);
    assert(no_ids + haves + no_ids =~= haves);
}

proof fn lemma_done_is_neither()
    ensures
        wanted(encode_utf8("done\n"@)) is None,
        offered(encode_utf8("done\n"@)) is None,
{
    let id = null_digits();
    law_fetch_lines_are_read(id, seq![]);
}

/// Lines as packets.
spec fn lines_only(lines: Seq<Seq<u8>>) -> Seq<Packet> {
    lines.map_values(|line: Seq<u8>| Packet::Line(line))
}

proof fn lemma_lines_only(lines: Seq<Seq<u8>>)
    ensures
        lines_among(lines_only(lines)) == lines,
    decreases lines.len(),
{
    if lines.len() > 0 {
        lemma_lines_only(lines.skip(1));
        assert(lines_only(lines).skip(1) =~= lines_only(lines.skip(1)));
        assert(seq![lines[0]] + lines.skip(1) =~= lines);
    } else {
        assert(lines_among(lines_only(lines)) =~= lines);
    }
}

/// Law: a nonce is the moment that it was issued at and the hash of the secret,
/// the repository and that moment together, so that none of the three can change
/// without changing what is hashed.
pub proof fn law_nonce_binds_repository_and_moment(
    secret: Seq<char>,
    repo: Seq<char>,
    stamp: nat,
    other_secret: Seq<char>,
    other_repo: Seq<char>,
    other_stamp: nat,
)
    ensures
        nonce_at(secret, repo, stamp) == (match blob_hash(
            encode_utf8(secret + ":"@ + repo + ":"@ + decimal(stamp)),
        ) {
            Some(mac) => Some(decimal(stamp) + "-"@ + mac),
            None => None,
        }),
        nonce_text(secret, repo, stamp) == nonce_text(secret, other_repo, stamp) ==> repo
            == other_repo,
        nonce_text(secret, repo, stamp) == nonce_text(other_secret, repo, stamp) ==> secret
            == other_secret,
        nonce_text(secret, repo, stamp) == nonce_text(secret, repo, other_stamp) ==> decimal(stamp)
            == decimal(other_stamp),
{
    reveal_strlit(":");
    let text = nonce_text(secret, repo, stamp);
    let n = secret.len() as int;
    assert(text.subrange(n + 1, n + 1 + repo.len()) =~= repo);
    assert(text.take(n) =~= secret);
    assert(text.skip(n + 2 + repo.len()) =~= decimal(stamp));
    if text == nonce_text(secret, other_repo, stamp) {
        assert(repo.len() == other_repo.len());
        let other = nonce_text(secret, other_repo, stamp);
        assert(other.subrange(n + 1, n + 1 + other_repo.len()) =~= other_repo);
    }
    if text == nonce_text(other_secret, repo, stamp) {
        assert(secret.len() == other_secret.len());
        let other = nonce_text(other_secret, repo, stamp);
        assert(other.take(n) =~= other_secret);
    }
    if text == nonce_text(secret, repo, other_stamp) {
        let other = nonce_text(secret, repo, other_stamp);
        assert(other.skip(n + 2 + repo.len()) =~= decimal(other_stamp));
    }
}

/// Law: a nonce is accepted only where its hash is that of the secret, this very
/// repository and the moment that it gives, and that moment is not too old.
pub proof fn law_accepted_nonce_was_issued_here(
    secret: Seq<char>,
    repo: Seq<char>,
    nonce: Seq<char>,
    now: nat,
)
    requires
        nonce_ok(secret, repo, nonce, now),
    ensures
        nonce_parts(nonce) matches Some(parts) && now <= parts.0 + 300 && blob_hash(
            encode_utf8(secret + ":"@ + repo + ":"@ + decimal(parts.0)),
        ) == Some(parts.1),
{
    let (stamp, mac) = nonce_parts(nonce)->0;
    assert(blob_hash(encode_utf8(secret + ":"@ + repo + ":"@ + decimal(stamp))) == Some(mac));
}

/// Law: of several nonces in a certificate's header the last one counts, and a
/// header without one gives none.
pub proof fn law_last_nonce_counts(header: Seq<Seq<char>>, nonce: Seq<char>, line: Seq<char>)
    requires
        nonce.len() > 0,
        nonce.last() != '\n',
        !starts(stripped_end(line, '\n'), "nonce "@),
    ensures
        header_nonce(header.push("nonce "@ + nonce + "\n"@)) == Some(nonce),
        header_nonce(header.push(line)) == header_nonce(header),
        header_nonce(Seq::empty()) is None,
{
    reveal_strlit("nonce ");
    reveal_strlit("\n");
    let said = "nonce "@ + nonce;
    let echo = "nonce "@ + nonce + "\n"@;
    assert(header.push(echo).drop_last() =~= header);
    assert(header.push(line).drop_last() =~= header);
    assert(echo =~= said + Seq::new(1, |i: int| '\n'));
    lemma_stripped_end(said, '\n', 1);
    assert(said.take(6) =~= "nonce "@);
    assert(said.skip(6) =~= nonce);
}

} // verus!
