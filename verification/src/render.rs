//! MIME-keyed document rendering: the one place that decides, from a
//! document's declared or inferred MIME type, which converter turns it into
//! HTML (for the web UI) or plain text (for the CLI). An unrecognized type
//! falls through to a passthrough instead of refusing to render at all.
//!
//! AsciiDoc is converted outside the library: what came of it is an argument
//! here, `None` where the converter refused the source.

use vstd::prelude::*;

use crate::asciicast::{extract_output, output_of};
use crate::keys::opt_view;
use crate::text::{
    after_last, lowercase, lowered, opt_text, same, tail_after,
};

verus! {

/// The MIME type of a prose document that nothing else declares one for, such
/// as a comment or issue body, which carries no filename to infer it from.
pub const DEFAULT_PROSE_MIME: &'static str = "text/asciidoc";

/// Whether a file's extension names an AsciiDoc document.
pub open spec fn asciidoc_name(name: Seq<char>) -> bool {
    after_last(name, '.') matches Some(ext) && (lowered(ext) == "adoc"@ || lowered(ext)
        == "asciidoc"@ || lowered(ext) == "asc"@ || lowered(ext) == "adc"@)
}

/// Whether a file's extension names a Markdown document.
pub open spec fn markdown_name(name: Seq<char>) -> bool {
    after_last(name, '.') matches Some(ext) && (lowered(ext) == "md"@ || lowered(ext)
        == "markdown"@ || lowered(ext) == "mdown"@ || lowered(ext) == "mkd"@)
}

/// Whether `name` looks like an AsciiDoc file by its extension.
pub fn is_asciidoc(name: &str) -> (r: bool)
    ensures
        r == asciidoc_name(name@),
{
    match tail_after(name, '.') {
        None => false,
        Some(extension) => {
            let ext = lowercase(extension.as_str());
            same(ext.as_str(), "adoc") || same(ext.as_str(), "asciidoc") || same(
                ext.as_str(),
                "asc",
            ) || same(ext.as_str(), "adc")
        },
    }
}

/// Whether `name` looks like a Markdown file by its extension.
pub fn is_markdown(name: &str) -> (r: bool)
    ensures
        r == markdown_name(name@),
{
    match tail_after(name, '.') {
        None => false,
        Some(extension) => {
            let ext = lowercase(extension.as_str());
            same(ext.as_str(), "md") || same(ext.as_str(), "markdown") || same(
                ext.as_str(),
                "mdown",
            ) || same(ext.as_str(), "mkd")
        },
    }
}

/// The MIME type that a file's name stands for.
pub open spec fn mime_of(name: Seq<char>) -> Seq<char> {
    if asciidoc_name(name) {
        "text/asciidoc"@
    } else if markdown_name(name) {
        "text/markdown"@
    } else {
        "text/plain"@
    }
}

/// Guesses a document's MIME type from its filename's extension.
pub fn mime_for_name(name: &str) -> (r: &'static str)
    ensures
        r@ == mime_of(name@),
{
    if is_asciidoc(name) {
        "text/asciidoc"
    } else if is_markdown(name) {
        "text/markdown"
    } else {
        "text/plain"
    }
}

/// The HTML fragment that a Markdown document is converted to, given which of
/// the table, footnote, strikethrough and task-list extensions are on.
pub uninterp spec fn markdown_fragment(
    source: Seq<char>,
    tables: bool,
    footnotes: bool,
    strikethrough: bool,
    tasklists: bool,
) -> Seq<char>;

/// `pulldown_cmark::html::push_html` over a parser with the given extensions.
/// Which HTML a document is converted to, is left unsaid.
#[verifier::external_body]
fn convert_markdown(
    source: &str,
    tables: bool,
    footnotes: bool,
    strikethrough: bool,
    tasklists: bool,
) -> (r: String)
    ensures
        r@ == markdown_fragment(source@, tables, footnotes, strikethrough, tasklists),
{
    let mut options = pulldown_cmark::Options::empty();
    options.set(pulldown_cmark::Options::ENABLE_TABLES, tables);
    options.set(pulldown_cmark::Options::ENABLE_FOOTNOTES, footnotes);
    options.set(pulldown_cmark::Options::ENABLE_STRIKETHROUGH, strikethrough);
    options.set(pulldown_cmark::Options::ENABLE_TASKLISTS, tasklists);
    let mut out = String::new();
    pulldown_cmark::html::push_html(&mut out, pulldown_cmark::Parser::new_ext(source, options));
    out
}

/// Renders Markdown to an embedded HTML fragment, with the tables, footnotes,
/// strikethrough, and task-list extensions people expect of a forge.
pub fn markdown_html(source: &str) -> (r: String)
    ensures
        r@ == markdown_fragment(source@, true, true, true, true),
{
    convert_markdown(source, true, true, true, true)
}

/// What stands for a character in HTML.
pub open spec fn escaped_char(c: char) -> Seq<char> {
    if c == '&' {
        "&amp;"@
    } else if c == '<' {
        "&lt;"@
    } else if c == '>' {
        "&gt;"@
    } else if c == '"' {
        "&quot;"@
    } else {
        seq![c]
    }
}

/// What stands for a text in HTML.
pub open spec fn escaped(s: Seq<char>) -> Seq<char>
    decreases s.len(),
{
    if s.len() == 0 {
        Seq::empty()
    } else {
        escaped(s.drop_last()) + escaped_char(s.last())
    }
}

/// `maud::Render::render` for a text replaces `&`, `<`, `>` and `"` by their
/// entities and keeps every other character.
#[verifier::external_body]
fn escape(text: &str) -> (r: String)
    ensures
        r@ == escaped(text@),
{
    maud::Render::render(text).into_string()
}

/// Escaped text opens no tag, closes none, and ends no quoted attribute.
pub proof fn law_escaped_text_is_inert(s: Seq<char>)
    ensures
        !escaped(s).contains('<'),
        !escaped(s).contains('>'),
        !escaped(s).contains('"'),
    decreases s.len(),
{
    if s.len() > 0 {
        law_escaped_text_is_inert(s.drop_last());
        reveal_strlit("&amp;");
        reveal_strlit("&lt;");
        reveal_strlit("&gt;");
        reveal_strlit("&quot;");
        let front = escaped(s.drop_last());
        let piece = escaped_char(s.last());
        assert(!piece.contains('<') && !piece.contains('>') && !piece.contains('"'));
        assert forall|i: int| 0 <= i < escaped(s).len() implies escaped(s)[i] != '<' && escaped(
            s,
        )[i] != '>' && escaped(s)[i] != '"' by {
            if i < front.len() {
                assert(front.contains(front[i]));
            } else {
                assert(piece.contains(piece[i - front.len()]));
            }
        }
    }
}

/// Where there is nothing to escape, text stands for itself.
pub proof fn law_plain_text_is_unchanged(s: Seq<char>)
    requires
        forall|i: int|
            0 <= i < s.len() ==> #[trigger] s[i] != '&' && s[i] != '<' && s[i] != '>' && s[i]
                != '"',
    ensures
        escaped(s) == s,
    decreases s.len(),
{
    if s.len() > 0 {
        let front = s.drop_last();
        assert forall|i: int| 0 <= i < front.len() implies #[trigger] front[i] != '&' && front[i]
            != '<' && front[i] != '>' && front[i] != '"' by {
            assert(front[i] == s[i]);
        }
        law_plain_text_is_unchanged(front);
        assert(s =~= front + seq![s.last()]);
    }
}

/// The HTML that a document of a type is converted to, `None` where nothing
/// converts it.
pub open spec fn converted(
    mime: Seq<char>,
    source: Seq<char>,
    asciidoc: Option<Seq<char>>,
) -> Option<Seq<char>> {
    if mime == "text/asciidoc"@ {
        asciidoc
    } else if mime == "text/markdown"@ {
        Some(markdown_fragment(source, true, true, true, true))
    } else {
        None
    }
}

fn convert(mime: &str, source: &str, asciidoc: Option<String>) -> (r: Option<String>)
    ensures
        opt_text(r) == converted(mime@, source@, opt_text(asciidoc)),
{
    if same(mime, "text/asciidoc") {
        asciidoc
    } else if same(mime, "text/markdown") {
        Some(markdown_html(source))
    } else {
        None
    }
}

/// Renders `source`, declared or inferred as `mime`, to an embedded HTML
/// fragment. What nothing converts becomes an escaped `<pre>` block rather than
/// an error.
pub fn to_html(mime: &str, source: &str, asciidoc: Option<String>) -> (r: String)
    ensures
        r@ == (match converted(mime@, source@, opt_text(asciidoc)) {
            Some(html) => html,
            None => "<pre>"@ + escaped(source@) + "</pre>"@,
        }),
{
    match convert(mime, source, asciidoc) {
        Some(html) => html,
        None => {
            let mut html = "<pre>".to_owned();
            html.append(escape(source).as_str());
            html.append("</pre>");
            html
        },
    }
}

/// Renders `source`, declared or inferred as `mime`, to plain text for terminal
/// output. What nothing converts is left as it is.
pub fn to_text(mime: &str, source: &str, asciidoc: Option<String>) -> (r: String)
    ensures
        r@ == (if mime@ == "text/asciidoc"@ && asciidoc is Some {
            asciidoc->0@
        } else {
            source@
        }),
{
    if same(mime, "text/asciidoc") {
        if let Some(text) = asciidoc {
            return text;
        }
    }
    source.to_owned()
}

/// The formatted-document HTML for a file, when it is a prose format the forge
/// renders, or `None` when it is not one or fails to render.
pub fn doc_html(name: &str, text: &str, asciidoc: Option<String>) -> (r: Option<String>)
    ensures
        opt_text(r) == converted(mime_of(name@), text@, opt_text(asciidoc)),
{
    convert(mime_for_name(name), text, asciidoc)
}

/// Whether `name` is a prose format the forge renders as a document.
pub fn is_doc(name: &str) -> (r: bool)
    ensures
        r == (asciidoc_name(name@) || markdown_name(name@)),
{
    is_asciidoc(name) || is_markdown(name)
}

/// A file is a document exactly where its type is not plain text.
pub proof fn law_documents_are_not_plain(name: Seq<char>)
    ensures
        (asciidoc_name(name) || markdown_name(name)) == (mime_of(name) != "text/plain"@),
{
    reveal_strlit("text/asciidoc");
    reveal_strlit("text/markdown");
    reveal_strlit("text/plain");
    assert("text/asciidoc"@.len() != "text/plain"@.len());
    assert("text/markdown"@.len() != "text/plain"@.len());
}

/// The AsciiDoc source that shows the current screen of a recording as a static
/// terminal, with no timeline.
pub fn live_source(recording: &str) -> (r: String)
    ensures
        r@ == "[terminal]\n----\n"@ + output_of(recording@) + "\n----\n"@,
{
    let mut source = "[terminal]\n----\n".to_owned();
    source.append(extract_output(recording).as_str());
    source.append("\n----\n");
    source
}

/// The AsciiDoc source that shows a recording as a replayable terminal session.
pub fn recording_source(recording: &str) -> (r: String)
    ensures
        r@ == "[terminal%replay,format=asciicast]\n----\n"@ + recording@ + "\n----\n"@,
{
    let mut source = "[terminal%replay,format=asciicast]\n----\n".to_owned();
    source.append(recording);
    source.append("\n----\n");
    source
}

/// The language that a file's name stands for.
pub uninterp spec fn detected_language(name: Seq<char>) -> Option<Seq<char>>;

/// `arborium::detect_language` maps a file's extension to a language. Which
/// language that is, is left unsaid.
#[verifier::external_body]
fn detect_language(name: &str) -> (r: Option<String>)
    ensures
        opt_text(r) == detected_language(name@),
{
    arborium::detect_language(name).map(|language| language.to_owned())
}

/// The highlighted HTML of a source in a language.
pub uninterp spec fn highlighted(language: Seq<char>, source: Seq<char>) -> Option<Seq<char>>;

/// `arborium::Highlighter::highlight` with class-name spans marks up a source
/// in a language it has a grammar for. What the markup is, and which grammars
/// there are, is left unsaid.
#[verifier::external_body]
fn highlight_source(language: &str, source: &str) -> (r: Option<String>)
    ensures
        opt_text(r) == highlighted(language@, source@),
{
    let config = arborium::Config {
        html_format: arborium::HtmlFormat::ClassNames,
        ..Default::default()
    };
    arborium::Highlighter::with_config(config).highlight(language, source).ok()
}

/// Highlighted HTML for `source`, or `None` when the filename has no grammar.
pub fn highlight(name: &str, source: &str) -> (r: Option<String>)
    ensures
        opt_text(r) == (match detected_language(name@) {
            None => None,
            Some(language) => highlighted(language, source@),
        }),
{
    match detect_language(name) {
        None => None,
        Some(language) => highlight_source(language.as_str(), source),
    }
}

/// The embedded HTML of an AsciiDoc document: embedded conversion leaves the
/// visible title out, so the heading is put back in front of the body.
pub open spec fn titled(
    title: Option<Seq<char>>,
    subtitle: Option<Seq<char>>,
    body: Seq<char>,
) -> Seq<char> {
    match title {
        None => body,
        Some(title) => "<h1>"@ + escaped(title) + "</h1>"@ + (match subtitle {
            None => Seq::empty(),
            Some(subtitle) => "<p class=\"doc-subtitle\">"@ + escaped(subtitle) + "</p>"@,
        }) + body,
    }
}

/// Puts the title and subtitle of an AsciiDoc document back in front of its
/// converted body, or `None` where the body could not be converted.
pub fn asciidoc_html(title: Option<&str>, subtitle: Option<&str>, body: Option<String>) -> (r:
    Option<String>)
    ensures
        match body {
            None => r is None,
            Some(body) => r matches Some(html) && html@ == titled(
                opt_view(title),
                opt_view(subtitle),
                body@,
            ),
        },
{
    let body = match body {
        None => return None,
        Some(body) => body,
    };
    match title {
        None => Some(body),
        Some(title) => {
            let mut html = "<h1>".to_owned();
            html.append(escape(title).as_str());
            html.append("</h1>");
            if let Some(subtitle) = subtitle {
                html.append("<p class=\"doc-subtitle\">");
                html.append(escape(subtitle).as_str());
                html.append("</p>");
            }
            html.append(body.as_str());
            proof {
                assert(html@ =~= titled(Some(title@), opt_view(subtitle), body@));
            }
            Some(html)
        },
    }
}

/// Law: a file is a document by its extension, in whatever case: AsciiDoc,
/// Markdown, or plain text.
pub proof fn law_documents_are_known_by_extension(stem: Seq<char>, extension: Seq<char>)
    requires
        !extension.contains('.'),
    ensures
        ({
            let name = stem + seq!['.'] + extension;
            let ext = lowered(extension);
            let asciidoc = ext == "adoc"@ || ext == "asciidoc"@ || ext == "asc"@ || ext == "adc"@;
            let markdown = ext == "md"@ || ext == "markdown"@ || ext == "mdown"@ || ext == "mkd"@;
            &&& asciidoc ==> mime_of(name) == "text/asciidoc"@
            &&& markdown && !asciidoc ==> mime_of(name) == "text/markdown"@
            &&& !asciidoc && !markdown ==> mime_of(name) == "text/plain"@
        }),
{
    let name = stem + seq!['.'] + extension;
    let n = stem.len() as int;
    assert(name[n] == '.');
    assert forall|j: int| n < j < name.len() implies name[j] != '.' by {
        assert(name[j] == extension[j - n - 1]);
        assert(extension.contains(extension[j - n - 1]));
    }
    crate::text::lemma_last_index_of_is(name, '.', n);
    assert(name.skip(n + 1) =~= extension);
}

/// Law: AsciiDoc and Markdown are rendered by what knows them, and nothing else
/// is rendered.
pub proof fn law_documents_are_rendered_by_kind(source: Seq<char>, asciidoc: Option<Seq<char>>)
    ensures
        converted("text/asciidoc"@, source, asciidoc) == asciidoc,
        converted("text/markdown"@, source, asciidoc) == Some(
            markdown_fragment(source, true, true, true, true),
        ),
        converted("text/plain"@, source, asciidoc) is None,
{
    reveal_strlit("text/asciidoc");
    reveal_strlit("text/markdown");
    reveal_strlit("text/plain");
    assert("text/asciidoc"@[5] == 'a' && "text/markdown"@[5] == 'm');
    assert("text/plain"@[5] == 'p');
}

/// Law: text is escaped character by character, and each of the characters that
/// mean something in HTML by its own name.
pub proof fn law_escaping_is_by_character(a: Seq<char>, b: Seq<char>, c: char)
    ensures
        escaped(a + b) == escaped(a) + escaped(b),
        escaped(seq!['&']) == "&amp;"@,
        escaped(seq!['<']) == "&lt;"@,
        escaped(seq!['>']) == "&gt;"@,
        escaped(seq!['"']) == "&quot;"@,
        c != '&' && c != '<' && c != '>' && c != '"' ==> escaped(seq![c]) == seq![c],
    decreases b.len(),
{
    let none: Seq<char> = seq![];
    assert(escaped(none) =~= none);
    assert(seq!['&'].drop_last() =~= none);
    assert(seq!['<'].drop_last() =~= none);
    assert(seq!['>'].drop_last() =~= none);
    assert(seq!['"'].drop_last() =~= none);
    assert(seq![c].drop_last() =~= none);
    assert(none + "&amp;"@ =~= "&amp;"@);
    assert(none + "&lt;"@ =~= "&lt;"@);
    assert(none + "&gt;"@ =~= "&gt;"@);
    assert(none + "&quot;"@ =~= "&quot;"@);
    assert(none + seq![c] =~= seq![c]);
    if b.len() == 0 {
        assert(a + b =~= a);
        assert(escaped(a) + escaped(b) =~= escaped(a));
    } else {
        law_escaping_is_by_character(a, b.drop_last(), c);
        assert((a + b).drop_last() =~= a + b.drop_last());
        assert((a + b).last() == b.last());
        assert(escaped(a + b) =~= escaped(a) + escaped(b));
    }
}

/// Law: a document's title stands before its body, escaped.
pub proof fn law_title_stands_before_the_body(title: Seq<char>, body: Seq<char>)
    ensures
        titled(None, None, body) == body,
        titled(Some(title), None, body) == "<h1>"@ + escaped(title) + "</h1>"@ + body,
{
    assert("<h1>"@ + escaped(title) + "</h1>"@ + Seq::<char>::empty() + body =~= "<h1>"@ + escaped(
        title,
    ) + "</h1>"@ + body);
}

} // verus!
