//! The Markdown engine: parses with pulldown-cmark (footnotes enabled),
//! highlights code blocks with syntect, rewrites footnotes and sidenotes,
//! and writes HTML.
use vstd::prelude::*;
use crate::error::Error;
use crate::events::{
    code_blocks, collect_code_blocks, event_views, piece_views, pieces_below, transform,
    transform_spec, CodeBlock, MdEvent, MdEventView, Piece, PieceView,
};
use pulldown_cmark::Event::{End, FootnoteReference, SoftBreak, Start, Text};
use pulldown_cmark::Tag::{CodeBlock as CodeTag, FootnoteDefinition, Paragraph};
use pulldown_cmark::{CodeBlockKind, CowStr, Event, Options, Parser};
use syntect::highlighting::Theme;
use syntect::parsing::{SyntaxReference, SyntaxSet};
use syntect::Error as HighlightFailure;

verus! {

#[verifier::external_type_specification]
#[verifier::external_body]
pub struct ExSyntaxSet(SyntaxSet);

#[verifier::external_type_specification]
#[verifier::external_body]
pub struct ExSyntaxReference(SyntaxReference);

#[verifier::external_type_specification]
#[verifier::external_body]
pub struct ExTheme(Theme);

/// The events that pulldown-cmark yields for a document parsed with
/// footnotes enabled, as the engine sees them.
pub uninterp spec fn cmark_events(text: Seq<char>) -> Seq<MdEventView>;

/// The HTML that pulldown-cmark writes for the stream in which each
/// `Event(i)` is the `i`-th event of parsing `text` with footnotes
/// enabled, and each `Html(h)` is an HTML event of text `h`.
pub uninterp spec fn cmark_html(text: Seq<char>, pieces: Seq<PieceView>) -> Seq<char>;

/// Relies on `pulldown_cmark::Parser::new_ext` with `ENABLE_FOOTNOTES`:
/// the document's events, in order.
#[verifier::external_body]
fn parse_events(text: &str) -> (r: Vec<MdEvent>)
    ensures
        event_views(r@) == cmark_events(text@),
{
    Parser::new_ext(text, Options::ENABLE_FOOTNOTES).map(|e| match e {
        Start(CodeTag(_)) => MdEvent::CodeStart,
        End(CodeTag(CodeBlockKind::Fenced(l))) => MdEvent::CodeEnd(l.to_string()),
        End(CodeTag(_)) => MdEvent::CodeEnd(String::new()),
        Start(FootnoteDefinition(l)) => MdEvent::NoteStart(l.to_string()),
        End(FootnoteDefinition(l)) => MdEvent::NoteEnd(l.to_string()),
        Start(Paragraph) => MdEvent::ParaStart,
        End(Paragraph) => MdEvent::ParaEnd,
        Text(t) => MdEvent::Text(t.to_string()),
        SoftBreak => MdEvent::SoftBreak,
        FootnoteReference(l) => MdEvent::NoteRef(l.to_string()),
        _ => MdEvent::Other,
    }).collect()
}

/// Relies on `pulldown_cmark::html::push_html` over the parsed events
/// that the pieces select, with HTML events in between.
#[verifier::external_body]
fn write_html(text: &str, pieces: &Vec<Piece>) -> (r: String)
    requires
        pieces_below(piece_views(pieces@), cmark_events(text@).len() as int),
    ensures
        r@ == cmark_html(text@, piece_views(pieces@)),
{
    let events: Vec<Event> = Parser::new_ext(text, Options::ENABLE_FOOTNOTES).collect();
    let stream = pieces.iter().map(|p| match p {
        Piece::Event(i) => events[*i].clone(),
        Piece::Html(h) => Event::Html(CowStr::from(h.clone())),
    });
    let mut html = String::new();
    pulldown_cmark::html::push_html(&mut html, stream);
    html
}

/// Relies on syntect's `SyntaxSet::load_defaults_newlines`.
#[verifier::external_body]
fn default_syntaxes() -> (r: SyntaxSet) {
    SyntaxSet::load_defaults_newlines()
}

/// Relies on syntect's `SyntaxSet::find_syntax_by_extension`.
#[verifier::external_body]
fn syntax_by_extension<'a>(set: &'a SyntaxSet, ext: &str) -> (r: Option<&'a SyntaxReference>) {
    set.find_syntax_by_extension(ext)
}

/// Relies on syntect's `SyntaxSet::find_syntax_by_name`.
#[verifier::external_body]
fn syntax_by_name<'a>(set: &'a SyntaxSet, name: &str) -> (r: Option<&'a SyntaxReference>) {
    set.find_syntax_by_name(name)
}

/// Relies on syntect's `html::highlighted_html_for_string`.
#[verifier::external_body]
fn highlight(code: &str, set: &SyntaxSet, syntax: &SyntaxReference, theme: &Theme) -> (r: Result<
    String,
    HighlightFailure,
>) {
    syntect::html::highlighted_html_for_string(code, set, syntax, theme)
}

/// Converts Markdown to HTML. Holds the syntax definitions and the theme
/// for code blocks, loaded once and used for every document.
pub struct Markdown {
    syntax_set: SyntaxSet,
    theme: Theme,
}

impl Markdown {
    /// An engine with syntect's default syntaxes and the given theme.
    pub fn with_theme(theme: Theme) -> (r: Markdown) {
        Markdown { syntax_set: default_syntaxes(), theme }
    }

    /// Highlights one code block by the syntax that its language tag names
    /// as a file extension; an empty or unknown tag, or an indented block,
    /// takes plain text. The inner result is the highlighter's own; the
    /// outer error comes only where the syntax set has no plain text.
    fn highlight_block(&self, block: &CodeBlock) -> (r: Result<Result<String, HighlightFailure>, Error>)
        ensures
            r matches Err(e) ==> e is NoPlainText,
    {
        let by_extension = if block.lang.as_str().len() == 0 {
            None
        } else {
            syntax_by_extension(&self.syntax_set, block.lang.as_str())
        };
        let plain = syntax_by_name(&self.syntax_set, "Plain Text");
        match pick_syntax(block.lang.as_str(), by_extension, plain) {
            Some(syntax) => Ok(highlight(block.code.as_str(), &self.syntax_set, syntax, &self.theme)),
            None => Err(Error::NoPlainText),
        }
    }

    /// Renders a Markdown document to HTML. Each code block becomes the
    /// highlighted HTML of its text; ordinary footnote definitions become
    /// paragraphs headed by `<sup>label</sup>`; each reference to a
    /// sidenote (a label starting with `s`) is replaced by the next
    /// sidenote body, and the definitions themselves show nothing. Fails
    /// only where highlighting fails; a document without code blocks always
    /// renders.
    pub fn render_html(&self, content: &str) -> (r: Result<String, Error>)
        ensures
            code_blocks(cmark_events(content@)).len() == 0 ==> match r {
                Ok(h) => h@ == cmark_html(content@, transform_spec(cmark_events(content@), Seq::empty())),
                Err(_) => false,
            },
            r matches Ok(h) ==> exists|code: Seq<Seq<char>>|
                code.len() == code_blocks(cmark_events(content@)).len()
                && h@ == cmark_html(content@, transform_spec(cmark_events(content@), code)),
            r matches Err(e) ==> e is Syntect || e is NoPlainText,
    {
        let evs = parse_events(content);
        let blocks = collect_code_blocks(&evs);
        let mut results: Vec<Result<String, HighlightFailure>> = Vec::new();
        let mut i: usize = 0;
        while i < blocks.len()
            invariant
                i <= blocks@.len(),
                results@.len() == i,
                blocks@.len() == code_blocks(cmark_events(content@)).len(),
            decreases blocks@.len() - i,
        {
            match self.highlight_block(&blocks[i]) {
                Ok(h) => results.push(h),
                Err(e) => {
                    return Err(e);
                },
            }
            i = i + 1;
        }
        let r = finish_render(content, results);
        proof {
            if code_blocks(cmark_events(content@)).len() == 0 {
                assert(ok_texts(results@) =~= Seq::<Seq<char>>::empty());
            }
        }
        r
    }
}

/// The syntax for a code block with language tag `lang`: the one found by
/// that tag as a file extension, where the tag is not empty and one is
/// found; else plain text.
pub fn pick_syntax<'a>(
    lang: &str,
    by_extension: Option<&'a SyntaxReference>,
    plain: Option<&'a SyntaxReference>,
) -> (r: Option<&'a SyntaxReference>)
    ensures
        r == if lang@.len() > 0 && by_extension is Some { by_extension } else { plain },
{
    if !lang.is_empty() {
        match by_extension {
            Some(s) => {
                return Some(s);
            },
            None => {},
        }
    }
    plain
}

/// The text of each successful highlight.
pub open spec fn ok_texts(code: Seq<Result<String, HighlightFailure>>) -> Seq<Seq<char>> {
    code.map_values(|c: Result<String, HighlightFailure>| match c {
        Ok(h) => h@,
        Err(_) => Seq::empty(),
    })
}

/// Finishes rendering a document, given what the highlighter returned for
/// each of its code blocks in order: the HTML of the rewritten stream when
/// every block highlighted, else the first block's error.
pub fn finish_render(content: &str, code: Vec<Result<String, HighlightFailure>>) -> (r: Result<String, Error>)
    requires
        code@.len() == code_blocks(cmark_events(content@)).len(),
    ensures
        r is Ok <==> forall|k: int| 0 <= k < code@.len() ==> (#[trigger] code@[k]) is Ok,
        r matches Ok(h) ==> h@ == cmark_html(content@, transform_spec(cmark_events(content@), ok_texts(code@))),
        r matches Err(e) ==> exists|k: int| #![trigger code@[k]] {
            &&& 0 <= k < code@.len()
            &&& forall|j: int| 0 <= j < k ==> (#[trigger] code@[j]) is Ok
            &&& code@[k] matches Err(x) && e == Error::Syntect(x)
        },
{
    let ghost all = code@;
    let evs = parse_events(content);
    let total = code.len();
    let mut rest = code;
    let mut html: Vec<String> = Vec::new();
    let mut k: usize = 0;
    while rest.len() > 0
        invariant
            k + rest@.len() == all.len(),
            all == code@,
            all.len() == total,
            rest@ == all.subrange(k as int, all.len() as int),
            html@.len() == k,
            forall|j: int| 0 <= j < k ==> (#[trigger] all[j]) is Ok && html@[j]@ == ok_texts(all)[j],
        decreases rest@.len(),
    {
        let ghost before = rest@;
        match rest.remove(0) {
            Ok(h) => {
                assert(all[k as int] == before[0]);
                html.push(h);
            },
            Err(x) => {
                assert(all[k as int] == before[0]);
                assert(all[k as int] matches Err(y) && Error::Syntect(x) == Error::Syntect(y));
                assert(!(all[k as int] is Ok));
                return Err(Error::Syntect(x));
            },
        }
        assert(rest@ =~= all.subrange(k + 1, all.len() as int));
        k = k + 1;
    }
    assert(html@.map_values(|h: String| h@) =~= ok_texts(all));
    let pieces = transform(&evs, &html);
    Ok(write_html(content, &pieces))
}

} // verus!
