//! The Markdown event stream as the engine sees it, and its three
//! rewriting stages: code-block highlighting, sidenote collection, and
//! the footnote/sidenote rewrite.
use vstd::prelude::*;
use vstd::utf8::encode_utf8;
use vstd::string::{StringExecFns, StringSliceAdditionalSpecFns};

verus! {

/// The events of a parsed Markdown document that the engine reads; every
/// other event is `Other`.
pub enum MdEvent {
    /// Start of a code block.
    CodeStart,
    /// End of a code block, with its language tag (empty where none).
    CodeEnd(String),
    Text(String),
    SoftBreak,
    /// A footnote reference, with its label.
    NoteRef(String),
    /// Start of a footnote definition, with its label.
    NoteStart(String),
    /// End of a footnote definition, with its label.
    NoteEnd(String),
    ParaStart,
    ParaEnd,
    Other,
}

pub enum MdEventView {
    CodeStart,
    CodeEnd(Seq<char>),
    Text(Seq<char>),
    SoftBreak,
    NoteRef(Seq<char>),
    NoteStart(Seq<char>),
    NoteEnd(Seq<char>),
    ParaStart,
    ParaEnd,
    Other,
}

impl View for MdEvent {
    type V = MdEventView;

    open spec fn view(&self) -> MdEventView {
        match self {
            MdEvent::CodeStart => MdEventView::CodeStart,
            MdEvent::CodeEnd(s) => MdEventView::CodeEnd(s@),
            MdEvent::Text(s) => MdEventView::Text(s@),
            MdEvent::SoftBreak => MdEventView::SoftBreak,
            MdEvent::NoteRef(s) => MdEventView::NoteRef(s@),
            MdEvent::NoteStart(s) => MdEventView::NoteStart(s@),
            MdEvent::NoteEnd(s) => MdEventView::NoteEnd(s@),
            MdEvent::ParaStart => MdEventView::ParaStart,
            MdEvent::ParaEnd => MdEventView::ParaEnd,
            MdEvent::Other => MdEventView::Other,
        }
    }
}

/// One event of the rewritten stream: an event of the parsed document,
/// by index, or literal HTML.
pub enum Piece {
    Event(usize),
    Html(String),
}

pub enum PieceView {
    Event(usize),
    Html(Seq<char>),
}

impl View for Piece {
    type V = PieceView;

    open spec fn view(&self) -> PieceView {
        match self {
            Piece::Event(i) => PieceView::Event(*i),
            Piece::Html(h) => PieceView::Html(h@),
        }
    }
}

pub open spec fn event_views(s: Seq<MdEvent>) -> Seq<MdEventView> {
    s.map_values(|e: MdEvent| e@)
}

pub open spec fn piece_views(s: Seq<Piece>) -> Seq<PieceView> {
    s.map_values(|p: Piece| p@)
}

/// Every event a piece refers to lies below `n`.
pub open spec fn pieces_below(ps: Seq<PieceView>, n: int) -> bool {
    forall|k: int| 0 <= k < ps.len() ==> (#[trigger] ps[k] matches PieceView::Event(i) ==> i < n)
}

/// A code block: its language tag and its text.
pub struct CodeBlock {
    pub lang: String,
    pub code: String,
}

// ---------------------------------------------------------------------
// Stage one: code blocks.

/// Where the scan of code blocks stands: inside a block or not, the text
/// of the open block so far, and the blocks closed.
pub struct CodeScan {
    pub in_code: bool,
    pub buf: Seq<char>,
    pub blocks: Seq<(Seq<char>, Seq<char>)>,
}

pub open spec fn code_step(st: CodeScan, e: MdEventView) -> CodeScan {
    match e {
        MdEventView::CodeStart => CodeScan { in_code: true, ..st },
        MdEventView::CodeEnd(lang) => if st.in_code {
            CodeScan { in_code: false, buf: Seq::empty(), blocks: st.blocks.push((lang, st.buf)) }
        } else {
            st
        },
        MdEventView::Text(t) => if st.in_code {
            CodeScan { buf: st.buf + t, ..st }
        } else {
            st
        },
        _ => st,
    }
}

/// The scan after the first `n` events.
pub open spec fn code_scan(evs: Seq<MdEventView>, n: int) -> CodeScan
    decreases n,
{
    if n <= 0 {
        CodeScan { in_code: false, buf: Seq::empty(), blocks: Seq::empty() }
    } else {
        code_step(code_scan(evs, n - 1), evs[n - 1])
    }
}

/// The code blocks of a document, in order: (language tag, text).
pub open spec fn code_blocks(evs: Seq<MdEventView>) -> Seq<(Seq<char>, Seq<char>)> {
    code_scan(evs, evs.len() as int).blocks
}

/// The stream after stage one, over the first `n` events: each code
/// block's events give way to one HTML piece, the block's entry of `html`.
pub open spec fn splice_code(evs: Seq<MdEventView>, html: Seq<Seq<char>>, n: int) -> Seq<PieceView>
    decreases n,
{
    if n <= 0 {
        Seq::empty()
    } else {
        let prev = splice_code(evs, html, n - 1);
        let st = code_scan(evs, n - 1);
        match evs[n - 1] {
            MdEventView::CodeStart => prev,
            MdEventView::CodeEnd(_) if st.in_code => prev.push(PieceView::Html(html[st.blocks.len() as int])),
            MdEventView::Text(_) if st.in_code => prev,
            _ => prev.push(PieceView::Event((n - 1) as usize)),
        }
    }
}

/// Blocks once closed stay closed: the list only grows.
pub proof fn lemma_code_scan_grows(evs: Seq<MdEventView>, n: int, m: int)
    requires
        0 <= n <= m,
    ensures
        code_scan(evs, n).blocks.len() <= code_scan(evs, m).blocks.len(),
    decreases m - n,
{
    if n < m {
        lemma_code_scan_grows(evs, n, m - 1);
    }
}

/// The code blocks of an event stream.
pub fn collect_code_blocks(evs: &Vec<MdEvent>) -> (r: Vec<CodeBlock>)
    ensures
        r@.len() == code_blocks(event_views(evs@)).len(),
        forall|k: int| 0 <= k < r@.len() ==> (#[trigger] r@[k]).lang@ == code_blocks(event_views(evs@))[k].0
            && r@[k].code@ == code_blocks(event_views(evs@))[k].1,
{
    let ghost ev = event_views(evs@);
    let mut out: Vec<CodeBlock> = Vec::new();
    let mut buf = String::new();
    let mut in_code = false;
    let mut i: usize = 0;
    while i < evs.len()
        invariant
            i <= evs@.len(),
            ev == event_views(evs@),
            in_code == code_scan(ev, i as int).in_code,
            buf@ == code_scan(ev, i as int).buf,
            out@.len() == code_scan(ev, i as int).blocks.len(),
            forall|k: int| 0 <= k < out@.len() ==> (#[trigger] out@[k]).lang@ == code_scan(ev, i as int).blocks[k].0
                && out@[k].code@ == code_scan(ev, i as int).blocks[k].1,
        decreases evs@.len() - i,
    {
        match &evs[i] {
            MdEvent::CodeStart => {
                in_code = true;
            },
            MdEvent::CodeEnd(lang) => {
                if in_code {
                    out.push(CodeBlock { lang: lang.clone(), code: buf });
                    buf = String::new();
                    in_code = false;
                }
            },
            MdEvent::Text(t) => {
                if in_code {
                    buf.append(t.as_str());
                }
            },
            _ => {},
        }
        i = i + 1;
    }
    out
}

/// Stage one: replaces each code block's events by the HTML given for it.
pub fn splice_code_html(evs: &Vec<MdEvent>, html: &Vec<String>) -> (r: Vec<Piece>)
    requires
        html@.len() == code_blocks(event_views(evs@)).len(),
    ensures
        piece_views(r@) == splice_code(
            event_views(evs@),
            html@.map_values(|h: String| h@),
            evs@.len() as int,
        ),
        pieces_below(piece_views(r@), evs@.len() as int),
{
    let ghost ev = event_views(evs@);
    let ghost hv = html@.map_values(|h: String| h@);
    let mut out: Vec<Piece> = Vec::new();
    let mut in_code = false;
    let mut block: usize = 0;
    let mut i: usize = 0;
    let count = html.len();
    while i < evs.len()
        invariant
            i <= evs@.len(),
            count == html@.len(),
            ev == event_views(evs@),
            hv == html@.map_values(|h: String| h@),
            html@.len() == code_blocks(ev).len(),
            in_code == code_scan(ev, i as int).in_code,
            block == code_scan(ev, i as int).blocks.len(),
            piece_views(out@) == splice_code(ev, hv, i as int),
            pieces_below(piece_views(out@), i as int),
        decreases evs@.len() - i,
    {
        let ghost prev = out@;
        proof {
            lemma_code_scan_grows(ev, i + 1, ev.len() as int);
        }
        match &evs[i] {
            MdEvent::CodeStart => {
                in_code = true;
            },
            MdEvent::CodeEnd(_) => {
                if in_code {
                    out.push(Piece::Html(html[block].clone()));
                    block = block + 1;
                    in_code = false;
                } else {
                    out.push(Piece::Event(i));
                }
            },
            MdEvent::Text(_) => {
                if !in_code {
                    out.push(Piece::Event(i));
                }
            },
            _ => {
                out.push(Piece::Event(i));
            },
        }
        assert(piece_views(out@) =~= splice_code(ev, hv, i + 1));
        i = i + 1;
    }
    out
}

// ---------------------------------------------------------------------
// Stage two: sidenote bodies.

/// A footnote label that marks a sidenote: it starts with `s`.
pub open spec fn is_side_label(l: Seq<char>) -> bool {
    encode_utf8(l).len() > 0 && encode_utf8(l)[0] == 115u8
}

/// Where the sidenote scan stands: inside a sidenote definition or not,
/// the text of the open one so far, and the bodies collected.
pub struct SideScan {
    pub in_side: bool,
    pub buf: Seq<char>,
    pub notes: Seq<Seq<char>>,
}

pub open spec fn side_step(st: SideScan, evs: Seq<MdEventView>, p: PieceView) -> SideScan {
    match p {
        PieceView::Html(_) => st,
        PieceView::Event(i) => match evs[i as int] {
            MdEventView::NoteStart(l) => SideScan { in_side: is_side_label(l), ..st },
            MdEventView::NoteEnd(_) => if st.in_side {
                SideScan { in_side: false, buf: Seq::empty(), notes: st.notes.push(st.buf) }
            } else {
                SideScan { in_side: false, buf: Seq::empty(), ..st }
            },
            MdEventView::Text(t) => if st.in_side {
                SideScan { buf: st.buf + t, ..st }
            } else {
                st
            },
            MdEventView::SoftBreak => if st.in_side {
                SideScan { buf: st.buf.push(' '), ..st }
            } else {
                st
            },
            _ => st,
        },
    }
}

/// The sidenote scan after the first `n` pieces.
pub open spec fn side_scan(evs: Seq<MdEventView>, ps: Seq<PieceView>, n: int) -> SideScan
    decreases n,
{
    if n <= 0 {
        SideScan { in_side: false, buf: Seq::empty(), notes: Seq::empty() }
    } else {
        side_step(side_scan(evs, ps, n - 1), evs, ps[n - 1])
    }
}

/// The bodies of the sidenote definitions, in document order: their text
/// runs joined, each soft break as one space.
pub open spec fn sidenotes(evs: Seq<MdEventView>, ps: Seq<PieceView>) -> Seq<Seq<char>> {
    side_scan(evs, ps, ps.len() as int).notes
}

fn label_is_side(l: &String) -> (r: bool)
    ensures
        r == is_side_label(l@),
{
    let b = l.as_str().as_bytes();
    b.len() > 0 && b[0] == 115u8
}

/// Stage two: collects the sidenote bodies of a stream.
pub fn collect_sidenotes(evs: &Vec<MdEvent>, ps: &Vec<Piece>) -> (r: Vec<String>)
    requires
        pieces_below(piece_views(ps@), evs@.len() as int),
    ensures
        r@.map_values(|s: String| s@) == sidenotes(event_views(evs@), piece_views(ps@)),
{
    let ghost ev = event_views(evs@);
    let ghost pv = piece_views(ps@);
    let mut notes: Vec<String> = Vec::new();
    let mut buf = String::new();
    let mut in_side = false;
    let mut i: usize = 0;
    while i < ps.len()
        invariant
            i <= ps@.len(),
            ev == event_views(evs@),
            pv == piece_views(ps@),
            pieces_below(pv, evs@.len() as int),
            in_side == side_scan(ev, pv, i as int).in_side,
            buf@ == side_scan(ev, pv, i as int).buf,
            notes@.map_values(|s: String| s@) == side_scan(ev, pv, i as int).notes,
        decreases ps@.len() - i,
    {
        let ghost before = notes@;
        assert(pv[i as int] == ps@[i as int]@);
        match &ps[i] {
            Piece::Html(_) => {},
            Piece::Event(k) => {
                assert(ev[*k as int] == evs@[*k as int]@);
                match &evs[*k] {
                    MdEvent::NoteStart(l) => {
                        in_side = label_is_side(l);
                    },
                    MdEvent::NoteEnd(_) => {
                        if in_side {
                            notes.push(buf);
                            assert(notes@.map_values(|s: String| s@) =~= before.map_values(|s: String| s@).push(side_scan(ev, pv, i as int).buf));
                        }
                        buf = String::new();
                        in_side = false;
                    },
                    MdEvent::Text(t) => {
                        if in_side {
                            buf.append(t.as_str());
                        }
                    },
                    MdEvent::SoftBreak => {
                        if in_side {
                            let space = " ";
                            proof {
                                reveal_strlit(" ");
                            }
                            buf.append(space);
                            assert(buf@ =~= side_scan(ev, pv, i as int).buf.push(' '));
                        }
                    },
                    _ => {},
                }
            },
        }
        i = i + 1;
    }
    notes
}

// ---------------------------------------------------------------------
// Stage three: the footnote and sidenote rewrite.

/// The HTML that opens an ordinary footnote's paragraph.
pub open spec fn note_open(label: Seq<char>) -> Seq<char> {
    "<p><sup>"@ + label + "</sup> "@
}

/// The HTML that closes an ordinary footnote's paragraph.
pub open spec fn note_close() -> Seq<char> {
    "</p>"@
}

/// The HTML that stands for a sidenote at its reference.
pub open spec fn sidenote_html(body: Seq<char>) -> Seq<char> {
    "<span class=\"sidenote-number\"><small class=\"sidenote\">"@ + body + "</small></span>"@
}

/// Where the rewrite stands: inside a footnote definition, inside a
/// sidenote definition, how many sidenotes are placed, and the output.
/// Inside a sidenote definition every piece up to its end adds nothing.
pub struct Rewrite {
    pub in_note: bool,
    pub in_side: bool,
    pub next: int,
    pub out: Seq<PieceView>,
}

pub open spec fn rewrite_step(
    st: Rewrite,
    evs: Seq<MdEventView>,
    notes: Seq<Seq<char>>,
    p: PieceView,
) -> Rewrite {
    if st.in_side && !ends_note(evs, p) {
        st
    } else {
        rewrite_piece(st, evs, notes, p)
    }
}

/// The piece ends a footnote definition.
pub open spec fn ends_note(evs: Seq<MdEventView>, p: PieceView) -> bool {
    p matches PieceView::Event(i) && evs[i as int] is NoteEnd
}

/// One step of the rewrite outside a sidenote definition.
pub open spec fn rewrite_piece(
    st: Rewrite,
    evs: Seq<MdEventView>,
    notes: Seq<Seq<char>>,
    p: PieceView,
) -> Rewrite {
    match p {
        PieceView::Html(_) => Rewrite { out: st.out.push(p), ..st },
        PieceView::Event(i) => match evs[i as int] {
            MdEventView::NoteRef(l) => if !is_side_label(l) {
                Rewrite { out: st.out.push(p), ..st }
            } else if 0 <= st.next < notes.len() {
                Rewrite {
                    next: st.next + 1,
                    out: st.out.push(PieceView::Html(sidenote_html(notes[st.next]))),
                    ..st
                }
            } else {
                st
            },
            MdEventView::NoteStart(l) => if !is_side_label(l) {
                Rewrite { in_note: true, out: st.out.push(PieceView::Html(note_open(l))), ..st }
            } else {
                Rewrite { in_note: true, in_side: true, ..st }
            },
            MdEventView::NoteEnd(l) => if !is_side_label(l) {
                Rewrite { in_note: false, out: st.out.push(PieceView::Html(note_close())), ..st }
            } else {
                Rewrite { in_note: false, in_side: false, ..st }
            },
            MdEventView::ParaStart => if st.in_note { st } else { Rewrite { out: st.out.push(p), ..st } },
            MdEventView::ParaEnd => if st.in_note { st } else { Rewrite { out: st.out.push(p), ..st } },
            _ => Rewrite { out: st.out.push(p), ..st },
        },
    }
}

/// The rewrite after the first `n` pieces.
pub open spec fn rewrite_scan(
    evs: Seq<MdEventView>,
    ps: Seq<PieceView>,
    notes: Seq<Seq<char>>,
    n: int,
) -> Rewrite
    decreases n,
{
    if n <= 0 {
        Rewrite { in_note: false, in_side: false, next: 0, out: Seq::empty() }
    } else {
        rewrite_step(rewrite_scan(evs, ps, notes, n - 1), evs, notes, ps[n - 1])
    }
}

/// Stage three over a whole stream.
pub open spec fn rewrite_notes(evs: Seq<MdEventView>, ps: Seq<PieceView>, notes: Seq<Seq<char>>) -> Seq<PieceView> {
    rewrite_scan(evs, ps, notes, ps.len() as int).out
}

/// All three stages: the stream that the engine serialises, given the
/// HTML of each code block.
pub open spec fn transform_spec(evs: Seq<MdEventView>, html: Seq<Seq<char>>) -> Seq<PieceView> {
    let ps = splice_code(evs, html, evs.len() as int);
    rewrite_notes(evs, ps, sidenotes(evs, ps))
}

fn note_open_html(label: &String) -> (r: String)
    ensures
        r@ == note_open(label@),
{
    let mut h = String::from_str("<p><sup>");
    h.append(label.as_str());
    h.append("</sup> ");
    h
}

fn sidenote_span(body: &String) -> (r: String)
    ensures
        r@ == sidenote_html(body@),
{
    let mut h = String::from_str("<span class=\"sidenote-number\"><small class=\"sidenote\">");
    h.append(body.as_str());
    h.append("</small></span>");
    h
}

fn clone_piece(p: &Piece) -> (r: Piece)
    ensures
        r@ == p@,
{
    match p {
        Piece::Event(i) => Piece::Event(*i),
        Piece::Html(h) => Piece::Html(h.clone()),
    }
}

/// Stage three: turns ordinary footnote definitions into paragraphs
/// headed by their label, and moves each sidenote body to its reference.
pub fn rewrite_footnotes(evs: &Vec<MdEvent>, ps: &Vec<Piece>, notes: &Vec<String>) -> (r: Vec<Piece>)
    requires
        pieces_below(piece_views(ps@), evs@.len() as int),
    ensures
        piece_views(r@) == rewrite_notes(
            event_views(evs@),
            piece_views(ps@),
            notes@.map_values(|s: String| s@),
        ),
        pieces_below(piece_views(r@), evs@.len() as int),
{
    let ghost ev = event_views(evs@);
    let ghost pv = piece_views(ps@);
    let ghost nv = notes@.map_values(|s: String| s@);
    let mut out: Vec<Piece> = Vec::new();
    let mut in_note = false;
    let mut in_side = false;
    let mut next: usize = 0;
    let mut i: usize = 0;
    while i < ps.len()
        invariant
            i <= ps@.len(),
            ev == event_views(evs@),
            pv == piece_views(ps@),
            nv == notes@.map_values(|s: String| s@),
            pieces_below(pv, evs@.len() as int),
            in_note == rewrite_scan(ev, pv, nv, i as int).in_note,
            in_side == rewrite_scan(ev, pv, nv, i as int).in_side,
            next == rewrite_scan(ev, pv, nv, i as int).next,
            next <= notes@.len(),
            piece_views(out@) == rewrite_scan(ev, pv, nv, i as int).out,
            pieces_below(piece_views(out@), evs@.len() as int),
        decreases ps@.len() - i,
    {
        assert(pv[i as int] == ps@[i as int]@);
        let p = &ps[i];
        let ends = match p {
            Piece::Event(k) => {
                assert(ev[*k as int] == evs@[*k as int]@);
                matches!(evs[*k], MdEvent::NoteEnd(_))
            },
            Piece::Html(_) => false,
        };
        let mut keep = !(in_side && !ends);
        if keep {
        match p {
            Piece::Html(_) => {},
            Piece::Event(k) => {
                assert(ev[*k as int] == evs@[*k as int]@);
                match &evs[*k] {
                    MdEvent::NoteRef(l) => {
                        if label_is_side(l) {
                            keep = false;
                            if next < notes.len() {
                                out.push(Piece::Html(sidenote_span(&notes[next])));
                                next = next + 1;
                            }
                        }
                    },
                    MdEvent::NoteStart(l) => {
                        keep = false;
                        in_note = true;
                        if !label_is_side(l) {
                            out.push(Piece::Html(note_open_html(l)));
                        } else {
                            in_side = true;
                        }
                    },
                    MdEvent::NoteEnd(l) => {
                        keep = false;
                        in_note = false;
                        if !label_is_side(l) {
                            let close = "</p>";
                            out.push(Piece::Html(String::from_str(close)));
                        } else {
                            in_side = false;
                        }
                    },
                    MdEvent::ParaStart => {
                        keep = !in_note;
                    },
                    MdEvent::ParaEnd => {
                        keep = !in_note;
                    },
                    _ => {},
                }
            },
        }
        }
        if keep {
            out.push(clone_piece(p));
        }
        assert(piece_views(out@) =~= rewrite_scan(ev, pv, nv, i + 1).out);
        i = i + 1;
    }
    out
}

/// All three stages over a parsed document, given the HTML of each of its
/// code blocks in order.
pub fn transform(evs: &Vec<MdEvent>, code_html: &Vec<String>) -> (r: Vec<Piece>)
    requires
        code_html@.len() == code_blocks(event_views(evs@)).len(),
    ensures
        piece_views(r@) == transform_spec(event_views(evs@), code_html@.map_values(|h: String| h@)),
        pieces_below(piece_views(r@), evs@.len() as int),
{
    let ps = splice_code_html(evs, code_html);
    let notes = collect_sidenotes(evs, &ps);
    rewrite_footnotes(evs, &ps, &notes)
}

/// A piece that the footnote rewrite can let through: no footnote
/// definition boundary and no reference to a sidenote.
pub open spec fn passes_rewrite(evs: Seq<MdEventView>, p: PieceView) -> bool {
    match p {
        PieceView::Html(_) => true,
        PieceView::Event(i) => match evs[i as int] {
            MdEventView::NoteStart(_) => false,
            MdEventView::NoteEnd(_) => false,
            MdEventView::NoteRef(l) => !is_side_label(l),
            _ => true,
        },
    }
}

proof fn lemma_rewrite_scan_passes(evs: Seq<MdEventView>, ps: Seq<PieceView>, notes: Seq<Seq<char>>, n: int)
    requires
        0 <= n <= ps.len(),
    ensures
        forall|k: int| 0 <= k < rewrite_scan(evs, ps, notes, n).out.len() ==> passes_rewrite(evs, #[trigger] rewrite_scan(evs, ps, notes, n).out[k]),
    decreases n,
{
    if n > 0 {
        lemma_rewrite_scan_passes(evs, ps, notes, n - 1);
        let prev = rewrite_scan(evs, ps, notes, n - 1).out;
        let out = rewrite_scan(evs, ps, notes, n).out;
        assert forall|k: int| 0 <= k < out.len() implies passes_rewrite(evs, #[trigger] out[k]) by {
            if k < prev.len() {
                assert(out[k] == prev[k]);
            }
        }
    }
}

/// Footnote definitions leave no definition markup: no start or end of a
/// footnote definition reaches the HTML writer, so no footnotes section
/// is written; ordinary definitions appear only as the paragraphs that
/// `note_open` and `note_close` frame.
pub proof fn lemma_no_footnote_section(evs: Seq<MdEventView>, html: Seq<Seq<char>>)
    ensures
        forall|k: int| 0 <= k < transform_spec(evs, html).len() ==> match #[trigger] transform_spec(evs, html)[k] {
            PieceView::Event(i) => !(evs[i as int] is NoteStart) && !(evs[i as int] is NoteEnd),
            PieceView::Html(_) => true,
        },
{
    let ps = splice_code(evs, html, evs.len() as int);
    lemma_rewrite_scan_passes(evs, ps, sidenotes(evs, ps), ps.len() as int);
}

/// No reference to a sidenote (a label starting with `s`) reaches the
/// HTML writer: each is replaced by its sidenote's HTML, or dropped when
/// no sidenote body is left.
pub proof fn lemma_sidenote_references_replaced(evs: Seq<MdEventView>, html: Seq<Seq<char>>)
    ensures
        forall|k: int| 0 <= k < transform_spec(evs, html).len() ==> match #[trigger] transform_spec(evs, html)[k] {
            PieceView::Event(i) => match evs[i as int] {
                MdEventView::NoteRef(l) => !is_side_label(l),
                _ => true,
            },
            PieceView::Html(_) => true,
        },
{
    let ps = splice_code(evs, html, evs.len() as int);
    lemma_rewrite_scan_passes(evs, ps, sidenotes(evs, ps), ps.len() as int);
}

/// The piece is a reference to a sidenote.
pub open spec fn is_side_ref(evs: Seq<MdEventView>, p: PieceView) -> bool {
    match p {
        PieceView::Event(i) => match evs[i as int] {
            MdEventView::NoteRef(l) => is_side_label(l),
            _ => false,
        },
        PieceView::Html(_) => false,
    }
}

/// How many references to sidenotes the first `n` pieces hold outside
/// sidenote definitions.
pub open spec fn side_refs_before(evs: Seq<MdEventView>, ps: Seq<PieceView>, notes: Seq<Seq<char>>, n: int) -> int
    decreases n,
{
    if n <= 0 {
        0
    } else {
        side_refs_before(evs, ps, notes, n - 1) + if is_side_ref(evs, ps[n - 1])
            && !rewrite_scan(evs, ps, notes, n - 1).in_side { 1int } else { 0int }
    }
}

proof fn lemma_rewrite_next(evs: Seq<MdEventView>, ps: Seq<PieceView>, notes: Seq<Seq<char>>, n: int)
    requires
        0 <= n <= ps.len(),
    ensures
        side_refs_before(evs, ps, notes, n) >= 0,
        rewrite_scan(evs, ps, notes, n).next == if side_refs_before(evs, ps, notes, n) < notes.len() {
            side_refs_before(evs, ps, notes, n)
        } else {
            notes.len() as int
        },
    decreases n,
{
    if n > 0 {
        lemma_rewrite_next(evs, ps, notes, n - 1);
        let st = rewrite_scan(evs, ps, notes, n - 1);
        assert(rewrite_scan(evs, ps, notes, n) == rewrite_step(st, evs, notes, ps[n - 1]));
        match ps[n - 1] {
            PieceView::Html(_) => {},
            PieceView::Event(i) => {
                match evs[i as int] {
                    MdEventView::NoteRef(l) => {},
                    _ => {
                        assert(!is_side_ref(evs, ps[n - 1]));
                    },
                }
            },
        }
    }
}

/// Sidenotes meet their references in document order: the reference that
/// has `k` references to sidenotes before it (outside sidenote
/// definitions) shows the `k`-th sidenote body, in its place.
pub proof fn lemma_sidenotes_in_document_order(
    evs: Seq<MdEventView>,
    ps: Seq<PieceView>,
    notes: Seq<Seq<char>>,
    n: int,
)
    requires
        0 <= n < ps.len(),
        is_side_ref(evs, ps[n]),
        !rewrite_scan(evs, ps, notes, n).in_side,
        side_refs_before(evs, ps, notes, n) < notes.len(),
    ensures
        rewrite_scan(evs, ps, notes, n + 1).out == rewrite_scan(evs, ps, notes, n).out.push(
            PieceView::Html(sidenote_html(notes[side_refs_before(evs, ps, notes, n)])),
        ),
{
    lemma_rewrite_next(evs, ps, notes, n);
    let st = rewrite_scan(evs, ps, notes, n);
    assert(rewrite_scan(evs, ps, notes, n + 1) == rewrite_step(st, evs, notes, ps[n]));
}

/// The piece starts or ends a footnote definition.
pub open spec fn is_note_boundary(evs: Seq<MdEventView>, p: PieceView) -> bool {
    match p {
        PieceView::Event(i) => evs[i as int] is NoteStart || evs[i as int] is NoteEnd,
        PieceView::Html(_) => false,
    }
}

/// The piece starts the definition of a sidenote.
pub open spec fn is_side_start(evs: Seq<MdEventView>, p: PieceView) -> bool {
    match p {
        PieceView::Event(i) => match evs[i as int] {
            MdEventView::NoteStart(l) => is_side_label(l),
            _ => false,
        },
        PieceView::Html(_) => false,
    }
}

proof fn lemma_inside_sidenote(evs: Seq<MdEventView>, ps: Seq<PieceView>, notes: Seq<Seq<char>>, n: int, m: int)
    requires
        0 <= n < m <= ps.len(),
        is_side_start(evs, ps[n]),
        forall|k: int| n < k < m ==> !is_note_boundary(evs, #[trigger] ps[k]),
    ensures
        rewrite_scan(evs, ps, notes, m).in_side,
    decreases m - n,
{
    if m == n + 1 {
        let st = rewrite_scan(evs, ps, notes, n);
        assert(rewrite_scan(evs, ps, notes, n + 1) == rewrite_step(st, evs, notes, ps[n]));
    } else {
        lemma_inside_sidenote(evs, ps, notes, n, m - 1);
        let st = rewrite_scan(evs, ps, notes, m - 1);
        assert(!is_note_boundary(evs, ps[m - 1]));
        assert(rewrite_scan(evs, ps, notes, m) == rewrite_step(st, evs, notes, ps[m - 1]));
    }
}

/// A sidenote's definition shows nothing where it stands: every piece
/// after its start, up to the next footnote boundary, adds nothing.
pub proof fn lemma_sidenote_body_hidden(
    evs: Seq<MdEventView>,
    ps: Seq<PieceView>,
    notes: Seq<Seq<char>>,
    n: int,
    m: int,
)
    requires
        0 <= n < m < ps.len(),
        is_side_start(evs, ps[n]),
        forall|k: int| n < k <= m ==> !is_note_boundary(evs, #[trigger] ps[k]),
    ensures
        rewrite_scan(evs, ps, notes, m + 1) == rewrite_scan(evs, ps, notes, m),
{
    lemma_inside_sidenote(evs, ps, notes, n, m);
    let st = rewrite_scan(evs, ps, notes, m);
    assert(!is_note_boundary(evs, ps[m]));
    assert(rewrite_scan(evs, ps, notes, m + 1) == rewrite_step(st, evs, notes, ps[m]));
}

/// An ordinary footnote becomes an inline paragraph: its reference
/// passes through, its definition's start becomes `<p><sup>label</sup> `,
/// its end becomes `</p>`, and no paragraph boundary inside a definition
/// is written. `l` is the footnote's label.
pub proof fn lemma_footnote_paragraph(
    evs: Seq<MdEventView>,
    ps: Seq<PieceView>,
    notes: Seq<Seq<char>>,
    n: int,
    l: Seq<char>,
)
    requires
        0 <= n < ps.len(),
    ensures
        ps[n] matches PieceView::Event(i) && evs[i as int] == MdEventView::NoteRef(l) && !is_side_label(l)
            && !rewrite_scan(evs, ps, notes, n).in_side
            ==> rewrite_scan(evs, ps, notes, n + 1).out == rewrite_scan(evs, ps, notes, n).out.push(ps[n]),
        ps[n] matches PieceView::Event(i) && evs[i as int] == MdEventView::NoteStart(l) && !is_side_label(l)
            && !rewrite_scan(evs, ps, notes, n).in_side
            ==> rewrite_scan(evs, ps, notes, n + 1).out == rewrite_scan(evs, ps, notes, n).out.push(PieceView::Html(note_open(l))),
        ps[n] matches PieceView::Event(i) && evs[i as int] == MdEventView::NoteEnd(l) && !is_side_label(l)
            ==> rewrite_scan(evs, ps, notes, n + 1).out == rewrite_scan(evs, ps, notes, n).out.push(PieceView::Html(note_close())),
        ps[n] matches PieceView::Event(i) && (evs[i as int] is ParaStart || evs[i as int] is ParaEnd)
            && rewrite_scan(evs, ps, notes, n).in_note
            ==> rewrite_scan(evs, ps, notes, n + 1).out == rewrite_scan(evs, ps, notes, n).out,
{
    let st = rewrite_scan(evs, ps, notes, n);
    assert(rewrite_scan(evs, ps, notes, n + 1) == rewrite_step(st, evs, notes, ps[n]));
}

} // verus!
