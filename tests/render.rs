use rite::events::{transform, CodeBlock, MdEvent, Piece};
use rite::markdown::Markdown;
use rite::repo::{PostSource, Posts};
use syntect::highlighting::ThemeSet;

fn engine() -> Markdown {
    let themes = ThemeSet::load_defaults();
    Markdown::with_theme(themes.themes["base16-mocha.dark"].clone())
}

#[test]
fn known_language_is_highlighted() {
    let html = engine().render_html("```rs\nfn main() {}\n```\n").unwrap();
    assert!(html.contains("<pre style="));
    assert!(html.contains("style=\"color:"));
    assert!(html.contains("main"));
    assert!(!html.contains("<code"));
}

#[test]
fn unknown_language_falls_back_to_plain_text() {
    let html = engine().render_html("```nosuchlang\nplain words\n```\n").unwrap();
    assert!(html.contains("<pre style="));
    assert!(html.contains("plain words"));
}

#[test]
fn indented_block_is_plain_text() {
    let html = engine().render_html("    indented code\n").unwrap();
    assert!(html.contains("<pre style="));
    assert!(html.contains("indented code"));
}

#[test]
fn footnote_becomes_inline_paragraph() {
    let html = engine().render_html("Text[^1].\n\n[^1]: The note.\n").unwrap();
    assert!(html.contains("<p><sup>1</sup> The note.</p>"));
    assert!(html.contains("footnote-reference"));
    assert!(!html.contains("footnote-definition"));
}

#[test]
fn sidenotes_move_to_their_references_in_order() {
    let src = "One[^s1] two[^s2] three.\n\n[^s1]: first note\n\n[^s2]: second\nnote\n";
    let html = engine().render_html(src).unwrap();
    let first = "<span class=\"sidenote-number\"><small class=\"sidenote\">first note</small></span>";
    let second = "<span class=\"sidenote-number\"><small class=\"sidenote\">second note</small></span>";
    assert!(html.contains(first), "{}", html);
    assert!(html.contains(second));
    assert!(html.find(first).unwrap() < html.find(second).unwrap());
    assert_eq!(html.matches("first note").count(), 1);
    assert!(!html.contains("footnote-reference"));
}

#[test]
fn rendering_twice_is_identical() {
    let md = engine();
    let src = "# T\n\nA[^1] B[^s]\n\n```rs\nlet x = 1;\n```\n\n[^1]: n\n[^s]: side\n";
    assert_eq!(md.render_html(src).unwrap(), md.render_html(src).unwrap());
}

#[test]
fn plain_paragraph_passes_through() {
    let html = engine().render_html("Hello *world*").unwrap();
    assert_eq!(html, "<p>Hello <em>world</em></p>\n");
}

fn s(x: &str) -> String {
    x.to_string()
}

fn html_of(p: &Piece) -> Option<String> {
    match p {
        Piece::Html(h) => Some(h.clone()),
        Piece::Event(_) => None,
    }
}

#[test]
fn transform_splices_code_and_rewrites_notes() {
    let evs = vec![
        MdEvent::ParaStart,
        MdEvent::Text(s("a")),
        MdEvent::NoteRef(s("s1")),
        MdEvent::NoteRef(s("n")),
        MdEvent::ParaEnd,
        MdEvent::CodeStart,
        MdEvent::Text(s("x = 1")),
        MdEvent::CodeEnd(s("py")),
        MdEvent::NoteStart(s("n")),
        MdEvent::ParaStart,
        MdEvent::Text(s("body")),
        MdEvent::ParaEnd,
        MdEvent::NoteEnd(s("n")),
        MdEvent::NoteStart(s("s1")),
        MdEvent::ParaStart,
        MdEvent::Text(s("side")),
        MdEvent::SoftBreak,
        MdEvent::Text(s("note")),
        MdEvent::ParaEnd,
        MdEvent::NoteEnd(s("s1")),
    ];
    let blocks = rite::events::collect_code_blocks(&evs);
    assert_eq!(blocks.len(), 1);
    let CodeBlock { lang, code } = &blocks[0];
    assert_eq!(lang, "py");
    assert_eq!(code, "x = 1");
    let out = transform(&evs, &vec![s("<pre>X</pre>")]);
    let shown: Vec<String> = out
        .iter()
        .map(|p| match p {
            Piece::Event(i) => format!("#{}", i),
            Piece::Html(h) => h.clone(),
        })
        .collect();
    assert_eq!(
        shown,
        vec![
            s("#0"),
            s("#1"),
            s("<span class=\"sidenote-number\"><small class=\"sidenote\">side note</small></span>"),
            s("#3"),
            s("#4"),
            s("<pre>X</pre>"),
            s("<p><sup>n</sup> "),
            s("#10"),
            s("</p>"),
        ]
    );
    assert!(html_of(&out[0]).is_none());
}

#[test]
fn sidenote_reference_without_body_is_dropped() {
    let evs = vec![MdEvent::NoteRef(s("s9")), MdEvent::Text(s("t"))];
    let out = transform(&evs, &vec![]);
    assert_eq!(out.len(), 1);
    assert!(matches!(out[0], Piece::Event(1)));
}

#[test]
fn sidenote_definition_shows_nothing_in_place() {
    let src = "A[^s1] B.\n\n[^s1]: has `code` and *em*\n";
    let html = engine().render_html(src).unwrap();
    assert!(!html.contains("<code>"));
    assert!(!html.contains("<em>"));
    assert!(html.contains("<small class=\"sidenote\">has  and em</small>"), "{}", html);
}

#[test]
fn finishing_without_code_blocks() {
    let html = rite::markdown::finish_render("plain", vec![]).unwrap();
    assert_eq!(html, "<p>plain</p>\n");
}

#[test]
fn bodies_render_in_place() {
    let src = PostSource {
        path: "a.md".to_string(),
        contents: "---\ntitle = \"A\"\ndate = 2020-01-01\ntags = [\"x\"]\n---\n\nHello *there*".to_string(),
    };
    let mut posts = Posts::new("posts", vec![src]).unwrap();
    posts.render_bodies(&engine()).unwrap();
    assert_eq!(posts.posts()[0].content, "<p>Hello <em>there</em></p>\n");
    assert_eq!(posts.posts()[0].title, "A");
}

#[test]
fn syntax_is_picked_by_extension_else_plain_text() {
    let set = syntect::parsing::SyntaxSet::load_defaults_newlines();
    let rust = set.find_syntax_by_extension("rs");
    let plain = set.find_syntax_by_name("Plain Text");
    assert_eq!(rite::markdown::pick_syntax("rs", rust, plain).unwrap().name, "Rust");
    assert_eq!(rite::markdown::pick_syntax("", rust, plain).unwrap().name, "Plain Text");
    assert_eq!(rite::markdown::pick_syntax("zz", None, plain).unwrap().name, "Plain Text");
}
