use rite::order::compare_bytes;
use rite::repo::{PostSource, Posts};
use rite::site::{handle_args, is_reserved, plan_site, post_scripts, posts_with_tag, Args, Artifact, Config, Script};
use rite::text::find_bytes;

fn args(v: &[&str]) -> Vec<String> {
    v.iter().map(|s| s.to_string()).collect()
}

#[test]
fn commands_are_read() {
    assert!(matches!(handle_args(&args(&["rite", "b"])), Args::Build));
    assert!(matches!(handle_args(&args(&["rite", "build"])), Args::Build));
    assert!(matches!(handle_args(&args(&["rite", "p"])), Args::Post));
    assert!(matches!(handle_args(&args(&["rite", "post"])), Args::Post));
    assert!(matches!(handle_args(&args(&["rite"])), Args::Missing));
    match handle_args(&args(&["rite", "serve"])) {
        Args::Unknown(s) => assert_eq!(s, "serve"),
        _ => panic!("expected an unknown command"),
    }
}

#[test]
fn reserved_names() {
    assert!(is_reserved(&"index".to_string()));
    assert!(is_reserved(&"posts".to_string()));
    assert!(is_reserved(&"404".to_string()));
    assert!(!is_reserved(&"about".to_string()));
}

fn src(path: &str, title: &str, date: &str, tags: &str) -> PostSource {
    PostSource {
        path: path.to_string(),
        contents: format!("---\ntitle = \"{}\"\ndate = {}\ntags = [{}]\n---\n\nbody", title, date, tags),
    }
}

#[test]
fn plan_lists_every_artifact() {
    let posts = Posts::new(
        "posts",
        vec![src("a.md", "A", "2020-01-01", "\"x\", \"y\""), src("b.md", "B", "2021-01-01", "\"x\"")],
    )
    .unwrap();
    let names = args(&["index", "about", "posts", "404", "contact"]);
    let plan = plan_site(&names, &posts);
    let shown: Vec<String> = plan
        .iter()
        .map(|a| match a {
            Artifact::Index => "index".to_string(),
            Artifact::NotFound => "404".to_string(),
            Artifact::Content(n) => format!("content:{}", n),
            Artifact::PostsIndex => "posts".to_string(),
            Artifact::Post(i) => format!("post:{}", i),
            Artifact::Rss => "rss".to_string(),
            Artifact::TagsIndex => "tags".to_string(),
            Artifact::Tag(t) => format!("tag:{}", t),
        })
        .collect();
    assert_eq!(
        shown,
        args(&["index", "404", "content:about", "content:contact", "posts", "post:0", "post:1", "rss", "tags", "tag:x", "tag:y"])
    );
}

#[test]
fn tag_pages_select_by_membership() {
    let posts = Posts::new(
        "posts",
        vec![
            src("a.md", "A", "2020-01-01", "\"x\", \"y\""),
            src("b.md", "B", "2021-01-01", "\"y\""),
            src("c.md", "C", "2022-01-01", "\"z\", \"x\""),
        ],
    )
    .unwrap();
    assert_eq!(posts_with_tag(posts.posts(), &"x".to_string()), vec![0, 2]);
    assert_eq!(posts_with_tag(posts.posts(), &"y".to_string()), vec![1, 2]);
    assert_eq!(posts_with_tag(posts.posts(), &"none".to_string()), Vec::<usize>::new());
    assert!(posts.posts()[0].has_tag(&"z".to_string()));
}

#[test]
fn scripts_embed_first_then_sources() {
    let t = post_scripts(&args(&["a()"]), &Some(args(&["x.js", "y.js"])), &Some("no".to_string()));
    assert_eq!(t.scripts.len(), 3);
    assert!(matches!(&t.scripts[0], Script::Embed { contents } if contents == "a()"));
    assert!(matches!(&t.scripts[2], Script::Src { src } if src == "y.js"));
    assert_eq!(t.noscript, Some("no".to_string()));
    let none = post_scripts(&vec![], &None, &None);
    assert!(none.scripts.is_empty());
}

#[test]
fn url_loses_trailing_slashes() {
    let c = Config {
        url: "https://example.org//".to_string(),
        title: "Site".to_string(),
        content: "content".to_string(),
        posts: "posts".to_string(),
        build_root: "build".to_string(),
        posts_root: "p".to_string(),
        syntax_theme: None,
        posts_src_scripts: None,
        posts_embed_scripts: None,
        posts_noscript: None,
    }
    .normalized();
    assert_eq!(c.url, "https://example.org");
    assert_eq!(c.title, "Site");
}

#[test]
fn byte_order_and_search() {
    assert!(compare_bytes(b"abc", b"abd") < 0);
    assert!(compare_bytes(b"ab", b"abc") < 0);
    assert!(compare_bytes(b"b", b"abc") > 0);
    assert_eq!(compare_bytes(b"same", b"same"), 0);
    assert_eq!(find_bytes(b"xx---yy---", b"---", 0), Some(2));
    assert_eq!(find_bytes(b"xx---yy---", b"---", 3), Some(7));
    assert_eq!(find_bytes(b"xx--", b"---", 0), None);
}
