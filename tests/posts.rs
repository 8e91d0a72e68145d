use rite::date::Date;
use rite::error::Error;
use rite::post::{file_stem, Post};
use rite::repo::{decimal_string, PostSource, Posts};

fn source(path: &str, title: &str, date: &str, tags: &str, body: &str) -> PostSource {
    PostSource {
        path: path.to_string(),
        contents: format!("---\ntitle = \"{}\"\ndate = {}\ntags = [{}]\n---\n\n{}", title, date, tags, body),
    }
}

fn names(posts: &Posts) -> Vec<String> {
    posts.posts().iter().map(|p| p.name.clone()).collect()
}

#[test]
fn parse_reads_header_and_body() {
    let text = "---\ntitle = \"Hello\"\ndate = 2023-04-05\ntags = [\"a\", \"b\"]\n---\n\nIntro\n<!-- top -->\nMore";
    let p = Post::parse("hello.md", text).unwrap();
    assert_eq!(p.name, "hello");
    assert_eq!(p.title, "Hello");
    assert_eq!(p.date, Date { year: 2023, month: 4, day: 5 });
    assert_eq!(p.tags, vec!["a".to_string(), "b".to_string()]);
    assert_eq!(p.content, "Intro\n<!-- top -->\nMore");
    assert_eq!(p.top, Some(6));
}

#[test]
fn top_is_a_byte_offset() {
    let text = "---\ntitle = \"t\"\ndate = 2023-04-05\ntags = []\n---\n\né<!-- top -->";
    let p = Post::parse("x.md", text).unwrap();
    assert_eq!(p.top, Some(2));
}

#[test]
fn missing_delimiter_names_the_file() {
    let text = "---\ntitle = \"t\"\ndate = 2023-04-05\ntags = []\n";
    match Post::parse("posts/broken.md", text) {
        Err(Error::MissingDelimiter(p)) => assert_eq!(p, "posts/broken.md"),
        other => panic!("unexpected {:?}", other.map(|p| p.name)),
    }
}

#[test]
fn short_file_is_missing_delimiter() {
    assert!(matches!(Post::parse("a.md", "--"), Err(Error::MissingDelimiter(_))));
    assert!(matches!(Post::parse("a.md", ""), Err(Error::MissingDelimiter(_))));
}

#[test]
fn missing_delimiter_fails_the_repository() {
    let good = source("1.md", "One", "2020-01-01", "", "x");
    let bad = PostSource { path: "2.md".to_string(), contents: "no header here".to_string() };
    match Posts::new("posts", vec![good, bad]) {
        Err(Error::MissingDelimiter(p)) => assert_eq!(p, "2.md"),
        _ => panic!("expected a delimiter error"),
    }
}

#[test]
fn malformed_toml_is_a_header_error() {
    let text = "---\ntitle = = \n---\n\nbody";
    match Post::parse("bad.md", text) {
        Err(Error::ReadPostHeader(p, _)) => assert_eq!(p, "bad.md"),
        _ => panic!("expected a header error"),
    }
}

#[test]
fn missing_title_is_a_field_error() {
    let text = "---\ndate = 2020-01-01\ntags = []\n---\n\nbody";
    match Post::parse("t.md", text) {
        Err(Error::HeaderField(p, f)) => {
            assert_eq!(p, "t.md");
            assert_eq!(f, "title");
        }
        _ => panic!("expected a field error"),
    }
}

#[test]
fn mistyped_tags_is_a_field_error() {
    let text = "---\ntitle = \"x\"\ndate = 2020-01-01\ntags = [1]\n---\n\nbody";
    match Post::parse("t.md", text) {
        Err(Error::HeaderField(_, f)) => assert_eq!(f, "tags"),
        _ => panic!("expected a field error"),
    }
}

#[test]
fn time_without_date_is_a_date_error() {
    let text = "---\ntitle = \"x\"\ndate = 10:00:00\ntags = []\n---\n\nbody";
    assert!(matches!(Post::parse("t.md", text), Err(Error::BadDate(_))));
}

#[test]
fn order_is_date_then_title_descending() {
    let posts = Posts::new(
        "posts",
        vec![
            source("a.md", "Beta", "2021-05-01", "", ""),
            source("b.md", "Alpha", "2022-01-01", "", ""),
            source("c.md", "Alpha", "2021-05-01", "", ""),
            source("d.md", "Zeta", "2020-12-31", "", ""),
        ],
    )
    .unwrap();
    assert_eq!(names(&posts), vec!["b", "a", "c", "d"]);
}

#[test]
fn reversed_reading_keeps_the_order() {
    let make = || {
        vec![
            source("a.md", "Beta", "2021-05-01", "", ""),
            source("b.md", "Alpha", "2022-01-01", "", ""),
            source("c.md", "Alpha", "2021-05-01", "", ""),
        ]
    };
    let forward = Posts::new("posts", make()).unwrap();
    let mut rev = make();
    rev.reverse();
    let backward = Posts::new("posts", rev).unwrap();
    assert_eq!(names(&forward), names(&backward));
}

#[test]
fn equal_keys_come_later_read_first() {
    let posts = Posts::new(
        "posts",
        vec![source("x.md", "Same", "2021-01-01", "", ""), source("y.md", "Same", "2021-01-01", "", "")],
    )
    .unwrap();
    assert_eq!(names(&posts), vec!["y", "x"]);
}

#[test]
fn tags_are_sorted_and_unique() {
    let posts = Posts::new(
        "posts",
        vec![
            source("1.md", "One", "2020-01-01", "\"rust\", \"web\", \"rust\"", ""),
            source("2.md", "Two", "2020-01-02", "\"art\", \"web\"", ""),
            source("3.md", "Three", "2020-01-03", "", ""),
        ],
    )
    .unwrap();
    assert_eq!(posts.tags(), &vec!["art".to_string(), "rust".to_string(), "web".to_string()]);
    assert_eq!(posts.posts()[2].tags, vec!["rust".to_string(), "web".to_string(), "rust".to_string()]);
}

#[test]
fn empty_directory_gives_empty_repository() {
    let posts = Posts::new("posts", vec![]).unwrap();
    assert!(posts.posts().is_empty());
    assert!(posts.tags().is_empty());
    assert_eq!(posts.root(), "posts");
}

#[test]
fn created_post_reads_back() {
    let mut posts = Posts::new("posts", vec![source("a.md", "A", "2020-01-01", "\"t\"", "")]).unwrap();
    let date = Date { year: 2024, month: 2, day: 29 };
    let created = posts.create_post_on(date).unwrap();
    assert_eq!(created.post.name, "1");
    assert_eq!(created.file_name, "1.md");
    assert_eq!(created.post.title, "");
    assert!(created.post.tags.is_empty());
    assert_eq!(created.post.top, None);
    assert!(created.text.starts_with("---\n"));
    assert!(created.text.ends_with("---\n\n<!-- top -->"));
    let back = Post::parse(&created.file_name, &created.text).unwrap();
    assert_eq!(back.name, "1");
    assert_eq!(back.title, "");
    assert_eq!(back.date, date);
    assert!(back.tags.is_empty());
    assert_eq!(back.content, "<!-- top -->");
    assert_eq!(back.top, Some(0));
    assert_eq!(posts.posts().len(), 2);
    assert_eq!(posts.tags(), &vec!["t".to_string()]);
}

#[test]
fn create_post_uses_today() {
    let mut posts = Posts::new("posts", vec![]).unwrap();
    let created = posts.create_post().unwrap();
    assert_eq!(created.post.name, "0");
    assert!(created.post.date.year >= 2020);
    let back = Post::parse(&created.file_name, &created.text).unwrap();
    assert_eq!(back.date, created.post.date);
}

#[test]
fn set_content_replaces_one_body() {
    let mut posts = Posts::new("posts", vec![source("a.md", "A", "2020-01-01", "", "md")]).unwrap();
    posts.set_content(0, "<p>md</p>".to_string());
    assert_eq!(posts.posts()[0].content, "<p>md</p>");
}

#[test]
fn stems_drop_the_last_extension() {
    assert_eq!(file_stem("post.md"), "post");
    assert_eq!(file_stem("a.b.md"), "a.b");
    assert_eq!(file_stem(".hidden"), ".hidden");
    assert_eq!(file_stem("plain"), "plain");
}

#[test]
fn decimal_names() {
    assert_eq!(decimal_string(0), "0");
    assert_eq!(decimal_string(7), "7");
    assert_eq!(decimal_string(120), "120");
}

#[test]
fn dates_are_checked() {
    assert!(Date::from_ymd(2024, 2, 29).is_some());
    assert!(Date::from_ymd(2023, 2, 29).is_none());
    assert!(Date::from_ymd(2023, 13, 1).is_none());
    let d = Date::from_ymd(2001, 9, 9).unwrap();
    assert_eq!(d.rfc2822(), "Sun, 9 Sep 2001 00:00:00 +0000");
}

#[test]
fn header_date_must_exist() {
    let text = "---\ntitle = \"x\"\ndate = 2023-02-29\ntags = []\n---\n\nbody";
    let r = Post::parse("t.md", text);
    assert!(r.is_err());
}

#[test]
fn created_post_reloads_in_a_repository() {
    let mut posts = Posts::new("posts", vec![]).unwrap();
    let date = Date { year: 2022, month: 7, day: 1 };
    let created = posts.create_post_on(date).unwrap();
    let again = Posts::new(
        "posts",
        vec![PostSource { path: created.file_name.clone(), contents: created.text.clone() }],
    )
    .unwrap();
    let q = &again.posts()[0];
    assert_eq!(q.name, "0");
    assert_eq!(q.title, "");
    assert_eq!(q.date, date);
    assert!(q.tags.is_empty());
    assert_eq!(q.content, "<!-- top -->");
    assert_eq!(q.top, Some(0));
}

#[test]
fn year_out_of_range_is_refused() {
    let mut posts = Posts::new("posts", vec![]).unwrap();
    let r = posts.create_post_on(Date { year: 10000, month: 1, day: 1 });
    assert!(matches!(r, Err(Error::DateOutOfRange)));
    assert!(posts.posts().is_empty());
}

#[test]
fn first_failing_file_is_named() {
    let good = source("1.md", "One", "2020-01-01", "", "x");
    let bad1 = PostSource { path: "2.md".to_string(), contents: "---
date = 2020-01-01
tags = []
---

x".to_string() };
    let bad2 = PostSource { path: "3.md".to_string(), contents: "nothing".to_string() };
    match Posts::new("posts", vec![good, bad1, bad2]) {
        Err(Error::HeaderField(p, f)) => {
            assert_eq!(p, "2.md");
            assert_eq!(f, "title");
        }
        _ => panic!("expected the second file's error"),
    }
}
