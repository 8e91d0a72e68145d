//! What a build produces, decided from the content names and the posts;
//! the data handed to the page templates; the command line.
use vstd::prelude::*;
use vstd::string::StringExecFns;
use crate::date::Date;
use crate::error::Error;
use crate::post::Post;
use crate::repo::{all_read, blank_header, blank_post, decimal, lemma_sort_desc_sorted, new_post_text, posts_read, tag_views, NewPost, PostSource, Posts};
use crate::post::{error_path, post_reads};

verus! {

/// The site's configuration.
pub struct Config {
    /// Base URL, without a trailing `/`.
    pub url: String,
    pub title: String,
    /// Directory of the loose content pages.
    pub content: String,
    /// Directory of the post files.
    pub posts: String,
    /// Directory that a build fills.
    pub build_root: String,
    /// Where posts go, relative to the build root and the site.
    pub posts_root: String,
    /// File of a highlighting theme, in place of the default one.
    pub syntax_theme: Option<String>,
    pub posts_src_scripts: Option<Vec<String>>,
    pub posts_embed_scripts: Option<String>,
    pub posts_noscript: Option<String>,
}

/// A URL without its trailing slashes.
pub open spec fn trim_slashes(s: Seq<char>) -> Seq<char>
    decreases s.len(),
{
    if s.len() > 0 && s.last() == '/' {
        trim_slashes(s.drop_last())
    } else {
        s
    }
}

/// Relies on `str::trim_end_matches` with a `char` pattern: the text with
/// every trailing `/` removed.
#[verifier::external_body]
fn trim_end_slashes(s: &str) -> (r: &str)
    ensures
        r@ == trim_slashes(s@),
{
    s.trim_end_matches('/')
}

impl Config {
    /// The configuration with its URL's trailing slashes removed, as it is
    /// read.
    pub fn normalized(self) -> (r: Config)
        ensures
            r.url@ == trim_slashes(self.url@),
            r.title == self.title,
            r.content == self.content,
            r.posts == self.posts,
            r.build_root == self.build_root,
            r.posts_root == self.posts_root,
            r.syntax_theme == self.syntax_theme,
            r.posts_src_scripts == self.posts_src_scripts,
            r.posts_embed_scripts == self.posts_embed_scripts,
            r.posts_noscript == self.posts_noscript,
    {
        let url = trim_end_slashes(self.url.as_str()).to_owned();
        Config { url, ..self }
    }
}

/// The index page.
pub struct IndexTemplate {
    pub title: String,
    pub posts_root: String,
    /// HTML of the index content.
    pub content: String,
}

/// The tag index page.
pub struct TagsTemplate {
    pub title: String,
    pub posts_root: String,
    pub tags: Vec<String>,
}

/// The not-found page.
pub struct NotFoundTemplate {
    pub title: String,
    /// HTML of the message.
    pub message: String,
}

/// A loose content page.
pub struct ContentTemplate {
    pub title: String,
    /// The page's name, shown after the title.
    pub name: String,
    /// HTML of the page.
    pub content: String,
}

/// A script element.
pub enum Script {
    /// A script embedded in the page.
    Embed { contents: String },
    /// A script loaded, asynchronously, from a source.
    Src { src: String },
}

pub enum ScriptView {
    Embed(Seq<char>),
    Src(Seq<char>),
}

impl View for Script {
    type V = ScriptView;

    open spec fn view(&self) -> ScriptView {
        match self {
            Script::Embed { contents } => ScriptView::Embed(contents@),
            Script::Src { src } => ScriptView::Src(src@),
        }
    }
}

/// Script elements for post pages, with an optional noscript element.
pub struct ScriptsTemplate {
    pub scripts: Vec<Script>,
    pub noscript: Option<String>,
}

/// The scripts of post pages: the embedded ones first, in the order
/// given, then those loaded from sources.
pub fn post_scripts(embedded: &Vec<String>, sources: &Option<Vec<String>>, noscript: &Option<String>) -> (r: ScriptsTemplate)
    ensures
        r.scripts@.len() == embedded@.len() + match sources {
            Some(v) => v@.len(),
            None => 0,
        },
        forall|i: int| 0 <= i < embedded@.len() ==> (#[trigger] r.scripts@[i])@ == ScriptView::Embed(embedded@[i]@),
        sources matches Some(v) ==> forall|i: int| 0 <= i < v@.len() ==> (#[trigger] r.scripts@[embedded@.len() + i])@ == ScriptView::Src(v@[i]@),
        r.noscript == *noscript,
{
    let mut scripts: Vec<Script> = Vec::new();
    let mut i: usize = 0;
    while i < embedded.len()
        invariant
            i <= embedded@.len(),
            scripts@.len() == i,
            forall|k: int| 0 <= k < i ==> (#[trigger] scripts@[k])@ == ScriptView::Embed(embedded@[k]@),
        decreases embedded@.len() - i,
    {
        scripts.push(Script::Embed { contents: embedded[i].clone() });
        i = i + 1;
    }
    match sources {
        Some(v) => {
            let mut j: usize = 0;
            while j < v.len()
                invariant
                    j <= v@.len(),
                    scripts@.len() == embedded@.len() + j,
                    forall|k: int| 0 <= k < embedded@.len() ==> (#[trigger] scripts@[k])@ == ScriptView::Embed(embedded@[k]@),
                    forall|k: int| 0 <= k < j ==> (#[trigger] scripts@[embedded@.len() + k])@ == ScriptView::Src(v@[k]@),
                decreases v@.len() - j,
            {
                scripts.push(Script::Src { src: v[j].clone() });
                j = j + 1;
            }
        },
        None => {},
    }
    ScriptsTemplate { scripts, noscript: noscript.clone() }
}

// ---------------------------------------------------------------------
// What a build produces.

/// Content names with a page of their own: `index`, `posts`, `404`.
pub open spec fn is_reserved_name(name: Seq<char>) -> bool {
    name == "index"@ || name == "posts"@ || name == "404"@
}

/// The content stem has a page of its own rather than a loose page.
pub fn is_reserved(name: &String) -> (r: bool)
    ensures
        r == is_reserved_name(name@),
{
    let index = String::from_str("index");
    let posts = String::from_str("posts");
    let missing = String::from_str("404");
    *name == index || *name == posts || *name == missing
}

/// One output of a build.
pub enum Artifact {
    Index,
    NotFound,
    /// The loose page of a content file, by stem.
    Content(String),
    PostsIndex,
    /// The page of a post, by position.
    Post(usize),
    Rss,
    TagsIndex,
    /// The page of a tag.
    Tag(String),
}

pub enum ArtifactView {
    Index,
    NotFound,
    Content(Seq<char>),
    PostsIndex,
    Post(usize),
    Rss,
    TagsIndex,
    Tag(Seq<char>),
}

impl View for Artifact {
    type V = ArtifactView;

    open spec fn view(&self) -> ArtifactView {
        match self {
            Artifact::Index => ArtifactView::Index,
            Artifact::NotFound => ArtifactView::NotFound,
            Artifact::Content(s) => ArtifactView::Content(s@),
            Artifact::PostsIndex => ArtifactView::PostsIndex,
            Artifact::Post(i) => ArtifactView::Post(*i),
            Artifact::Rss => ArtifactView::Rss,
            Artifact::TagsIndex => ArtifactView::TagsIndex,
            Artifact::Tag(s) => ArtifactView::Tag(s@),
        }
    }
}

pub open spec fn artifact_views(s: Seq<Artifact>) -> Seq<ArtifactView> {
    s.map_values(|a: Artifact| a@)
}

/// The loose pages of the first `n` content stems.
pub open spec fn content_pages(names: Seq<Seq<char>>, n: int) -> Seq<ArtifactView>
    decreases n,
{
    if n <= 0 {
        Seq::empty()
    } else if is_reserved_name(names[n - 1]) {
        content_pages(names, n - 1)
    } else {
        content_pages(names, n - 1).push(ArtifactView::Content(names[n - 1]))
    }
}

/// Everything a build writes, in order: the index and not-found pages, a
/// page per non-reserved content stem, the posts index, a page per post,
/// the RSS feed, the tag index, and a page per tag of the tag index.
pub open spec fn site_plan(names: Seq<Seq<char>>, n_posts: nat, tags: Seq<Seq<char>>) -> Seq<ArtifactView> {
    seq![ArtifactView::Index, ArtifactView::NotFound] + content_pages(names, names.len() as int)
        + seq![ArtifactView::PostsIndex] + Seq::new(n_posts, |i: int| ArtifactView::Post(i as usize))
        + seq![ArtifactView::Rss, ArtifactView::TagsIndex] + tags.map_values(|t: Seq<char>| ArtifactView::Tag(t))
}

/// The outputs of a build, given the stems of the content files.
pub fn plan_site(content_names: &Vec<String>, posts: &Posts) -> (r: Vec<Artifact>)
    ensures
        artifact_views(r@) == site_plan(tag_views(content_names@), posts@.posts.len(), posts@.tags),
{
    let ghost names = tag_views(content_names@);
    let mut out: Vec<Artifact> = Vec::new();
    out.push(Artifact::Index);
    out.push(Artifact::NotFound);
    let ghost head = artifact_views(out@);
    assert(head =~= seq![ArtifactView::Index, ArtifactView::NotFound]);
    let mut i: usize = 0;
    while i < content_names.len()
        invariant
            i <= content_names@.len(),
            names == tag_views(content_names@),
            head == seq![ArtifactView::Index, ArtifactView::NotFound],
            artifact_views(out@) == head + content_pages(names, i as int),
        decreases content_names@.len() - i,
    {
        let ghost prev = out@;
        assert(names[i as int] == content_names@[i as int]@);
        if !is_reserved(&content_names[i]) {
            out.push(Artifact::Content(content_names[i].clone()));
            assert(artifact_views(out@) =~= artifact_views(prev).push(ArtifactView::Content(names[i as int])));
        }
        assert(artifact_views(out@) =~= head + content_pages(names, i + 1));
        i = i + 1;
    }
    let ghost before_index = out@;
    out.push(Artifact::PostsIndex);
    assert(artifact_views(out@) =~= artifact_views(before_index).push(ArtifactView::PostsIndex));
    let ghost mid = artifact_views(out@);
    let n = posts.posts().len();
    let mut k: usize = 0;
    while k < n
        invariant
            k <= n,
            n == posts@.posts.len(),
            artifact_views(out@) == mid + Seq::new(k as nat, |j: int| ArtifactView::Post(j as usize)),
        decreases n - k,
    {
        let ghost prev = out@;
        out.push(Artifact::Post(k));
        assert(artifact_views(out@) =~= artifact_views(prev).push(ArtifactView::Post(k)));
        assert(artifact_views(out@) =~= mid + Seq::new((k + 1) as nat, |j: int| ArtifactView::Post(j as usize)));
        k = k + 1;
    }
    let ghost before_rss = out@;
    out.push(Artifact::Rss);
    out.push(Artifact::TagsIndex);
    assert(artifact_views(out@) =~= artifact_views(before_rss) + seq![ArtifactView::Rss, ArtifactView::TagsIndex]);
    assert(Seq::new(n as nat, |j: int| ArtifactView::Post(j as usize)) =~= Seq::new(posts@.posts.len(), |j: int| ArtifactView::Post(j as usize)));
    let ghost tail = artifact_views(out@);
    let tags = posts.tags();
    let mut t: usize = 0;
    while t < tags.len()
        invariant
            t <= tags@.len(),
            tag_views(tags@) == posts@.tags,
            artifact_views(out@) == tail + tag_views(tags@).take(t as int).map_values(|x: Seq<char>| ArtifactView::Tag(x)),
        decreases tags@.len() - t,
    {
        let ghost prev = out@;
        out.push(Artifact::Tag(tags[t].clone()));
        assert(artifact_views(out@) =~= artifact_views(prev).push(ArtifactView::Tag(tags@[t as int]@)));
        assert(tag_views(tags@).take(t + 1) =~= tag_views(tags@).take(t as int).push(tags@[t as int]@));
        assert(artifact_views(out@) =~= tail + tag_views(tags@).take(t + 1).map_values(|x: Seq<char>| ArtifactView::Tag(x)));
        t = t + 1;
    }
    assert(tag_views(tags@).take(t as int) =~= tag_views(tags@));
    assert(artifact_views(out@) =~= site_plan(names, posts@.posts.len(), posts@.tags));
    out
}

/// The positions of the posts that carry `tag`: the posts of its tag page.
pub fn posts_with_tag(posts: &Vec<Post>, tag: &String) -> (r: Vec<usize>)
    ensures
        forall|k: int| 0 <= k < r@.len() ==> (#[trigger] r@[k]) < posts@.len(),
        forall|k: int, m: int| 0 <= k < m < r@.len() ==> #[trigger] r@[k] < #[trigger] r@[m],
        forall|i: int| 0 <= i < posts@.len() ==> (r@.contains(i as usize) <==> (#[trigger] posts@[i])@.tags.contains(tag@)),
{
    let mut out: Vec<usize> = Vec::new();
    let mut i: usize = 0;
    while i < posts.len()
        invariant
            i <= posts@.len(),
            forall|k: int| 0 <= k < out@.len() ==> (#[trigger] out@[k]) < i,
            forall|k: int, m: int| 0 <= k < m < out@.len() ==> #[trigger] out@[k] < #[trigger] out@[m],
            forall|j: int| 0 <= j < i ==> (out@.contains(j as usize) <==> (#[trigger] posts@[j])@.tags.contains(tag@)),
        decreases posts@.len() - i,
    {
        let ghost prev = out@;
        if posts[i].has_tag(tag) {
            out.push(i);
        }
        assert forall|j: int| 0 <= j < i + 1 implies (out@.contains(j as usize) <==> (#[trigger] posts@[j])@.tags.contains(tag@)) by {
            if out@.contains(j as usize) && j < i {
                let k = choose|k: int| 0 <= k < out@.len() && out@[k] == j as usize;
                if k < prev.len() {
                    assert(prev[k] == j as usize);
                }
            }
            if prev.contains(j as usize) {
                let k = choose|k: int| 0 <= k < prev.len() && prev[k] == j as usize;
                assert(out@[k] == j as usize);
            }
            if j == i && out@.len() > prev.len() {
                assert(out@[prev.len() as int] == i);
            }
            if j == i && out@.contains(i) {
                let k = choose|k: int| 0 <= k < out@.len() && out@[k] == i;
                if k < prev.len() {
                    assert(prev[k] < i);
                }
            }
        }
        i = i + 1;
    }
    out
}

impl Post {
    /// The post carries `tag`.
    pub fn has_tag(&self, tag: &String) -> (r: bool)
        ensures
            r == self@.tags.contains(tag@),
    {
        let mut i: usize = 0;
        while i < self.tags.len()
            invariant
                i <= self.tags@.len(),
                forall|k: int| 0 <= k < i ==> self.tags@[k]@ != tag@,
            decreases self.tags@.len() - i,
        {
            if self.tags[i] == *tag {
                assert(self@.tags[i as int] == tag@);
                return true;
            }
            i = i + 1;
        }
        assert(!self@.tags.contains(tag@)) by {
            if self@.tags.contains(tag@) {
                let k = choose|k: int| 0 <= k < self@.tags.len() && self@.tags[k] == tag@;
                assert(self.tags@[k]@ == tag@);
            }
        }
        false
    }

    /// The post's date as an RSS timestamp: midnight UTC, RFC 2822.
    pub fn rss_date(&self) -> (r: String)
        requires
            self.date.valid(),
            0 <= self.date.year <= 9999,
        ensures
            r@ == crate::date::rfc2822_midnight(self.date.year as int, self.date.month as int, self.date.day as int),
    {
        self.date.rfc2822()
    }
}

// ---------------------------------------------------------------------
// The command line.

/// The command a run was given.
pub enum Args {
    Build,
    Post,
    /// No command.
    Missing,
    /// A command that is not known.
    Unknown(String),
}

/// Reads the command from the arguments (the program's name first):
/// `b` or `build`, `p` or `post`.
pub fn handle_args(args: &Vec<String>) -> (r: Args)
    ensures
        args@.len() < 2 ==> r is Missing,
        args@.len() >= 2 ==> {
            let a = args@[1]@;
            if a == "b"@ || a == "build"@ {
                r is Build
            } else if a == "p"@ || a == "post"@ {
                r is Post
            } else {
                r matches Args::Unknown(s) && s@ == a
            }
        },
{
    if args.len() < 2 {
        return Args::Missing;
    }
    let a = &args[1];
    if *a == String::from_str("b") || *a == String::from_str("build") {
        Args::Build
    } else if *a == String::from_str("p") || *a == String::from_str("post") {
        Args::Post
    } else {
        Args::Unknown(a.clone())
    }
}

/// The `post` command: reads the posts directory's files and adds a blank
/// post dated today. Returns the file to write into that directory, or
/// the error of the first file that does not read.
pub fn new_post(config: &Config, sources: Vec<PostSource>) -> (r: Result<NewPost, Error>)
    ensures
        !all_read(sources@) ==> r is Err,
        r matches Err(e) ==> if all_read(sources@) {
            e is NoClock || e is DateOutOfRange || e is TooManyPosts
        } else {
            exists|i: int| {
                &&& 0 <= i < sources@.len()
                &&& all_read(sources@.take(i))
                &&& !post_reads(sources@[i].path@, sources@[i].contents@)
                &&& error_path(e) == Some(#[trigger] sources@[i].path@)
            }
        },
        r matches Ok(n) ==> {
            &&& n.post.date.valid()
            &&& 0 <= n.post.date.year <= 9999
            &&& n.post@ == blank_post(decimal(sources@.len() as nat), n.post.date)
            &&& n.file_name@ == decimal(sources@.len() as nat) + seq!['.', 'm', 'd']
            &&& n.text@ == new_post_text(blank_header(n.post.date))
        },
{
    let ghost src = sources@;
    let mut posts = match Posts::new(config.posts.as_str(), sources) {
        Ok(p) => p,
        Err(e) => {
            return Err(e);
        },
    };
    proof {
        lemma_sort_desc_sorted(posts_read(src));
    }
    if posts.posts().len() == usize::MAX {
        return Err(Error::TooManyPosts);
    }
    posts.create_post()
}

} // verus!
