//! Posts: the on-disk format of one post and the repository of all of them.
use vstd::prelude::*;
use vstd::utf8::*;
use vstd::string::StringSliceAdditionalSpecFns;
use crate::date::{valid_ymd, Date};
use crate::error::Error;
use crate::header::{item_text, toml_table, value_item, TomlItem, parse_table, table_get, value_as_array, value_as_date, value_as_string};
use crate::text::{find_bytes, find_from, lemma_find_from_first};
use toml::de::Error as TomlFailure;

verus! {

broadcast use encode_utf8_valid_utf8, is_char_boundary_iff_not_is_continuation_byte;

/// The delimiter that opens and closes a post's header: `---`.
pub open spec fn delimiter() -> Seq<u8> {
    seq![45u8, 45u8, 45u8]
}

/// The marker that ends the summary part of a post body: `<!-- top -->`.
pub open spec fn top_marker() -> Seq<u8> {
    seq![60u8, 33u8, 45u8, 45u8, 32u8, 116u8, 111u8, 112u8, 32u8, 45u8, 45u8, 62u8]
}

/// Where the header of a post file starts: after `---` and a line break.
pub open spec fn header_start() -> int {
    4
}

/// Where the closing delimiter of a post file starts.
pub open spec fn header_end(b: Seq<u8>) -> Option<int> {
    find_from(b, delimiter(), header_start())
}

/// Where the body starts: past the closing delimiter and a blank line,
/// or at the end of a file that stops sooner.
pub open spec fn body_start(b: Seq<u8>, end: int) -> int {
    if end + 5 <= b.len() { end + 5 } else { b.len() as int }
}

/// The file has a closing delimiter, and the header and body lie on
/// character boundaries.
pub open spec fn is_framed(b: Seq<u8>) -> bool {
    &&& header_end(b) is Some
    &&& is_char_boundary(b, header_start())
    &&& is_char_boundary(b, body_start(b, header_end(b)->0))
}

/// The bytes of a post file's body.
pub open spec fn body_of(b: Seq<u8>) -> Seq<u8> {
    b.subrange(body_start(b, header_end(b)->0), b.len() as int)
}

/// The bytes of a post file's header.
pub open spec fn header_of(b: Seq<u8>) -> Seq<u8> {
    b.subrange(header_start(), header_end(b)->0)
}

/// The byte offset of the summary marker in a body.
pub open spec fn top_of(body: Seq<u8>) -> Option<usize> {
    match find_from(body, top_marker(), 0) {
        Some(k) => Some(k as usize),
        None => None,
    }
}

/// Index of the last `.` of a file name, if any.
pub open spec fn last_dot(b: Seq<u8>, n: int) -> Option<int>
    decreases n,
{
    if n <= 0 {
        None
    } else if b[n - 1] == 46u8 {
        Some(n - 1)
    } else {
        last_dot(b, n - 1)
    }
}

/// The stem of a file name: the name without its last extension. A name
/// whose only dot is its first character keeps it.
pub open spec fn stem_of(b: Seq<u8>) -> Seq<u8> {
    match last_dot(b, b.len() as int) {
        Some(k) if k > 0 => b.subrange(0, k),
        _ => b,
    }
}

/// One published article.
pub struct Post {
    /// Stable identifier; also the stem of the output file.
    pub name: String,
    pub title: String,
    pub date: Date,
    /// Tags in the header's order, repeats included.
    pub tags: Vec<String>,
    /// The body: Markdown as read, HTML once rendered.
    pub content: String,
    /// Byte offset of the summary marker in the body.
    pub top: Option<usize>,
}

/// A post as plain values.
pub struct PostView {
    pub name: Seq<char>,
    pub title: Seq<char>,
    pub date: Date,
    pub tags: Seq<Seq<char>>,
    pub content: Seq<char>,
    pub top: Option<usize>,
}

impl View for Post {
    type V = PostView;

    open spec fn view(&self) -> PostView {
        PostView {
            name: self.name@,
            title: self.title@,
            date: self.date,
            tags: self.tags@.map_values(|t: String| t@),
            content: self.content@,
            top: self.top,
        }
    }
}

/// The path that an error about a post file names, if it names one.
pub open spec fn error_path(e: Error) -> Option<Seq<char>> {
    match e {
        Error::MissingDelimiter(p) => Some(p@),
        Error::ReadPostHeader(p, _) => Some(p@),
        Error::HeaderField(p, _) => Some(p@),
        Error::BadDate(p) => Some(p@),
        _ => None,
    }
}

/// An ASCII byte of valid UTF-8 starts a character.
pub proof fn lemma_ascii_boundary(b: Seq<u8>, i: int)
    requires
        valid_utf8(b),
        0 <= i < b.len(),
        b[i] < 128,
    ensures
        is_char_boundary(b, i),
{
    is_char_boundary_iff_not_is_continuation_byte(b, i);
    assert(!is_continuation_byte(b[i]));
}

/// A post header's fields as the TOML reader found them: `None` where a
/// key is missing or holds a value of another type.
pub struct RawHeader {
    pub title: Option<String>,
    /// `Some(None)`: a datetime without a calendar part.
    pub date: Option<Option<(u16, u8, u8)>>,
    /// `Some` of each item, `None` for an item that is not a string.
    pub tags: Option<Vec<Option<String>>>,
}

/// A post header's fields as plain values.
pub struct RawHeaderView {
    pub title: Option<Seq<char>>,
    pub date: Option<Option<(u16, u8, u8)>>,
    pub tags: Option<Seq<Option<Seq<char>>>>,
}

impl View for RawHeader {
    type V = RawHeaderView;

    open spec fn view(&self) -> RawHeaderView {
        RawHeaderView {
            title: match self.title {
                Some(t) => Some(t@),
                None => None,
            },
            date: self.date,
            tags: match self.tags {
                Some(v) => Some(v@.map_values(|o: Option<String>| match o {
                    Some(t) => Some(t@),
                    None => None,
                })),
                None => None,
            },
        }
    }
}

/// The header fields found in a TOML table.
pub open spec fn header_view(m: Map<Seq<char>, TomlItem>) -> RawHeaderView {
    RawHeaderView {
        title: if m.contains_key("title"@) && m["title"@] is Str {
            Some(m["title"@]->Str_0)
        } else {
            None
        },
        date: if m.contains_key("date"@) && m["date"@] is Date {
            Some(m["date"@]->Date_0)
        } else {
            None
        },
        tags: if m.contains_key("tags"@) && m["tags"@] is Array {
            Some(m["tags"@]->Array_0)
        } else {
            None
        },
    }
}

/// All items of a tag list are strings.
pub open spec fn all_strings(tags: Seq<Option<Seq<char>>>) -> bool {
    forall|i: int| 0 <= i < tags.len() ==> tags[i] is Some
}

/// The outcome of building a post from a header read from file `path`:
/// the first of `title`, `date`, `tags` that is absent or mistyped fails,
/// then a date that names no day.
pub open spec fn header_fault(path: Seq<char>, h: RawHeaderView) -> Option<HeaderFault> {
    if h.title is None {
        Some(HeaderFault::Field(seq!['t', 'i', 't', 'l', 'e']))
    } else if h.date is None {
        Some(HeaderFault::Field(seq!['d', 'a', 't', 'e']))
    } else if h.tags is None || !all_strings(h.tags->0) {
        Some(HeaderFault::Field(seq!['t', 'a', 'g', 's']))
    } else if h.date->0 is None {
        Some(HeaderFault::Date)
    } else {
        let (y, m, d) = h.date->0->0;
        if valid_ymd(y as int, m as int, d as int) { None } else { Some(HeaderFault::Date) }
    }
}

/// The calendar fields of a header's date.
pub open spec fn header_ymd(h: RawHeaderView) -> (int, int, int) {
    let (y, m, d) = h.date->0->0;
    (y as int, m as int, d as int)
}

/// The header fields that the TOML reader finds in a post file.
pub open spec fn header_read(b: Seq<u8>) -> Option<RawHeaderView> {
    match toml_table(decode_utf8(header_of(b))) {
        Some(m) => Some(header_view(m)),
        None => None,
    }
}

/// The post file at `path` reads as a post.
pub open spec fn post_reads(path: Seq<char>, contents: Seq<char>) -> bool {
    let b = encode_utf8(contents);
    &&& is_framed(b)
    &&& header_read(b) is Some
    &&& header_fault(path, header_read(b)->0) is None
}

/// The post that a file reads as, where it reads.
pub open spec fn post_view_of(path: Seq<char>, contents: Seq<char>) -> PostView {
    let b = encode_utf8(contents);
    let h = header_read(b)->0;
    let (y, m, d) = header_ymd(h);
    PostView {
        name: decode_utf8(stem_of(encode_utf8(path))),
        title: h.title->0,
        date: Date { year: y as i32, month: m as u32, day: d as u32 },
        tags: h.tags->0.map_values(|o: Option<Seq<char>>| o->0),
        content: decode_utf8(body_of(b)),
        top: top_of(body_of(b)),
    }
}

/// What is wrong with a header.
pub enum HeaderFault {
    Field(Seq<char>),
    Date,
}

/// The stem of a file name.
pub fn file_stem(name: &str) -> (r: String)
    ensures
        encode_utf8(r@) == stem_of(encode_utf8(name@)),
{
    let b = name.as_bytes();
    let mut n = b.len();
    while n > 0 && b[n - 1] != 46u8
        invariant
            n <= b@.len(),
            last_dot(b@, b@.len() as int) == last_dot(b@, n as int),
        decreases n,
    {
        n = n - 1;
    }
    if n > 1 {
        proof {
            lemma_ascii_boundary(b@, n - 1);
        }
        let (stem, _) = name.split_at(n - 1);
        stem.to_owned()
    } else {
        name.to_owned()
    }
}

} // verus!

verus! {

impl Post {
    /// Parses the text of the post file at `path`: `---`, a line break, a
    /// TOML header, `---`, a blank line, then the Markdown body. The post is
    /// named after the file's stem.
    pub fn parse(path: &str, contents: &str) -> (r: Result<Post, Error>)
        ensures
            !is_framed(encode_utf8(contents@)) <==> (r matches Err(Error::MissingDelimiter(p))
                && p@ == path@),
            r matches Err(e) ==> error_path(e) == Some(path@),
            r is Ok <==> post_reads(path@, contents@),
            r matches Ok(p) ==> p@ == post_view_of(path@, contents@) && p.date.valid(),
            is_framed(encode_utf8(contents@)) && header_read(encode_utf8(contents@)) is None
                ==> match r {
                    Err(Error::ReadPostHeader(p, _)) => p@ == path@,
                    _ => false,
                },
            is_framed(encode_utf8(contents@)) && header_read(encode_utf8(contents@)) is Some
                ==> match header_fault(path@, header_read(encode_utf8(contents@))->0) {
                    Some(HeaderFault::Field(k)) => r matches Err(Error::HeaderField(p, f)) && f@ == k,
                    Some(HeaderFault::Date) => r matches Err(Error::BadDate(_)),
                    None => r is Ok,
                },
    {
        let ghost b = encode_utf8(contents@);
        let bytes = contents.as_bytes();
        let end = match find_bytes(bytes, delimiter_bytes().as_slice(), 4) {
            Some(e) => e,
            None => {
                return Err(Error::MissingDelimiter(path.to_owned()));
            },
        };
        proof {
            lemma_find_from_first(b, delimiter(), 4);
            assert(b.subrange(end as int, end + 3)[0] == b[end as int]);
        }
        let start = if bytes.len() - end >= 5 { end + 5 } else { bytes.len() };
        if !contents.is_char_boundary(4) || !contents.is_char_boundary(start) {
            return Err(Error::MissingDelimiter(path.to_owned()));
        }
        let (_, rest) = contents.split_at(4);
        proof {
            assert(rest.spec_bytes()[end - 4] == b[end as int]);
            lemma_ascii_boundary(rest.spec_bytes(), end - 4);
        }
        let (header, _) = rest.split_at(end - 4);
        let (_, body) = contents.split_at(start);
        proof {
            assert(header.spec_bytes() =~= header_of(b));
            assert(body.spec_bytes() =~= body_of(b));
            encode_utf8_decode_utf8(header@);
            encode_utf8_decode_utf8(body@);
        }
        let raw = match read_header(header) {
            Ok(h) => h,
            Err(e) => {
                return Err(Error::ReadPostHeader(path.to_owned(), e));
            },
        };
        let name = file_stem(path);
        proof {
            encode_utf8_decode_utf8(name@);
        }
        let r = Post::from_header(path, name, raw, body.to_owned());
        proof {
            if r is Ok {
                let p = r->Ok_0;
                assert(p@.tags =~= header_read(b)->0.tags->0.map_values(|o: Option<Seq<char>>| o->0));
                assert(p@ == post_view_of(path@, contents@));
            }
        }
        r
    }

    /// Builds the post named `name` from the header fields and body read
    /// from the file at `path`.
    pub fn from_header(path: &str, name: String, header: RawHeader, body: String) -> (r: Result<
        Post,
        Error,
    >)
        ensures
            header_fault(path@, header@) is None <==> r is Ok,
            r matches Ok(p) ==> {
                &&& p.name@ == name@
                &&& p.title@ == header@.title->0
                &&& p.date.year == header_ymd(header@).0
                &&& p.date.month == header_ymd(header@).1
                &&& p.date.day == header_ymd(header@).2
                &&& p.date.valid()
                &&& p.tags@.len() == header@.tags->0.len()
                &&& forall|i: int| 0 <= i < p.tags@.len() ==> p.tags@[i]@ == header@.tags->0[i]->0
                &&& p.content@ == body@
                &&& p.top == top_of(encode_utf8(body@))
            },
            r matches Err(e) ==> match header_fault(path@, header@) {
                Some(HeaderFault::Field(k)) => e matches Error::HeaderField(p, f) && p@ == path@
                    && f@ == k,
                Some(HeaderFault::Date) => e matches Error::BadDate(p) && p@ == path@,
                None => false,
            },
    {
        let ghost h = header;
        let RawHeader { title, date, tags } = header;
        let title = match title {
            Some(t) => t,
            None => {
                return Err(Error::HeaderField(path.to_owned(), field_name(0)));
            },
        };
        let date = match date {
            Some(d) => d,
            None => {
                return Err(Error::HeaderField(path.to_owned(), field_name(1)));
            },
        };
        let raw_tags = match tags {
            Some(t) => t,
            None => {
                return Err(Error::HeaderField(path.to_owned(), field_name(2)));
            },
        };
        let mut tags: Vec<String> = Vec::new();
        let mut i: usize = 0;
        while i < raw_tags.len()
            invariant
                i <= raw_tags@.len(),
                tags@.len() == i,
                h == header,
                h.tags == Some(raw_tags),
                h.title is Some,
                h.date is Some,
                forall|j: int| 0 <= j < i ==> raw_tags@[j] is Some && tags@[j]@ == raw_tags@[j]->0@,
            decreases raw_tags@.len() - i,
        {
            match &raw_tags[i] {
                Some(t) => {
                    tags.push(t.clone());
                },
                None => {
                    assert(h@.tags->0[i as int] is None);
                    assert(!all_strings(h@.tags->0));
                    return Err(Error::HeaderField(path.to_owned(), field_name(2)));
                },
            }
            i = i + 1;
        }
        let (y, m, d) = match date {
            Some(ymd) => ymd,
            None => {
                return Err(Error::BadDate(path.to_owned()));
            },
        };
        let date = match Date::from_ymd(y as i32, m as u32, d as u32) {
            Some(x) => x,
            None => {
                return Err(Error::BadDate(path.to_owned()));
            },
        };
        let top = find_bytes(body.as_str().as_bytes(), top_marker_bytes().as_slice(), 0);
        Ok(Post { name, title, date, tags, content: body, top })
    }
}

/// Reads the fields of a TOML header; fails where the text is not TOML.
fn read_header(text: &str) -> (r: Result<RawHeader, TomlFailure>)
    ensures
        r is Ok <==> toml_table(text@) is Some,
        r matches Ok(h) ==> h@ == header_view(toml_table(text@)->0),
{
    let table = match parse_table(text) {
        Ok(t) => t,
        Err(e) => {
            return Err(e);
        },
    };
    let title = match table_get(&table, "title") {
        Some(v) => value_as_string(v),
        None => None,
    };
    let date = match table_get(&table, "date") {
        Some(v) => value_as_date(v),
        None => None,
    };
    let tags = match table_get(&table, "tags") {
        Some(v) => match value_as_array(v) {
            Some(items) => {
                let ghost want = items@.map_values(|x: toml::Value| item_text(value_item(x)));
                let mut out: Vec<Option<String>> = Vec::new();
                let mut i: usize = 0;
                while i < items.len()
                    invariant
                        i <= items@.len(),
                        want == items@.map_values(|x: toml::Value| item_text(value_item(x))),
                        out@.len() == i,
                        forall|k: int| 0 <= k < i ==> (match #[trigger] out@[k] {
                            Some(t) => Some(t@),
                            None => None,
                        }) == want[k],
                    decreases items@.len() - i,
                {
                    out.push(value_as_string(&items[i]));
                    i = i + 1;
                }
                let ghost ov = out@.map_values(|o: Option<String>| match o {
                    Some(t) => Some(t@),
                    None => None,
                });
                assert(ov =~= want);
                Some(out)
            },
            None => None,
        },
        None => None,
    };
    let h = RawHeader { title, date, tags };
    proof {
        let m = toml_table(text@)->0;
        assert(h@.title == header_view(m).title);
        assert(h@.date == header_view(m).date);
        assert(h@.tags == header_view(m).tags);
    }
    Ok(h)
}

/// The header keys, by position: `title`, `date`, `tags`.
pub(crate) fn field_name(k: u8) -> (r: String)
    requires
        k < 3,
    ensures
        k == 0 ==> r@ == seq!['t', 'i', 't', 'l', 'e'],
        k == 1 ==> r@ == seq!['d', 'a', 't', 'e'],
        k == 2 ==> r@ == seq!['t', 'a', 'g', 's'],
{
    if k == 0 {
        let s = "title";
        proof {
            reveal_strlit("title");
        }
        s.to_owned()
    } else if k == 1 {
        let s = "date";
        proof {
            reveal_strlit("date");
        }
        s.to_owned()
    } else {
        let s = "tags";
        proof {
            reveal_strlit("tags");
        }
        s.to_owned()
    }
}

fn top_marker_bytes() -> (r: Vec<u8>)
    ensures
        r@ == top_marker(),
{
    let r: Vec<u8> = vec![60, 33, 45, 45, 32, 116, 111, 112, 32, 45, 45, 62];
    assert(r@ =~= top_marker());
    r
}

fn delimiter_bytes() -> (r: Vec<u8>)
    ensures
        r@ == delimiter(),
{
    let r: Vec<u8> = vec![45, 45, 45];
    assert(r@ =~= delimiter());
    r
}

} // verus!
