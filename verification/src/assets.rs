//! The web pages that the HTTP frontend serves.
use vstd::prelude::*;

use crate::gzip::{gunzipped, gzip_best, gzipped, BEST_LEVEL};
use crate::text::{
    contains, join3, lowered, occurs_in, opt_view, own, replace, replaced,
    replacing_from_the_front, starts_with_spec, str_eq, to_lower,
};

verus! {

/// The tag of a build: its version and date.
pub fn build_version_tag(version: &str, build_date: &str) -> (res: String)
    ensures
        res@ == version@ + "-"@ + build_date@,
{
    join3(version, "-", build_date)
}

/// A page with its placeholders filled in: the package, then the version, then the date.
pub open spec fn filled_page(
    template: Seq<char>,
    package: Seq<char>,
    version: Seq<char>,
    build_date: Seq<char>,
) -> Seq<char> {
    replaced(
        replaced(replaced(template, "{pkg}"@, package), "{ver}"@, version),
        "{client_build_date}"@,
        build_date,
    )
}

/// The index page.
pub fn index_html(template: &str, package: &str, version: &str, build_date: &str) -> (res: String)
    ensures
        res@ == filled_page(template@, package@, version@, build_date@),
{
    proof {
        reveal_strlit("{pkg}");
        reveal_strlit("{ver}");
        reveal_strlit("{client_build_date}");
    }
    let a = replace(template, "{pkg}", package);
    let b = replace(a.as_str(), "{ver}", version);
    replace(b.as_str(), "{client_build_date}", build_date)
}

/// A compressed page and the tag by which a browser knows it again.
#[derive(Debug)]
pub struct GzCacheEntry {
    pub gz: Vec<u8>,
    pub etag: String,
}

/// The tag of a page: that of the build, and its name.
pub open spec fn etag_of(version_tag: Seq<char>, name: Seq<char>) -> Seq<char> {
    "\""@ + version_tag + ":"@ + name + "\""@
}

/// Compresses a page. The page can be read back from what comes out.
pub fn gz_cache_entry(src: &[u8], version_tag: &str, name: &str) -> (res: Option<GzCacheEntry>)
    ensures
        match res {
            Some(entry) => {
                &&& gzipped(src@, BEST_LEVEL) == Some(entry.gz@)
                &&& gunzipped(entry.gz@) == Some(src@)
                &&& entry.etag@ == etag_of(version_tag@, name@)
            },
            None => gzipped(src@, BEST_LEVEL) is None,
        },
{
    match gzip_best(src) {
        Some(gz) => {
            let head = join3("\"", version_tag, ":");
            let etag = join3(head.as_str(), name, "\"");
            Some(GzCacheEntry { gz, etag })
        },
        None => None,
    }
}

/// Pages with different names have different tags, in one build.
pub proof fn etags_tell_pages_apart(version_tag: Seq<char>, a: Seq<char>, b: Seq<char>)
    requires
        etag_of(version_tag, a) == etag_of(version_tag, b),
    ensures
        a == b,
{
    reveal_strlit("\"");
    let head = "\""@ + version_tag + ":"@;
    let x = etag_of(version_tag, a);
    let y = etag_of(version_tag, b);
    assert(x =~= head + a + "\""@);
    assert(y =~= head + b + "\""@);
    assert(a.len() == b.len());
    assert(a =~= x.subrange(head.len() as int, (head.len() + a.len()) as int));
    assert(b =~= y.subrange(head.len() as int, (head.len() + b.len()) as int));
}

/// Whether a browser has the page already: it says so by its tag, or by a star.
pub open spec fn has_page(if_none_match: Option<Seq<char>>, etag: Seq<char>) -> bool {
    match if_none_match {
        Some(v) => v == etag || v == "*"@,
        None => false,
    }
}

/// An answer without its body.
#[derive(Debug)]
pub struct ReplyHead {
    pub status: u16,
    pub headers: Vec<(&'static str, String)>,
    /// Whether the body follows.
    pub with_body: bool,
}

/// What the headers of an answer say.
pub open spec fn header_views(headers: Seq<(&'static str, String)>) -> Seq<(Seq<char>, Seq<char>)> {
    headers.map_values(|h: (&'static str, String)| (h.0@, h.1@))
}

/// How long a browser may keep a page.
pub open spec fn page_cache_control() -> Seq<char> {
    "public, max-age=86400, must-revalidate"@
}

/// The answer to a request for a compressed page: that nothing has changed, where the browser has
/// it, and otherwise the page.
pub fn static_asset_response(content_type: &str, if_none_match: &Option<String>, etag: &str) -> (res:
    ReplyHead)
    ensures
        if has_page(opt_view(*if_none_match), etag@) {
            &&& res.status == 304
            &&& !res.with_body
            &&& header_views(res.headers@) == seq![
                ("etag"@, etag@),
                ("cache-control"@, page_cache_control()),
            ]
        } else {
            &&& res.status == 200
            &&& res.with_body
            &&& header_views(res.headers@) == seq![
                ("content-type"@, content_type@),
                ("content-encoding"@, "gzip"@),
                ("etag"@, etag@),
                ("cache-control"@, page_cache_control()),
            ]
        },
{
    let mut headers: Vec<(&'static str, String)> = Vec::new();
    let known = match if_none_match {
        Some(v) => str_eq(v.as_str(), etag) || str_eq(v.as_str(), "*"),
        None => false,
    };
    if known {
        headers.push(("etag", own(etag)));
        headers.push(("cache-control", own("public, max-age=86400, must-revalidate")));
        assert(header_views(headers@) =~= seq![
            ("etag"@, etag@),
            ("cache-control"@, page_cache_control()),
        ]);
        return ReplyHead { status: 304, headers, with_body: false };
    }
    headers.push(("content-type", own(content_type)));
    headers.push(("content-encoding", own("gzip")));
    headers.push(("etag", own(etag)));
    headers.push(("cache-control", own("public, max-age=86400, must-revalidate")));
    assert(header_views(headers@) =~= seq![
        ("content-type"@, content_type@),
        ("content-encoding"@, "gzip"@),
        ("etag"@, etag@),
        ("cache-control"@, page_cache_control()),
    ]);
    ReplyHead { status: 200, headers, with_body: true }
}

/// The answer with something that a browser must not keep.
pub fn no_cache_response(content_type: &str) -> (res: ReplyHead)
    ensures
        res.status == 200,
        res.with_body,
        header_views(res.headers@) == seq![
            ("content-type"@, content_type@),
            ("cache-control"@, "no-cache, no-store, must-revalidate"@),
            ("pragma"@, "no-cache"@),
            ("expires"@, "0"@),
        ],
{
    let mut headers: Vec<(&'static str, String)> = Vec::new();
    headers.push(("content-type", own(content_type)));
    headers.push(("cache-control", own("no-cache, no-store, must-revalidate")));
    headers.push(("pragma", own("no-cache")));
    headers.push(("expires", own("0")));
    assert(header_views(headers@) =~= seq![
        ("content-type"@, content_type@),
        ("cache-control"@, "no-cache, no-store, must-revalidate"@),
        ("pragma"@, "no-cache"@),
        ("expires"@, "0"@),
    ]);
    ReplyHead { status: 200, headers, with_body: true }
}

/// Whether a browser asks for a page, by what it says that it accepts. Case does not count.
pub fn request_accepts_html(accept: &Option<String>) -> (res: bool)
    ensures
        res == (match opt_view(*accept) {
            Some(v) => occurs_in(lowered(v), "text/html"@),
            None => false,
        }),
{
    match accept {
        Some(v) => {
            let small = to_lower(v.as_str());
            contains(small.as_str(), "text/html")
        },
        None => false,
    }
}

/// A page is filled in where its marks stand: the package, the version and the date of the build. What
/// stands between the marks stays.
pub proof fn pages_are_filled_in(
    a: Seq<char>,
    b: Seq<char>,
    c: Seq<char>,
    d: Seq<char>,
    package: Seq<char>,
    version: Seq<char>,
    build_date: Seq<char>,
)
    requires
        !a.contains('{'),
        !b.contains('{'),
        !c.contains('{'),
        !d.contains('{'),
        !package.contains('{'),
        !version.contains('{'),
    ensures
        filled_page(
            a + ("{pkg}"@ + (b + ("{ver}"@ + (c + ("{client_build_date}"@ + d))))),
            package,
            version,
            build_date,
        ) == a + (package + (b + (version + (c + (build_date + d))))),
{
    reveal_strlit("{pkg}");
    reveal_strlit("{ver}");
    reveal_strlit("{client_build_date}");
    let (p, v, t) = ("{pkg}"@, "{ver}"@, "{client_build_date}"@);
    lemma_rest_stays(d, p, package);
    lemma_other_mark(t, d, p, package);
    lemma_plain_front(c, t + d, p, package);
    lemma_other_mark(v, c + (t + d), p, package);
    lemma_plain_front(b, v + (c + (t + d)), p, package);
    replacing_from_the_front(b + (v + (c + (t + d))), p, package, ' ');
    lemma_plain_front(a, p + (b + (v + (c + (t + d)))), p, package);
    lemma_rest_stays(d, v, version);
    lemma_other_mark(t, d, v, version);
    lemma_plain_front(c, t + d, v, version);
    replacing_from_the_front(c + (t + d), v, version, ' ');
    lemma_plain_front(b, v + (c + (t + d)), v, version);
    lemma_plain_front(package, b + (v + (c + (t + d))), v, version);
    lemma_plain_front(a, package + (b + (v + (c + (t + d)))), v, version);
    lemma_rest_stays(d, t, build_date);
    replacing_from_the_front(d, t, build_date, ' ');
    lemma_plain_front(c, t + d, t, build_date);
    lemma_plain_front(version, c + (t + d), t, build_date);
    lemma_plain_front(b, version + (c + (t + d)), t, build_date);
    lemma_plain_front(package, b + (version + (c + (t + d))), t, build_date);
    lemma_plain_front(a, package + (b + (version + (c + (t + d)))), t, build_date);
}

proof fn lemma_plain_front(a: Seq<char>, rest: Seq<char>, from: Seq<char>, to: Seq<char>)
    requires
        from.len() > 0,
        !a.contains(from[0]),
    ensures
        replaced(a + rest, from, to) == a + replaced(rest, from, to),
    decreases a.len(),
{
    if a.len() == 0 {
        assert(a + rest =~= rest);
        assert(a + replaced(rest, from, to) =~= replaced(rest, from, to));
    } else {
        let b = a.drop_first();
        assert(!b.contains(from[0])) by {
            if b.contains(from[0]) {
                let i = choose|i: int| 0 <= i < b.len() && b[i] == from[0];
                assert(a[i + 1] == from[0]);
            }
        }
        lemma_plain_front(b, rest, from, to);
        let t = seq![a[0]] + (b + rest);
        assert(a + rest =~= t);
        assert(a.contains(a[0]));
        if starts_with_spec(t, from) {
            assert(t.take(from.len() as int)[0] == t[0]);
        }
        replacing_from_the_front(b + rest, from, to, a[0]);
        assert(seq![a[0]] + (b + replaced(rest, from, to)) =~= a + replaced(rest, from, to));
    }
}

proof fn lemma_rest_stays(a: Seq<char>, from: Seq<char>, to: Seq<char>)
    requires
        from.len() > 0,
        !a.contains(from[0]),
    ensures
        replaced(a, from, to) == a,
{
    let none = Seq::<char>::empty();
    lemma_plain_front(a, none, from, to);
    replacing_from_the_front(none, from, to, ' ');
    assert(a + none =~= a);
}

proof fn lemma_other_mark(mark: Seq<char>, rest: Seq<char>, from: Seq<char>, to: Seq<char>)
    requires
        mark.len() >= 2,
        from.len() >= 2,
        mark[1] != from[1],
        forall|i: int| 1 <= i < mark.len() ==> mark[i] != from[0],
    ensures
        replaced(mark + rest, from, to) == mark + replaced(rest, from, to),
{
    let b = mark.drop_first();
    lemma_plain_front(b, rest, from, to);
    let t = seq![mark[0]] + (b + rest);
    assert(mark + rest =~= t);
    if starts_with_spec(t, from) {
        assert(t.take(from.len() as int)[1] == t[1]);
        assert(t[1] == mark[1]);
    }
    replacing_from_the_front(b + rest, from, to, mark[0]);
    assert(seq![mark[0]] + (b + replaced(rest, from, to)) =~= mark + replaced(rest, from, to));
}

/// A client has the page where it names its tag, or any.
pub proof fn clients_that_have_the_page(v: Seq<char>, etag: Seq<char>)
    ensures
        has_page(Some(etag), etag),
        has_page(Some("*"@), etag),
        !has_page(None, etag),
        v != etag && v != "*"@ ==> !has_page(Some(v), etag),
{
}

/// A tag is the version and the name of the page in quotes, and pages are kept for a day.
pub proof fn tags_of_pages(version_tag: Seq<char>, name: Seq<char>)
    ensures
        etag_of(version_tag, name) == seq!['"'] + version_tag + seq![':'] + name + seq!['"'],
        page_cache_control() == "public, max-age=86400, must-revalidate"@,
{
    reveal_strlit("\"");
    reveal_strlit(":");
    assert("\""@ =~= seq!['"']);
    assert(":"@ =~= seq![':']);
}

} // verus!
