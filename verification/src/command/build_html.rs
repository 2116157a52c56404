//! The pages of the site: what stands in them, and where they go.
//!
//! A page is put together from fixed pieces of HTML and from the texts of
//! the entries, which are escaped where they are not HTML themselves.

use vstd::prelude::*;
use crate::text::chars_of;
use crate::text::push_char;
use crate::text::string_of_range;
use crate::window::page_entries;
use crate::window::page_window;
use vstd::string::StringExecFns;

verus! {

/// What stands for `&` in HTML.
pub const AMP: &'static str = "&amp;";

/// What stands for `<` in HTML.
pub const LT: &'static str = "&lt;";

/// What stands for `>` in HTML.
pub const GT: &'static str = "&gt;";

/// What stands for `"` in HTML.
pub const QUOT: &'static str = "&quot;";

/// A fixed piece of a page.
pub const NAV_OPEN: &'static str = "<nav class=\"nav\">";

/// A fixed piece of a page.
pub const NAV_PREV_OPEN: &'static str = "<a class=\"nav-prev\" href=\"";

/// A fixed piece of a page.
pub const NAV_PREV_CLOSE: &'static str = "\">prev</a>";

/// A fixed piece of a page.
pub const NAV_LIST_OPEN: &'static str = "<a class=\"nav-list\" href=\"";

/// A fixed piece of a page.
pub const NAV_LIST_CLOSE: &'static str = "related/\">list</a>";

/// A fixed piece of a page.
pub const NAV_NEXT_OPEN: &'static str = "<a class=\"nav-next\" href=\"";

/// A fixed piece of a page.
pub const NAV_NEXT_CLOSE: &'static str = "\">next</a>";

/// A fixed piece of a page.
pub const NAV_CLOSE: &'static str = "</nav>";

/// A fixed piece of a page.
pub const DETAIL_0: &'static str = "<div class=\"entry-detail\"><article class=\"entry\"><header class=\"header\"><h1 class=\"id-title\"><a href=\"";

/// A fixed piece of a page.
pub const DETAIL_1: &'static str = "\"><span class=\"id\">";

/// A fixed piece of a page.
pub const DETAIL_2: &'static str = "</span><span class=\"separator\"> </span><span class=\"title\">";

/// A fixed piece of a page.
pub const DETAIL_3: &'static str = "</span></a></h1></header><div class=\"body\"><section class=\"content\">";

/// A fixed piece of a page.
pub const DETAIL_4: &'static str = "</section></div><footer class=\"footer\"><a class=\"permalink\" href=\"";

/// A fixed piece of a page.
pub const DETAIL_5: &'static str = "\"><time class=\"pubdate\" datetime=\"";

/// A fixed piece of a page.
pub const DETAIL_6: &'static str = "\">";

/// A fixed piece of a page.
pub const DETAIL_7: &'static str = "</time></a></footer></article></div>";

/// A fixed piece of a page.
pub const ITEM_0: &'static str = "<li class=\"entry-list-item\"><div class=\"entry\"><a href=\"";

/// A fixed piece of a page.
pub const ITEM_1: &'static str = "\"><span class=\"id\">";

/// A fixed piece of a page.
pub const ITEM_2: &'static str = "</span><span class=\"separator\"> </span><span class=\"title\">";

/// A fixed piece of a page.
pub const ITEM_3: &'static str = "</span></a></div></li>";

/// A fixed piece of a page.
pub const LIST_0: &'static str = "<div class=\"entry-list\"><nav><header class=\"header\"><h1><a href=\"";

/// A fixed piece of a page.
pub const LIST_1: &'static str = "\">";

/// A fixed piece of a page.
pub const LIST_2: &'static str = "</a></h1></header><div class=\"body\"><ul class=\"entry-list\">";

/// A fixed piece of a page.
pub const LIST_3: &'static str = "</ul></div><footer class=\"footer\"></footer></nav></div>";

/// A fixed piece of a page.
pub const PAGE_0: &'static str = "<!DOCTYPE html>\n<html lang=\"ja\" prefix=\"og: http://ogp.me/ns#\">\n<head>\n<meta charset=\"UTF-8\">\n<title>";

/// A fixed piece of a page.
pub const PAGE_1: &'static str = " - blog.bouzuya.net</title>\n<meta name=\"robots\" content=\"index, follow\">\n<meta name=\"viewport\" content=\"width=device-width,initial-scale=1\">\n<meta name=\"twitter:card\" content=\"summary\">\n<meta name=\"twitter:site\" content=\"@bouzuya\">\n<meta name=\"twitter:creator\" content=\"@bouzuya\">\n<meta property=\"og:title\" content=\"";

/// A fixed piece of a page.
pub const PAGE_2: &'static str = "\">\n<meta property=\"og:url\" content=\"";

/// A fixed piece of a page.
pub const PAGE_3: &'static str = "\">\n<meta property=\"og:image\" content=\"https://blog.bouzuya.net/images/favicon.png\">\n<meta property=\"og:description\" content=\"";

/// A fixed piece of a page.
pub const PAGE_4: &'static str = "\">\n<meta property=\"og:site_name\" content=\"blog.bouzuya.net\">\n<meta name=\"theme-color\" content=\"#4e6a41\">\n<link rel=\"alternate\" type=\"application/atom+xml\" href=\"/atom.xml\">\n<link rel=\"icon\" sizes=\"192x192\" href=\"https://blog.bouzuya.net/images/favicon.png\">\n<link rel=\"apple-touch-icon\" sizes=\"192x192\" href=\"https://blog.bouzuya.net/images/favicon.png\">\n</head>\n<body>\n<div class=\"app\">\n<header class=\"header\">\n<h1 class=\"title\"><a href=\"/\">blog.bouzuya.net</a></h1>\n";

/// A fixed piece of a page.
pub const PAGE_5: &'static str = "\n</header>\n<div class=\"body\">\n";

/// A fixed piece of a page.
pub const PAGE_6: &'static str = "\n</div>\n<footer class=\"footer\">\n";

/// A fixed piece of a page.
pub const PAGE_7: &'static str = "\n</footer>\n</div>\n</body>\n</html>";

/// The title of the site.
pub const SITE_TITLE: &'static str = "blog.bouzuya.net";

/// The address of the site, without a path.
pub const SITE_URL: &'static str = "https://blog.bouzuya.net";

/// The title of the list of the latest entries.
pub const RECENT_TITLE: &'static str = "最近の記事";

/// What follows the title of an entry in the title of its related list.
pub const RELATED_SUFFIX: &'static str = " の関連記事";

/// The directory of the related list below the path of an entry.
pub const RELATED_DIR: &'static str = "related/";

/// The title beside the date of an entry that has none.
pub const DEFAULT_ID_TITLE: &'static str = "diary";

/// The name of the file that a directory shows.
pub const INDEX_FILE: &'static str = "index.html";

/// The ending of the name of a page.
pub const HTML_SUFFIX: &'static str = ".html";

/// What the list of all entries says of one entry.
pub struct PostEntry {
    /// The date, as `YYYY-MM-DD`.
    pub date: String,
    /// The minutes that the entry took to write.
    pub minutes: u32,
    /// When the entry was published.
    pub pubdate: String,
    /// The tags.
    pub tags: Vec<String>,
    /// The title.
    pub title: String,
}

/// The record of one entry.
pub struct EntryDetail {
    /// The text of the entry, in Markdown.
    pub data: String,
    /// The date, as `YYYY-MM-DD`.
    pub date: String,
    /// The text of the entry, as HTML.
    pub html: String,
    /// The minutes that the entry took to write.
    pub minutes: u32,
    /// When the entry was published.
    pub pubdate: String,
    /// The tags.
    pub tags: Vec<String>,
    /// The title.
    pub title: String,
}

/// The three parts of a date, as they stand in its text.
pub struct DateParts {
    /// The year.
    pub yyyy: String,
    /// The month.
    pub mm: String,
    /// The day.
    pub dd: String,
}

/// A text that does not fall into three parts at its hyphens.
#[derive(Clone, Copy, Debug, PartialEq, Eq)]
pub struct InvalidDateFormat;

/// A page of the site.
pub struct Page {
    /// The path of the page, which starts and ends with `/`.
    pub path: String,
    /// What stands in the page.
    pub html: String,
}

/// The first index from `from` on at which `s` holds `c`, or the length of
/// `s` where there is none.
pub open spec fn find(s: Seq<char>, c: char, from: int) -> int
    decreases s.len() - from,
{
    if from < 0 || from >= s.len() {
        s.len() as int
    } else if s[from] == c {
        from
    } else {
        find(s, c, from + 1)
    }
}

/// The index of the first hyphen of `s`.
pub open spec fn first_hyphen(s: Seq<char>) -> int {
    find(s, '-', 0)
}

/// The index of the second hyphen of `s`.
pub open spec fn second_hyphen(s: Seq<char>) -> int {
    find(s, '-', first_hyphen(s) + 1)
}

/// `s` holds exactly two hyphens, so that they part it in three.
pub open spec fn has_three_parts(s: Seq<char>) -> bool {
    &&& first_hyphen(s) < s.len()
    &&& second_hyphen(s) < s.len()
    &&& find(s, '-', second_hyphen(s) + 1) == s.len()
}

/// `p` holds the three parts of `s`, before, between and after its hyphens.
pub open spec fn are_parts_of(p: DateParts, s: Seq<char>) -> bool {
    &&& p.yyyy@ == s.subrange(0, first_hyphen(s))
    &&& p.mm@ == s.subrange(first_hyphen(s) + 1, second_hyphen(s))
    &&& p.dd@ == s.subrange(second_hyphen(s) + 1, s.len() as int)
}

/// The path of the page of an entry, as `/YYYY/MM/DD/`.
pub open spec fn path_of(yyyy: Seq<char>, mm: Seq<char>, dd: Seq<char>) -> Seq<char> {
    seq!['/'] + yyyy + seq!['/'] + mm + seq!['/'] + dd + seq!['/']
}

/// The path of the page of the entry whose date has the text `s`.
pub open spec fn path_of_date(s: Seq<char>) -> Seq<char> {
    path_of(
        s.subrange(0, first_hyphen(s)),
        s.subrange(first_hyphen(s) + 1, second_hyphen(s)),
        s.subrange(second_hyphen(s) + 1, s.len() as int),
    )
}

/// What stands for the character `c` in HTML.
pub open spec fn escaped_char(c: char) -> Seq<char> {
    if c == '&' {
        AMP@
    } else if c == '<' {
        LT@
    } else if c == '>' {
        GT@
    } else if c == '"' {
        QUOT@
    } else {
        seq![c]
    }
}

/// What stands for the text `s` in HTML.
pub open spec fn escaped(s: Seq<char>) -> Seq<char>
    decreases s.len(),
{
    if s.len() == 0 {
        Seq::empty()
    } else {
        escaped(s.drop_last()) + escaped_char(s.last())
    }
}

/// The first hundred characters of `s`, or all of it where it is shorter.
pub open spec fn summary(s: Seq<char>) -> Seq<char> {
    if s.len() > 100 {
        s.take(100)
    } else {
        s
    }
}

/// The link to the entry before, if there is one.
pub open spec fn nav_prev(prev: Option<Seq<char>>) -> Seq<char> {
    match prev {
        Some(d) => NAV_PREV_OPEN@ + path_of_date(d) + NAV_PREV_CLOSE@,
        None => Seq::empty(),
    }
}

/// The link to the entry after, if there is one.
pub open spec fn nav_next(next: Option<Seq<char>>) -> Seq<char> {
    match next {
        Some(d) => NAV_NEXT_OPEN@ + path_of_date(d) + NAV_NEXT_CLOSE@,
        None => Seq::empty(),
    }
}

/// The links of the page of an entry: to the entry before, to the related
/// list, and to the entry after.
pub open spec fn nav_detail(prev: Option<Seq<char>>, next: Option<Seq<char>>, path: Seq<char>) -> Seq<
    char,
> {
    NAV_OPEN@ + nav_prev(prev) + NAV_LIST_OPEN@ + path + NAV_LIST_CLOSE@ + nav_next(next)
        + NAV_CLOSE@
}

/// What the page of an entry shows of it.
pub open spec fn detail_content(
    path: Seq<char>,
    date: Seq<char>,
    title: Seq<char>,
    html: Seq<char>,
    pubdate: Seq<char>,
) -> Seq<char> {
    DETAIL_0@ + path + DETAIL_1@ + escaped(date) + DETAIL_2@ + escaped(title) + DETAIL_3@ + html
        + DETAIL_4@ + path + DETAIL_5@ + escaped(pubdate) + DETAIL_6@ + escaped(pubdate)
        + DETAIL_7@
}

/// What a list shows of one entry.
pub open spec fn list_item(date: Seq<char>, title: Seq<char>) -> Seq<char> {
    ITEM_0@ + path_of_date(date) + ITEM_1@ + escaped(date) + ITEM_2@ + escaped(title) + ITEM_3@
}

/// What a list shows of its first `n` entries.
pub open spec fn list_items(entries: Seq<PostEntry>, n: int) -> Seq<char>
    decreases n,
{
    if n <= 0 {
        Seq::empty()
    } else {
        list_items(entries, n - 1) + list_item(entries[n - 1].date@, entries[n - 1].title@)
    }
}

/// What a page with a list of entries shows.
pub open spec fn list_content(entries: Seq<PostEntry>, title: Seq<char>, url: Seq<char>) -> Seq<
    char,
> {
    LIST_0@ + escaped(url) + LIST_1@ + escaped(title) + LIST_2@ + list_items(
        entries,
        entries.len() as int,
    ) + LIST_3@
}

/// A whole page.
pub open spec fn page_text(
    title: Seq<char>,
    url: Seq<char>,
    description: Seq<char>,
    nav: Seq<char>,
    content: Seq<char>,
) -> Seq<char> {
    PAGE_0@ + escaped(title) + PAGE_1@ + escaped(title) + PAGE_2@ + escaped(url) + PAGE_3@
        + description + PAGE_4@ + nav + PAGE_5@ + content + PAGE_6@ + nav + PAGE_7@
}

/// The entries to which `refs` refer, in their order.
pub open spec fn referents(refs: Seq<&PostEntry>) -> Seq<PostEntry> {
    Seq::new(refs.len(), |i: int| *refs[i])
}

/// The date of every entry of `entries` falls into three parts.
pub open spec fn dates_have_parts(entries: Seq<PostEntry>) -> bool {
    forall|i: int| 0 <= i < entries.len() ==> has_three_parts((#[trigger] entries[i]).date@)
}

/// The index of the first `c` in `v` from `from` on, or the length of `v`.
pub fn find_char(v: &Vec<char>, c: char, from: usize) -> (r: usize)
    ensures
        r == find(v@, c, from as int),
        from <= r || r == v.len(),
        r <= v.len(),
{
    let mut i: usize = from;
    while i < v.len()
        invariant
            from <= i,
            find(v@, c, from as int) == find(v@, c, i as int),
        decreases v.len() - i,
    {
        if v[i] == c {
            return i;
        }
        i = i + 1;
    }
    v.len()
}

/// The three parts into which the hyphens of `date` part it. A text with
/// more or fewer than two hyphens has none.
pub fn parse_date(date: &str) -> (r: Result<DateParts, InvalidDateFormat>)
    ensures
        r is Ok <==> has_three_parts(date@),
        r matches Ok(p) ==> are_parts_of(p, date@),
{
    let v = chars_of(date);
    let n = v.len();
    let i1 = find_char(&v, '-', 0);
    if i1 >= n {
        return Err(InvalidDateFormat);
    }
    let i2 = find_char(&v, '-', i1 + 1);
    if i2 >= n {
        return Err(InvalidDateFormat);
    }
    let i3 = find_char(&v, '-', i2 + 1);
    if i3 < n {
        return Err(InvalidDateFormat);
    }
    Ok(
        DateParts {
            yyyy: string_of_range(&v, 0, i1),
            mm: string_of_range(&v, i1 + 1, i2),
            dd: string_of_range(&v, i2 + 1, n),
        },
    )
}

/// The path of the page of an entry, as `/YYYY/MM/DD/`.
pub fn entry_path(date: &DateParts) -> (r: String)
    ensures
        r@ == path_of(date.yyyy@, date.mm@, date.dd@),
{
    let mut r = String::new();
    push_char(&mut r, '/');
    r.append(date.yyyy.as_str());
    push_char(&mut r, '/');
    r.append(date.mm.as_str());
    push_char(&mut r, '/');
    r.append(date.dd.as_str());
    push_char(&mut r, '/');
    assert(r@ == path_of(date.yyyy@, date.mm@, date.dd@));
    r
}

/// Appends what stands for `s` in HTML.
pub fn append_escaped(out: &mut String, s: &str)
    ensures
        final(out)@ == old(out)@ + escaped(s@),
{
    let v = chars_of(s);
    let ghost start = out@;
    let mut i: usize = 0;
    while i < v.len()
        invariant
            i <= v.len(),
            out@ == start + escaped(v@.take(i as int)),
        decreases v.len() - i,
    {
        proof {
            assert(v@.take(i + 1).drop_last() == v@.take(i as int));
            assert(v@.take(i + 1).last() == v@[i as int]);
        }
        let c = v[i];
        if c == '&' {
            out.append(AMP);
        } else if c == '<' {
            out.append(LT);
        } else if c == '>' {
            out.append(GT);
        } else if c == '"' {
            out.append(QUOT);
        } else {
            push_char(out, c);
            assert(out@ == start + escaped(v@.take(i as int)) + seq![c]);
        }
        assert(out@ == start + escaped(v@.take(i + 1)));
        i = i + 1;
    }
    assert(v@.take(v.len() as int) == v@);
}

/// What stands for `s` in HTML: `&`, `<`, `>` and `"` are written by name.
pub fn html_escape(s: &str) -> (r: String)
    ensures
        r@ == escaped(s@),
{
    let mut r = String::new();
    append_escaped(&mut r, s);
    r
}

/// The description of a page: the first hundred characters of the text,
/// escaped.
pub fn og_description(data: &str) -> (r: String)
    ensures
        r@ == escaped(summary(data@)),
{
    let v = chars_of(data);
    let n: usize = if v.len() > 100 {
        100
    } else {
        v.len()
    };
    let desc = string_of_range(&v, 0, n);
    assert(desc@ == summary(data@));
    html_escape(desc.as_str())
}

/// The date of an entry, if there is one.
pub open spec fn date_of(entry: Option<&PostEntry>) -> Option<Seq<char>> {
    match entry {
        Some(e) => Some(e.date@),
        None => None,
    }
}

/// The links of the page of an entry: to the entry before, to the related
/// list, and to the entry after.
pub fn render_nav_entry_detail(
    prev: Option<&PostEntry>,
    next: Option<&PostEntry>,
    date: &DateParts,
) -> (r: String)
    requires
        prev matches Some(p) ==> has_three_parts(p.date@),
        next matches Some(n) ==> has_three_parts(n.date@),
    ensures
        r@ == nav_detail(date_of(prev), date_of(next), path_of(date.yyyy@, date.mm@, date.dd@)),
{
    let mut nav = String::new();
    nav.append(NAV_OPEN);
    match prev {
        Some(p) => {
            match parse_date(p.date.as_str()) {
                Ok(parts) => {
                    nav.append(NAV_PREV_OPEN);
                    nav.append(entry_path(&parts).as_str());
                    nav.append(NAV_PREV_CLOSE);
                },
                Err(_) => {},
            }
        },
        None => {},
    }
    assert(nav@ == NAV_OPEN@ + nav_prev(date_of(prev)));
    nav.append(NAV_LIST_OPEN);
    nav.append(entry_path(date).as_str());
    nav.append(NAV_LIST_CLOSE);
    let ghost middle = nav@;
    match next {
        Some(n) => {
            match parse_date(n.date.as_str()) {
                Ok(parts) => {
                    nav.append(NAV_NEXT_OPEN);
                    nav.append(entry_path(&parts).as_str());
                    nav.append(NAV_NEXT_CLOSE);
                },
                Err(_) => {},
            }
        },
        None => {},
    }
    assert(nav@ == middle + nav_next(date_of(next)));
    nav.append(NAV_CLOSE);
    nav
}

/// The links of a page with a list: none.
pub fn render_nav_entry_list() -> (r: String)
    ensures
        r@ == Seq::<char>::empty(),
{
    String::new()
}

/// What the page of an entry shows of it.
pub fn render_entry_detail_content(detail: &EntryDetail, date: &DateParts) -> (r: String)
    ensures
        r@ == detail_content(
            path_of(date.yyyy@, date.mm@, date.dd@),
            detail.date@,
            detail.title@,
            detail.html@,
            detail.pubdate@,
        ),
{
    let path = entry_path(date);
    let mut r = String::new();
    r.append(DETAIL_0);
    r.append(path.as_str());
    r.append(DETAIL_1);
    append_escaped(&mut r, detail.date.as_str());
    r.append(DETAIL_2);
    append_escaped(&mut r, detail.title.as_str());
    r.append(DETAIL_3);
    r.append(detail.html.as_str());
    r.append(DETAIL_4);
    r.append(path.as_str());
    r.append(DETAIL_5);
    append_escaped(&mut r, detail.pubdate.as_str());
    r.append(DETAIL_6);
    append_escaped(&mut r, detail.pubdate.as_str());
    r.append(DETAIL_7);
    r
}

/// What a page with a list of entries shows.
pub fn render_entry_list_content(entries: &[&PostEntry], list_title: &str, list_url: &str) -> (r:
    String)
    requires
        dates_have_parts(referents(entries@)),
    ensures
        r@ == list_content(referents(entries@), list_title@, list_url@),
{
    let ghost all = referents(entries@);
    let mut items = String::new();
    let mut i: usize = 0;
    while i < entries.len()
        invariant
            i <= entries.len(),
            all == referents(entries@),
            dates_have_parts(all),
            items@ == list_items(all, i as int),
        decreases entries.len() - i,
    {
        let entry = entries[i];
        assert(*entry == all[i as int]);
        match parse_date(entry.date.as_str()) {
            Ok(parts) => {
                let ghost before = items@;
                items.append(ITEM_0);
                items.append(entry_path(&parts).as_str());
                items.append(ITEM_1);
                append_escaped(&mut items, entry.date.as_str());
                items.append(ITEM_2);
                append_escaped(&mut items, entry.title.as_str());
                items.append(ITEM_3);
                assert(items@ == before + list_item(entry.date@, entry.title@));
            },
            Err(_) => {},
        }
        i = i + 1;
    }
    let mut r = String::new();
    r.append(LIST_0);
    append_escaped(&mut r, list_url);
    r.append(LIST_1);
    append_escaped(&mut r, list_title);
    r.append(LIST_2);
    r.append(items.as_str());
    r.append(LIST_3);
    r
}

/// A whole page. The title and the address are escaped; the description,
/// the links and the content are taken as HTML.
pub fn render_page(title: &str, canonical_url: &str, description: &str, nav: &str, content: &str) -> (r:
    String)
    ensures
        r@ == page_text(title@, canonical_url@, description@, nav@, content@),
{
    let mut r = String::new();
    r.append(PAGE_0);
    append_escaped(&mut r, title);
    r.append(PAGE_1);
    append_escaped(&mut r, title);
    r.append(PAGE_2);
    append_escaped(&mut r, canonical_url);
    r.append(PAGE_3);
    r.append(description);
    r.append(PAGE_4);
    r.append(nav);
    r.append(PAGE_5);
    r.append(content);
    r.append(PAGE_6);
    r.append(nav);
    r.append(PAGE_7);
    r
}

/// The entries that a listing page shows: the focus with up to four
/// entries on each side of it, in the order of `entries`, or, without a
/// focus, the last nine entries, the last one first.
pub fn get_page_entries<'a>(entries: &'a [PostEntry], focus_index: Option<usize>) -> (r: Vec<
    &'a PostEntry,
>)
    ensures
        referents(r@) == page_window(entries@, focus_index),
{
    let r = page_entries(entries, focus_index);
    assert(referents(r@) =~= page_window(entries@, focus_index));
    r
}

/// `s` without the slashes at its end.
pub open spec fn trim_end_slashes(s: Seq<char>) -> Seq<char>
    decreases s.len(),
{
    if s.len() > 0 && s.last() == '/' {
        trim_end_slashes(s.drop_last())
    } else {
        s
    }
}

/// `s` without the slashes at its start.
pub open spec fn trim_start_slashes(s: Seq<char>) -> Seq<char>
    decreases s.len(),
{
    if s.len() > 0 && s.first() == '/' {
        trim_start_slashes(s.drop_first())
    } else {
        s
    }
}

/// The names of the files that hold the page of the path `path`, below the
/// directory of the site: the index of its directory and, but for the root,
/// a file named after the directory itself.
pub open spec fn file_names(path: Seq<char>) -> Seq<Seq<char>> {
    let rest = trim_start_slashes(path);
    let index = if rest.len() == 0 || rest.last() == '/' {
        rest + INDEX_FILE@
    } else {
        rest + seq!['/'] + INDEX_FILE@
    };
    if path == seq!['/'] {
        seq![index]
    } else {
        seq![index, trim_end_slashes(rest) + HTML_SUFFIX@]
    }
}

/// The title of the page of an entry: its date and its title.
pub open spec fn entry_title(detail: EntryDetail) -> Seq<char> {
    detail.date@ + seq![' '] + detail.title@
}

/// The title of the related list of an entry.
pub open spec fn related_title(detail: EntryDetail) -> Seq<char> {
    entry_title(detail) + RELATED_SUFFIX@
}

/// The date of the entry before the one at index `i`, if there is one.
pub open spec fn date_before(posts: Seq<PostEntry>, i: int) -> Option<Seq<char>> {
    if 0 < i <= posts.len() {
        Some(posts[i - 1].date@)
    } else {
        None
    }
}

/// The date of the entry after the one at index `i`, if there is one.
pub open spec fn date_after(posts: Seq<PostEntry>, i: int) -> Option<Seq<char>> {
    if 0 <= i + 1 < posts.len() {
        Some(posts[i + 1].date@)
    } else {
        None
    }
}

/// What stands in the page of the entry at index `i`.
pub open spec fn entry_page_text(posts: Seq<PostEntry>, detail: EntryDetail, i: int) -> Seq<char> {
    let path = path_of_date(posts[i].date@);
    page_text(
        entry_title(detail),
        SITE_URL@ + path,
        escaped(summary(detail.data@)),
        nav_detail(date_before(posts, i), date_after(posts, i), path),
        detail_content(path, detail.date@, detail.title@, detail.html@, detail.pubdate@),
    )
}

/// What stands in the page of the related list of the entry at index `i`.
pub open spec fn related_page_text(posts: Seq<PostEntry>, detail: EntryDetail, i: int) -> Seq<
    char,
> {
    let url = path_of_date(posts[i].date@) + RELATED_DIR@;
    page_text(
        related_title(detail),
        SITE_URL@ + url,
        Seq::empty(),
        Seq::empty(),
        list_content(page_window(posts, Some(i as usize)), related_title(detail), url),
    )
}

/// What stands in the page of the root of the site.
pub open spec fn root_page_text(posts: Seq<PostEntry>) -> Seq<char> {
    page_text(
        SITE_TITLE@,
        SITE_URL@ + seq!['/'],
        Seq::empty(),
        Seq::empty(),
        list_content(page_window(posts, None), RECENT_TITLE@, seq!['/']),
    )
}

/// The path of the page that an entry has under its title.
pub open spec fn id_title_path(date: Seq<char>, id_title: Option<String>) -> Seq<char> {
    let id = match id_title {
        Some(t) => t@,
        None => DEFAULT_ID_TITLE@,
    };
    trim_end_slashes(path_of_date(date)) + seq!['/'] + id + seq!['/']
}

/// The three pages of the entry at index `i` stand in `pages` after the
/// root and the pages of the entries before: its page, the same page under
/// its title, and its related list.
pub open spec fn holds_entry_pages(
    pages: Seq<Page>,
    posts: Seq<PostEntry>,
    details: Seq<EntryDetail>,
    id_titles: Seq<Option<String>>,
    i: int,
) -> bool {
    let entry = pages[1 + 3 * i];
    let titled = pages[2 + 3 * i];
    let related = pages[3 + 3 * i];
    &&& entry.path@ == path_of_date(posts[i].date@)
    &&& entry.html@ == entry_page_text(posts, details[i], i)
    &&& titled.path@ == id_title_path(posts[i].date@, id_titles[i])
    &&& titled.html@ == entry.html@
    &&& related.path@ == path_of_date(posts[i].date@) + RELATED_DIR@
    &&& related.html@ == related_page_text(posts, details[i], i)
}

/// `pages` holds the pages of the site of `posts`: the root, and for each
/// entry, in the order of the entries, its three pages.
pub open spec fn are_pages_of(
    pages: Seq<Page>,
    posts: Seq<PostEntry>,
    details: Seq<EntryDetail>,
    id_titles: Seq<Option<String>>,
) -> bool {
    &&& pages.len() == 1 + 3 * posts.len()
    &&& pages[0].path@ == seq!['/']
    &&& pages[0].html@ == root_page_text(posts)
    &&& forall|i: int|
        0 <= i < posts.len() ==> #[trigger] holds_entry_pages(pages, posts, details, id_titles, i)
}

/// The entries of a page window are entries of the sequence.
pub proof fn lemma_window_dates(posts: Seq<PostEntry>, focus: Option<usize>)
    requires
        dates_have_parts(posts),
    ensures
        dates_have_parts(page_window(posts, focus)),
{
    let w = page_window(posts, focus);
    assert forall|i: int| 0 <= i < w.len() implies has_three_parts((#[trigger] w[i]).date@) by {
        match focus {
            Some(f) => {
                let start = crate::window::page_start(posts.len() as int, f as int);
                assert(w[i] == posts[start + i]);
            },
            None => {
                let start = crate::window::clip(posts.len() - 9, posts.len() as int);
                let part = posts.subrange(start, posts.len() as int);
                assert(w[i] == part[part.len() - 1 - i]);
                assert(part[part.len() - 1 - i] == posts[start + part.len() - 1 - i]);
            },
        }
    }
}

/// The characters `v[from..]` without the slashes at their start, as a
/// string.
fn rest_after_slashes(v: &Vec<char>) -> (r: usize)
    ensures
        r <= v.len(),
        v@.subrange(r as int, v.len() as int) == trim_start_slashes(v@),
{
    let mut i: usize = 0;
    assert(v@.subrange(0, v.len() as int) == v@);
    while i < v.len() && v[i] == '/'
        invariant
            i <= v.len(),
            trim_start_slashes(v@) == trim_start_slashes(v@.subrange(i as int, v.len() as int)),
        decreases v.len() - i,
    {
        proof {
            let cur = v@.subrange(i as int, v.len() as int);
            assert(cur.first() == v@[i as int]);
            assert(cur.drop_first() == v@.subrange(i + 1, v.len() as int));
        }
        i = i + 1;
    }
    proof {
        let cur = v@.subrange(i as int, v.len() as int);
        if cur.len() > 0 {
            assert(cur.first() == v@[i as int]);
        }
    }
    i
}

/// The index before which `v[from..]` ends when the slashes at its end are
/// left out.
fn end_before_slashes(v: &Vec<char>, from: usize) -> (r: usize)
    requires
        from <= v.len(),
    ensures
        from <= r <= v.len(),
        v@.subrange(from as int, r as int) == trim_end_slashes(
            v@.subrange(from as int, v.len() as int),
        ),
{
    let mut i: usize = v.len();
    while i > from && v[i - 1] == '/'
        invariant
            from <= i <= v.len(),
            trim_end_slashes(v@.subrange(from as int, v.len() as int)) == trim_end_slashes(
                v@.subrange(from as int, i as int),
            ),
        decreases i,
    {
        proof {
            let cur = v@.subrange(from as int, i as int);
            assert(cur.last() == v@[i - 1]);
            assert(cur.drop_last() == v@.subrange(from as int, i - 1));
        }
        i = i - 1;
    }
    proof {
        let cur = v@.subrange(from as int, i as int);
        if cur.len() > 0 {
            assert(cur.last() == v@[i - 1]);
        }
    }
    i
}

/// The names of the files that hold the page of the path `path`, below the
/// directory of the site.
pub fn html_file_names(path: &str) -> (r: Vec<String>)
    ensures
        crate::tags::texts(r@) == file_names(path@),
{
    let v = chars_of(path);
    let start = rest_after_slashes(&v);
    let ghost rest = trim_start_slashes(path@);
    let mut index = string_of_range(&v, start, v.len());
    if start < v.len() && v[v.len() - 1] != '/' {
        assert(rest.last() == v@[v.len() - 1]);
        push_char(&mut index, '/');
    } else {
        proof {
            if start < v.len() {
                assert(rest.last() == v@[v.len() - 1]);
            }
        }
    }
    index.append(INDEX_FILE);
    let mut r: Vec<String> = Vec::new();
    r.push(index);
    let is_root = v.len() == 1 && v[0] == '/';
    proof {
        if is_root {
            assert(path@ =~= seq!['/']);
        } else if path@ == seq!['/'] {
            assert(v@[0] == '/');
        }
    }
    if !is_root {
        let end = end_before_slashes(&v, start);
        let mut alias = string_of_range(&v, start, end);
        alias.append(HTML_SUFFIX);
        r.push(alias);
    }
    proof {
        let names = crate::tags::texts(r@);
        let want = file_names(path@);
        assert(names.len() == want.len());
        assert(names[0] =~= want[0]);
        if !is_root {
            assert(names[1] =~= want[1]);
        }
        assert(names =~= want);
    }
    r
}

/// The title of the page of an entry: its date and its title.
pub fn entry_title_of(detail: &EntryDetail) -> (r: String)
    ensures
        r@ == entry_title(*detail),
{
    let mut r = detail.date.clone();
    push_char(&mut r, ' ');
    r.append(detail.title.as_str());
    r
}

/// The page of the root of the site.
pub fn root_page(posts: &Vec<PostEntry>) -> (r: Page)
    requires
        dates_have_parts(posts@),
    ensures
        r.path@ == seq!['/'],
        r.html@ == root_page_text(posts@),
{
    let list = get_page_entries(posts.as_slice(), None);
    proof {
        lemma_window_dates(posts@, None);
    }
    let mut path = String::new();
    push_char(&mut path, '/');
    assert(path@ =~= seq!['/']);
    let content = render_entry_list_content(list.as_slice(), RECENT_TITLE, path.as_str());
    let nav = render_nav_entry_list();
    let mut url = String::new();
    url.append(SITE_URL);
    push_char(&mut url, '/');
    assert(url@ =~= SITE_URL@ + seq!['/']);
    let description = String::new();
    let html = render_page(
        SITE_TITLE,
        url.as_str(),
        description.as_str(),
        nav.as_str(),
        content.as_str(),
    );
    assert(nav@ =~= Seq::<char>::empty());
    assert(description@ =~= Seq::<char>::empty());
    Page { path, html }
}

/// The pages of the entry at index `i`: its page, the same page under its
/// title, and its related list.
pub fn entry_pages(
    posts: &Vec<PostEntry>,
    detail: &EntryDetail,
    id_title: &Option<String>,
    i: usize,
) -> (r: (Page, Page, Page))
    requires
        i < posts.len(),
        dates_have_parts(posts@),
    ensures
        r.0.path@ == path_of_date(posts@[i as int].date@),
        r.0.html@ == entry_page_text(posts@, *detail, i as int),
        r.1.path@ == id_title_path(posts@[i as int].date@, *id_title),
        r.1.html@ == r.0.html@,
        r.2.path@ == path_of_date(posts@[i as int].date@) + RELATED_DIR@,
        r.2.html@ == related_page_text(posts@, *detail, i as int),
{
    let post = &posts[i];
    let date = match parse_date(post.date.as_str()) {
        Ok(d) => d,
        Err(_) => DateParts { yyyy: String::new(), mm: String::new(), dd: String::new() },
    };
    let path = entry_path(&date);
    assert(path@ == path_of_date(post.date@));
    let prev: Option<&PostEntry> = if i > 0 {
        Some(&posts[i - 1])
    } else {
        None
    };
    let next: Option<&PostEntry> = if i + 1 < posts.len() {
        Some(&posts[i + 1])
    } else {
        None
    };
    let nav = render_nav_entry_detail(prev, next, &date);
    let content = render_entry_detail_content(detail, &date);
    let title = entry_title_of(detail);
    let mut url = String::new();
    url.append(SITE_URL);
    url.append(path.as_str());
    let description = og_description(detail.data.as_str());
    let html = render_page(
        title.as_str(),
        url.as_str(),
        description.as_str(),
        nav.as_str(),
        content.as_str(),
    );
    assert(html@ == entry_page_text(posts@, *detail, i as int));
    // The page under the title.
    let pv = chars_of(path.as_str());
    let end = end_before_slashes(&pv, 0);
    assert(pv@.subrange(0, pv.len() as int) == pv@);
    let mut titled = string_of_range(&pv, 0, end);
    push_char(&mut titled, '/');
    match id_title {
        Some(t) => {
            titled.append(t.as_str());
        },
        None => {
            titled.append(DEFAULT_ID_TITLE);
        },
    }
    push_char(&mut titled, '/');
    assert(titled@ == id_title_path(post.date@, *id_title));
    // The related list.
    let list = get_page_entries(posts.as_slice(), Some(i));
    proof {
        lemma_window_dates(posts@, Some(i));
    }
    let mut list_title = title.clone();
    list_title.append(RELATED_SUFFIX);
    let mut list_url = path.clone();
    list_url.append(RELATED_DIR);
    let list_content = render_entry_list_content(
        list.as_slice(),
        list_title.as_str(),
        list_url.as_str(),
    );
    let list_nav = render_nav_entry_list();
    let mut canonical = String::new();
    canonical.append(SITE_URL);
    canonical.append(list_url.as_str());
    let empty = String::new();
    let list_html = render_page(
        list_title.as_str(),
        canonical.as_str(),
        empty.as_str(),
        list_nav.as_str(),
        list_content.as_str(),
    );
    assert(list_nav@ =~= Seq::<char>::empty());
    assert(empty@ =~= Seq::<char>::empty());
    assert(list_html@ == related_page_text(posts@, *detail, i as int));
    let same = html.clone();
    (Page { path, html }, Page { path: titled, html: same }, Page { path: list_url, html: list_html })
}

/// Whether the date of every entry falls into three parts.
pub fn dates_parse(posts: &Vec<PostEntry>) -> (r: bool)
    ensures
        r == dates_have_parts(posts@),
{
    let mut i: usize = 0;
    while i < posts.len()
        invariant
            i <= posts.len(),
            forall|j: int| 0 <= j < i ==> has_three_parts((#[trigger] posts@[j]).date@),
        decreases posts.len() - i,
    {
        if parse_date(posts[i].date.as_str()).is_err() {
            return false;
        }
        i = i + 1;
    }
    true
}

/// The pages of the site: the root, and for each entry its page, the same
/// page under its title, and its related list. There are none where the
/// date of an entry does not fall into three parts.
pub fn run(
    posts: &Vec<PostEntry>,
    details: &Vec<EntryDetail>,
    id_titles: &Vec<Option<String>>,
) -> (r: Result<Vec<Page>, InvalidDateFormat>)
    requires
        details.len() == posts.len(),
        id_titles.len() == posts.len(),
    ensures
        r is Ok <==> dates_have_parts(posts@),
        r matches Ok(pages) ==> are_pages_of(pages@, posts@, details@, id_titles@),
{
    if !dates_parse(posts) {
        return Err(InvalidDateFormat);
    }
    let mut pages: Vec<Page> = Vec::new();
    pages.push(root_page(posts));
    let mut i: usize = 0;
    while i < posts.len()
        invariant
            i <= posts.len(),
            details.len() == posts.len(),
            id_titles.len() == posts.len(),
            dates_have_parts(posts@),
            pages@.len() == 1 + 3 * i,
            pages@[0].path@ == seq!['/'],
            pages@[0].html@ == root_page_text(posts@),
            forall|j: int|
                0 <= j < i ==> #[trigger] holds_entry_pages(
                    pages@,
                    posts@,
                    details@,
                    id_titles@,
                    j,
                ),
        decreases posts.len() - i,
    {
        let (entry, titled, related) = entry_pages(posts, &details[i], &id_titles[i], i);
        let ghost before = pages@;
        pages.push(entry);
        pages.push(titled);
        pages.push(related);
        proof {
            assert(pages@.len() == before.len() + 3);
            assert forall|j: int| 0 <= j < i + 1 implies #[trigger] holds_entry_pages(
                pages@,
                posts@,
                details@,
                id_titles@,
                j,
            ) by {
                if j < i {
                    assert(holds_entry_pages(before, posts@, details@, id_titles@, j));
                    assert(pages@[1 + 3 * j] == before[1 + 3 * j]);
                    assert(pages@[2 + 3 * j] == before[2 + 3 * j]);
                    assert(pages@[3 + 3 * j] == before[3 + 3 * j]);
                } else {
                    assert(pages@[1 + 3 * j] == entry);
                    assert(pages@[2 + 3 * j] == titled);
                    assert(pages@[3 + 3 * j] == related);
                }
            }
        }
        i = i + 1;
    }
    Ok(pages)
}

} // verus!
