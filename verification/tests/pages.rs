use bbn::command::build_html::entry_path;
use bbn::command::build_html::html_escape;
use bbn::command::build_html::html_file_names;
use bbn::command::build_html::og_description;
use bbn::command::build_html::parse_date;
use bbn::command::build_html::render_entry_detail_content;
use bbn::command::build_html::render_entry_list_content;
use bbn::command::build_html::render_nav_entry_detail;
use bbn::command::build_html::render_nav_entry_list;
use bbn::command::build_html::render_page;
use bbn::command::build_html::run;
use bbn::command::build_html::EntryDetail;
use bbn::command::build_html::InvalidDateFormat;
use bbn::command::build_html::PostEntry;
use bbn::command::sitemap_xml::sitemap_loc;
use bbn::data::date::Date;
use bbn::window::page_entries;

fn post(date: &str, title: &str) -> PostEntry {
    PostEntry {
        date: date.to_string(),
        minutes: 5,
        pubdate: format!("{}T00:00:00Z", date),
        tags: vec![],
        title: title.to_string(),
    }
}

fn detail(date: &str, title: &str, data: &str, html: &str) -> EntryDetail {
    EntryDetail {
        data: data.to_string(),
        date: date.to_string(),
        html: html.to_string(),
        minutes: 5,
        pubdate: format!("{}T00:00:00Z", date),
        tags: vec![],
        title: title.to_string(),
    }
}

#[test]
fn a_date_falls_into_three_parts() {
    let parts = parse_date("a--c").unwrap();
    assert_eq!((parts.yyyy.as_str(), parts.mm.as_str(), parts.dd.as_str()), ("a", "", "c"));
    let parts = parse_date("--").unwrap();
    assert_eq!((parts.yyyy.as_str(), parts.mm.as_str(), parts.dd.as_str()), ("", "", ""));
    assert_eq!(parse_date("2024-01").err(), Some(InvalidDateFormat));
    assert_eq!(parse_date("2024-01-15-2").err(), Some(InvalidDateFormat));
    assert_eq!(parse_date("").err(), Some(InvalidDateFormat));
    assert_eq!(entry_path(&parse_date("2024-01-15").unwrap()), "/2024/01/15/");
}

#[test]
fn html_is_escaped() {
    assert_eq!(html_escape(""), "");
    assert_eq!(html_escape("plain 日記 'x'"), "plain 日記 'x'");
    assert_eq!(html_escape("&amp;"), "&amp;amp;");
    assert_eq!(html_escape("a<b>c\"d&e"), "a&lt;b&gt;c&quot;d&amp;e");
    let long: String = "<".repeat(150);
    assert_eq!(og_description(&long), "&lt;".repeat(100));
    let japanese: String = "あ".repeat(101);
    assert_eq!(og_description(&japanese), "あ".repeat(100));
    assert_eq!(og_description(""), "");
}

#[test]
fn the_links_of_an_entry() {
    let date = parse_date("2021-02-03").unwrap();
    let before = post("2021-02-02", "B");
    let after = post("2021-02-04", "A");
    assert_eq!(
        render_nav_entry_detail(Some(&before), Some(&after), &date),
        "<nav class=\"nav\"><a class=\"nav-prev\" href=\"/2021/02/02/\">prev</a><a class=\"nav-list\" href=\"/2021/02/03/related/\">list</a><a class=\"nav-next\" href=\"/2021/02/04/\">next</a></nav>"
    );
    assert_eq!(
        render_nav_entry_detail(None, None, &date),
        "<nav class=\"nav\"><a class=\"nav-list\" href=\"/2021/02/03/related/\">list</a></nav>"
    );
    assert_eq!(render_nav_entry_list(), "");
}

#[test]
fn the_content_of_an_entry() {
    let date = parse_date("2021-02-03").unwrap();
    let d = detail("2021-02-03", "T<1>", "hello", "<p>hello</p>");
    assert_eq!(
        render_entry_detail_content(&d, &date),
        "<div class=\"entry-detail\"><article class=\"entry\"><header class=\"header\"><h1 class=\"id-title\"><a href=\"/2021/02/03/\"><span class=\"id\">2021-02-03</span><span class=\"separator\"> </span><span class=\"title\">T&lt;1&gt;</span></a></h1></header><div class=\"body\"><section class=\"content\"><p>hello</p></section></div><footer class=\"footer\"><a class=\"permalink\" href=\"/2021/02/03/\"><time class=\"pubdate\" datetime=\"2021-02-03T00:00:00Z\">2021-02-03T00:00:00Z</time></a></footer></article></div>"
    );
}

#[test]
fn the_content_of_a_list() {
    let a = post("2021-02-03", "A&B");
    let b = post("2021-02-04", "C");
    assert_eq!(
        render_entry_list_content(&[&a, &b], "list \"x\"", "/u/"),
        "<div class=\"entry-list\"><nav><header class=\"header\"><h1><a href=\"/u/\">list &quot;x&quot;</a></h1></header><div class=\"body\"><ul class=\"entry-list\"><li class=\"entry-list-item\"><div class=\"entry\"><a href=\"/2021/02/03/\"><span class=\"id\">2021-02-03</span><span class=\"separator\"> </span><span class=\"title\">A&amp;B</span></a></div></li><li class=\"entry-list-item\"><div class=\"entry\"><a href=\"/2021/02/04/\"><span class=\"id\">2021-02-04</span><span class=\"separator\"> </span><span class=\"title\">C</span></a></div></li></ul></div><footer class=\"footer\"></footer></nav></div>"
    );
    assert_eq!(
        render_entry_list_content(&[], "t", "/"),
        "<div class=\"entry-list\"><nav><header class=\"header\"><h1><a href=\"/\">t</a></h1></header><div class=\"body\"><ul class=\"entry-list\"></ul></div><footer class=\"footer\"></footer></nav></div>"
    );
}

#[test]
fn a_whole_page() {
    let page = render_page("T & t", "https://blog.bouzuya.net/x/", "D", "<nav></nav>", "<p>c</p>");
    assert!(page.starts_with("<!DOCTYPE html>\n<html lang=\"ja\" prefix=\"og: http://ogp.me/ns#\">\n<head>\n<meta charset=\"UTF-8\">\n<title>T &amp; t - blog.bouzuya.net</title>\n"));
    assert!(page.contains("<meta property=\"og:title\" content=\"T &amp; t\">\n<meta property=\"og:url\" content=\"https://blog.bouzuya.net/x/\">\n"));
    assert!(page.contains("<meta property=\"og:description\" content=\"D\">\n"));
    assert!(page.contains("<meta name=\"theme-color\" content=\"#4e6a41\">\n"));
    assert!(page.ends_with("<h1 class=\"title\"><a href=\"/\">blog.bouzuya.net</a></h1>\n<nav></nav>\n</header>\n<div class=\"body\">\n<p>c</p>\n</div>\n<footer class=\"footer\">\n<nav></nav>\n</footer>\n</div>\n</body>\n</html>"));
    assert_eq!(page.lines().count(), 35);
}

#[test]
fn the_files_of_a_page() {
    assert_eq!(html_file_names("/"), vec!["index.html"]);
    assert_eq!(html_file_names("/2021/02/03/"), vec!["2021/02/03/index.html", "2021/02/03.html"]);
    assert_eq!(
        html_file_names("/2021/02/03/related/"),
        vec!["2021/02/03/related/index.html", "2021/02/03/related.html"]
    );
    assert_eq!(html_file_names("/a"), vec!["a/index.html", "a.html"]);
    assert_eq!(html_file_names("a/b//"), vec!["a/b//index.html", "a/b.html"]);
    assert_eq!(html_file_names(""), vec!["index.html", ".html"]);
}

#[test]
fn the_pages_of_a_site() {
    let posts = vec![post("2021-02-03", "TITLE1"), post("2021-02-04", "TITLE2")];
    let details = vec![
        detail("2021-02-03", "TITLE1", "hello", "<p>hello</p>\n"),
        detail("2021-02-04", "TITLE2", "good bye", "<p>good bye</p>\n"),
    ];
    let id_titles = vec![Some("TITLE".to_string()), None];
    let pages = run(&posts, &details, &id_titles).unwrap();
    let paths: Vec<&str> = pages.iter().map(|p| p.path.as_str()).collect();
    assert_eq!(
        paths,
        vec![
            "/",
            "/2021/02/03/",
            "/2021/02/03/TITLE/",
            "/2021/02/03/related/",
            "/2021/02/04/",
            "/2021/02/04/diary/",
            "/2021/02/04/related/"
        ]
    );
    let root = &pages[0].html;
    assert!(root.contains("blog.bouzuya.net"));
    assert!(root.contains("最近の記事"));
    assert!(root.contains("TITLE1"));
    assert!(root.contains("TITLE2"));
    assert!(root.find("2021-02-04").unwrap() < root.find("2021-02-03").unwrap());
    let first = &pages[1].html;
    assert!(first.contains("2021-02-03 TITLE1 - blog.bouzuya.net"));
    assert!(first.contains("<p>hello</p>"));
    assert!(first.contains("<meta property=\"og:url\" content=\"https://blog.bouzuya.net/2021/02/03/\">"));
    assert!(first.contains("<meta property=\"og:description\" content=\"hello\">"));
    assert!(first.contains("nav-next"));
    assert!(first.contains("/2021/02/04/"));
    assert!(!first.contains("nav-prev"));
    assert_eq!(pages[2].html, pages[1].html);
    let second = &pages[4].html;
    assert!(second.contains("nav-prev"));
    assert!(second.contains("/2021/02/03/"));
    assert!(!second.contains("nav-next"));
    let related = &pages[3].html;
    assert!(related.contains("<title>2021-02-03 TITLE1 の関連記事 - blog.bouzuya.net</title>"));
    assert!(related.contains("<h1><a href=\"/2021/02/03/related/\">2021-02-03 TITLE1 の関連記事</a></h1>"));
    assert!(related.contains("https://blog.bouzuya.net/2021/02/03/related/"));
    assert!(related.find("2021-02-03</span>").unwrap() < related.find("2021-02-04</span>").unwrap());
}

#[test]
fn a_site_needs_dates_of_three_parts() {
    let posts = vec![post("2021-02-03", "A"), post("20210204", "B")];
    let details = vec![detail("2021-02-03", "A", "", ""), detail("20210204", "B", "", "")];
    assert_eq!(run(&posts, &details, &vec![None, None]).err(), Some(InvalidDateFormat));
    assert_eq!(run(&Vec::new(), &Vec::new(), &Vec::new()).unwrap().len(), 1);
}

#[test]
fn page_window() {
    let entries: Vec<u32> = (0..20).collect();
    let picked = |focus: Option<usize>| -> Vec<u32> {
        page_entries(&entries, focus).into_iter().copied().collect()
    };
    assert_eq!(picked(Some(9)), vec![5, 6, 7, 8, 9, 10, 11, 12, 13]);
    assert_eq!(picked(Some(1)), vec![0, 1, 2, 3, 4, 5]);
    assert_eq!(picked(Some(0)), vec![0, 1, 2, 3, 4]);
    assert_eq!(picked(Some(19)), vec![15, 16, 17, 18, 19]);
    assert_eq!(picked(Some(4)), vec![0, 1, 2, 3, 4, 5, 6, 7, 8]);
    assert_eq!(picked(Some(15)), vec![11, 12, 13, 14, 15, 16, 17, 18, 19]);
    assert_eq!(picked(Some(22)), vec![18, 19]);
    assert_eq!(picked(Some(24)), Vec::<u32>::new());
    assert_eq!(picked(Some(usize::MAX)), Vec::<u32>::new());
    assert_eq!(picked(None), vec![19, 18, 17, 16, 15, 14, 13, 12, 11]);
    let few: Vec<u32> = (0..3).collect();
    let all: Vec<u32> = page_entries(&few, None).into_iter().copied().collect();
    assert_eq!(all, vec![2, 1, 0]);
    let none: Vec<u32> = Vec::new();
    assert!(page_entries(&none, None).is_empty());
    assert!(page_entries(&none, Some(0)).is_empty());
}

#[test]
fn the_sitemap_lists_the_page_of_each_date() {
    let date = Date::new(2021, 2, 3).unwrap();
    assert_eq!(sitemap_loc(&date), "https://blog.bouzuya.net/2021/02/03/");
    let early = Date::new(987, 12, 1).unwrap();
    assert_eq!(sitemap_loc(&early), "https://blog.bouzuya.net/0987/12/01/");
}
