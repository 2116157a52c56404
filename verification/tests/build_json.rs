use std::str::FromStr;

use bbn::command::build_json::all_json_item;
use bbn::command::build_json::daily_json;
use bbn::command::build_json::daily_json_file_names;
use bbn::command::build_json::distinct_strings;
use bbn::command::build_json::linked_json;
use bbn::command::build_json::related_json;
use bbn::command::build_json::related_json_file_names;
use bbn::command::build_json::tags_json;
use bbn::data::date::Date;
use bbn::data::datetime::DateTime;
use bbn::data::entry::sort_by_date;
use bbn::data::entry::sorted_by_date;
use bbn::data::entry::EntryKey;
use bbn::data::entry::EntryRecord;
use bbn::links::parse_links;
use bbn::links::MalformedReference;
use bbn::site::build_index;
use bbn::site::BuildError;

fn date(s: &str) -> Date {
    Date::from_str(s).unwrap()
}

fn entry(day: &str, tags: &[&str], body: &str) -> EntryRecord {
    EntryRecord {
        key: EntryKey::new(date(day), None),
        tags: tags.iter().map(|t| t.to_string()).collect(),
        minutes: 5,
        pubdate: <DateTime as FromStr>::from_str(&format!("{}T00:00:00+09:00", day)).unwrap(),
        title: format!("title of {}", day),
        body: body.to_string(),
    }
}

fn texts(dates: &[Date]) -> Vec<String> {
    dates.iter().map(|d| d.to_string()).collect()
}

#[test]
fn test() {
    assert_eq!(
        parse_links(
            "[2021-02-03] [2021-02-04]\n\n[2021-02-03]: https://blog.bouzuya.net/2021/02/03/"
        )
        .unwrap(),
        vec![date("2021-02-03"), date("2021-02-04")]
    );
}

#[test]
fn links_come_sorted_and_once() {
    let found = parse_links("see [2022-01-01], [2020-12-31] and again [2022-01-01]").unwrap();
    assert_eq!(texts(&found), vec!["2020-12-31", "2022-01-01"]);
}

#[test]
fn links_need_the_whole_token() {
    assert!(parse_links("").unwrap().is_empty());
    assert!(parse_links("[2021-02-03").unwrap().is_empty());
    assert!(parse_links("2021-02-03]").unwrap().is_empty());
    assert!(parse_links("[2021/02/03]").unwrap().is_empty());
    assert!(parse_links("[2021-2-3]").unwrap().is_empty());
    assert!(parse_links("[2021-20-03]").unwrap().is_empty());
    assert!(parse_links("[2021-02-43]").unwrap().is_empty());
    assert_eq!(texts(&parse_links("[[2021-02-03]]").unwrap()), vec!["2021-02-03"]);
    assert_eq!(texts(&parse_links("日記 [2021-02-03] です").unwrap()), vec!["2021-02-03"]);
}

#[test]
fn a_token_of_a_day_that_is_not_is_an_error() {
    assert_eq!(parse_links("[2021-02-30]"), Err(MalformedReference { at: 0 }));
    assert_eq!(parse_links("ab [2021-13-01]"), Err(MalformedReference { at: 3 }));
    assert_eq!(parse_links("[2021-02-03] [2021-00-10] [2021-02-31]"), Err(MalformedReference { at: 13 }));
    assert!(parse_links("[2020-02-29]").is_ok());
    assert!(parse_links("[2021-02-29]").is_err());
}

#[test]
fn links_agree_with_the_pattern() {
    let pattern = regex::Regex::new(r"\[([0-9]{4}-[0-1][0-9]-[0-3][0-9])\]").unwrap();
    let bodies = [
        "[2021-02-03] [2021-02-04]\n\n[2021-02-03]: https://blog.bouzuya.net/2021/02/03/",
        "[2021-02-03][2021-02-04][1999-12-31]",
        "[[2021-02-03]",
        "[2021-02-0３]",
        "x[2021-12-31]y[0001-01-01]z",
        "[2021-02-03 ] [ 2021-02-03]",
        "no tokens here",
    ];
    for body in bodies {
        let mut expected: Vec<String> = pattern
            .captures_iter(body)
            .map(|c| c.get(1).unwrap().as_str().to_string())
            .collect();
        expected.sort();
        expected.dedup();
        assert_eq!(texts(&parse_links(body).unwrap()), expected);
    }
}

#[test]
fn link_graph_symmetry() {
    let entries = vec![
        entry("2021-02-01", &[], "see [2021-02-03] and [2021-02-09]"),
        entry("2021-02-02", &[], "nothing"),
        entry("2021-02-03", &[], "back to [2021-02-01]"),
    ];
    let index = build_index(&entries).unwrap();
    assert_eq!(texts(&index.related[0].outbound), vec!["2021-02-03", "2021-02-09"]);
    assert_eq!(texts(&index.related[0].inbound), vec!["2021-02-03"]);
    assert!(index.related[1].outbound.is_empty());
    assert!(index.related[1].inbound.is_empty());
    assert_eq!(texts(&index.related[2].outbound), vec!["2021-02-01"]);
    assert_eq!(texts(&index.related[2].inbound), vec!["2021-02-01"]);
    let linked = linked_json(&index.backlinks);
    assert_eq!(linked.len(), 3);
    assert_eq!(linked[0].date, "2021-02-01");
    assert_eq!(linked[0].sources, vec!["2021-02-03"]);
    assert_eq!(linked[1].date, "2021-02-03");
    assert_eq!(linked[1].sources, vec!["2021-02-01"]);
    assert_eq!(linked[2].date, "2021-02-09");
    assert_eq!(linked[2].sources, vec!["2021-02-01"]);
}

#[test]
fn related_prev_and_next_ordering() {
    let entries: Vec<EntryRecord> = (1..=20)
        .map(|i| entry(&format!("2024-01-{:02}", i), &[], ""))
        .collect();
    let index = build_index(&entries).unwrap();
    let related = related_json(&index.related[10]);
    assert_eq!(related.prev, vec!["2024-01-10", "2024-01-09", "2024-01-08", "2024-01-07"]);
    assert_eq!(related.next, vec!["2024-01-15", "2024-01-14", "2024-01-13", "2024-01-12"]);
    let first = related_json(&index.related[0]);
    assert!(first.prev.is_empty());
    assert_eq!(first.next, vec!["2024-01-05", "2024-01-04", "2024-01-03", "2024-01-02"]);
    let last = related_json(&index.related[19]);
    assert_eq!(last.prev, vec!["2024-01-19", "2024-01-18", "2024-01-17", "2024-01-16"]);
    assert!(last.next.is_empty());
    let second = related_json(&index.related[1]);
    assert_eq!(second.prev, vec!["2024-01-01"]);
    let before_last = related_json(&index.related[17]);
    assert_eq!(before_last.next, vec!["2024-01-20", "2024-01-19"]);
}

#[test]
fn same_day_index() {
    let entries = vec![
        entry("2020-02-03", &[], ""),
        entry("2020-02-04", &[], ""),
        entry("2021-02-03", &[], ""),
        entry("2021-03-03", &[], ""),
        entry("2023-02-03", &[], ""),
    ];
    let index = build_index(&entries).unwrap();
    assert_eq!(texts(&index.related[0].same), vec!["2021-02-03", "2023-02-03"]);
    assert_eq!(texts(&index.related[2].same), vec!["2020-02-03", "2023-02-03"]);
    assert_eq!(texts(&index.related[4].same), vec!["2020-02-03", "2021-02-03"]);
    assert!(index.related[1].same.is_empty());
    assert!(index.related[3].same.is_empty());
}

#[test]
fn tag_counts() {
    let entries = vec![
        entry("2021-02-01", &["rust", "diary"], ""),
        entry("2021-02-02", &["rust", "rust"], ""),
        entry("2021-02-03", &["verus", "rust", "Zed"], ""),
        entry("2021-02-04", &[], ""),
    ];
    let index = build_index(&entries).unwrap();
    let tags = tags_json(index.tags);
    let pairs: Vec<(String, u32)> = tags.0.iter().map(|t| (t.name.clone(), t.count)).collect();
    assert_eq!(
        pairs,
        vec![
            ("Zed".to_string(), 1),
            ("diary".to_string(), 1),
            ("rust".to_string(), 3),
            ("verus".to_string(), 1)
        ]
    );
}

#[test]
fn tags_come_in_the_order_of_strings() {
    let names = ["b", "a", "ab", "", "日記", "B", "a b", "é", "z"];
    let entries = vec![entry("2021-02-01", &names, "")];
    let index = build_index(&entries).unwrap();
    let found: Vec<String> = index.tags.iter().map(|t| t.name.clone()).collect();
    let mut expected: Vec<String> = names.iter().map(|n| n.to_string()).collect();
    expected.sort();
    assert_eq!(found, expected);
}

#[test]
fn the_first_malformed_token_stops_the_build() {
    let entries = vec![
        entry("2021-02-01", &[], "fine [2021-02-03]"),
        entry("2021-02-02", &[], "ab [2021-02-30]"),
        entry("2021-02-03", &[], "[2021-13-01]"),
    ];
    assert_eq!(build_index(&entries).err(), Some(BuildError { entry: 1, at: 3 }));
}

#[test]
fn no_entries_give_an_empty_index() {
    let index = build_index(&Vec::new()).unwrap();
    assert!(index.related.is_empty());
    assert!(index.backlinks.is_empty());
    assert!(index.tags.is_empty());
}

#[test]
fn entries_are_sorted_by_date() {
    assert!(sorted_by_date(&Vec::new()));
    assert!(sorted_by_date(&vec![entry("2021-02-01", &[], "")]));
    assert!(sorted_by_date(&vec![entry("2021-02-01", &[], ""), entry("2021-02-02", &[], "")]));
    assert!(!sorted_by_date(&vec![entry("2021-02-02", &[], ""), entry("2021-02-01", &[], "")]));
    assert!(!sorted_by_date(&vec![entry("2021-02-01", &[], ""), entry("2021-02-01", &[], "")]));
    assert!(!sorted_by_date(&vec![
        entry("2021-02-01", &[], ""),
        entry("2021-02-03", &[], ""),
        entry("2021-02-02", &[], "")
    ]));
}

#[test]
fn records_of_an_entry() {
    let mut e = entry("2021-02-03", &["a", "b", "a"], "hello");
    e.key = EntryKey::new(date("2021-02-03"), Some("TITLE".to_string()));
    let item = all_json_item(&e);
    assert_eq!(item.date, "2021-02-03");
    assert_eq!(item.minutes, 5);
    assert_eq!(item.pubdate, "2021-02-02T15:00:00Z");
    assert_eq!(item.tags, vec!["a", "b"]);
    assert_eq!(item.title, "title of 2021-02-03");
    let daily = daily_json(&e);
    assert_eq!(daily.data, "hello");
    assert_eq!(daily.date, "2021-02-03");
    assert_eq!(daily.html, "<p>hello</p>\n");
    assert_eq!(daily.id_title, Some("TITLE".to_string()));
    assert_eq!(daily.minutes, 5);
    assert_eq!(daily.pubdate, "2021-02-02T15:00:00Z");
    assert_eq!(daily.tags, vec!["a", "b"]);
    assert_eq!(daily.title, "title of 2021-02-03");
}

#[test]
fn markdown_becomes_html() {
    let e = entry("2021-02-03", &[], "# head\n\n[link](https://example.com) *em*");
    assert_eq!(
        daily_json(&e).html,
        "<h1>head</h1>\n<p><a href=\"https://example.com\">link</a> <em>em</em></p>\n"
    );
}

#[test]
fn distinct_strings_keep_the_first() {
    let list: Vec<String> = ["b", "a", "b", "c", "a", "b"].iter().map(|s| s.to_string()).collect();
    assert_eq!(distinct_strings(&list), vec!["b", "a", "c"]);
    assert!(distinct_strings(&Vec::new()).is_empty());
}

#[test]
fn file_names_of_the_records() {
    let d = date("2021-02-03");
    assert_eq!(
        daily_json_file_names(&d, &Some("TITLE".to_string())),
        vec![
            "2021/02/03.json",
            "2021/02/03/index.json",
            "2021/02/03/TITLE.json",
            "2021/02/03/TITLE/index.json"
        ]
    );
    assert_eq!(
        daily_json_file_names(&date("0987-12-01"), &None),
        vec![
            "0987/12/01.json",
            "0987/12/01/index.json",
            "0987/12/01/diary.json",
            "0987/12/01/diary/index.json"
        ]
    );
    assert_eq!(
        related_json_file_names(&d),
        vec!["2021/02/03/related.json", "2021/02/03/related/index.json"]
    );
}

#[test]
fn keys_are_told_apart_by_their_dates() {
    let a = EntryKey::new(date("2021-02-03"), Some("TITLE".to_string()));
    let b = EntryKey::new(date("2021-02-03"), None);
    let c = EntryKey::new(date("2021-02-04"), Some("TITLE".to_string()));
    assert!(a == b);
    assert!(a != c);
    assert!(a < c);
    assert!(!(a < b) && !(b < a));
    assert!(c > b);
    assert_eq!(a.date(), date("2021-02-03"));
    assert_eq!(a.id_title(), &Some("TITLE".to_string()));
    assert_eq!(b.id_title(), &None);
}

#[test]
fn a_whole_build() {
    let entries = vec![
        entry("2020-01-01", &["a", "b"], "see [2020-01-02]"),
        entry("2020-01-02", &["b"], "# hello"),
    ];
    let build = bbn::command::build_json::run(&entries).ok().unwrap();
    assert_eq!(build.all.0.len(), 2);
    assert_eq!(build.all.0[0].date, "2020-01-01");
    assert_eq!(build.all.0[1].tags, vec!["b".to_string()]);
    assert_eq!(build.daily[1].html, "<h1>hello</h1>\n");
    assert_eq!(
        build.daily_files[0],
        vec![
            "2020/01/01.json".to_string(),
            "2020/01/01/index.json".to_string(),
            "2020/01/01/diary.json".to_string(),
            "2020/01/01/diary/index.json".to_string(),
        ]
    );
    assert_eq!(build.related[0].outbound, vec!["2020-01-02".to_string()]);
    assert_eq!(build.related[1].inbound, vec!["2020-01-01".to_string()]);
    assert_eq!(build.related[0].next, vec!["2020-01-02".to_string()]);
    assert_eq!(build.related[1].prev, vec!["2020-01-01".to_string()]);
    assert_eq!(
        build.related_files[1],
        vec![
            "2020/01/02/related.json".to_string(),
            "2020/01/02/related/index.json".to_string(),
        ]
    );
    assert_eq!(build.tags.0.len(), 2);
    assert_eq!(build.tags.0[1].name, "b");
    assert_eq!(build.tags.0[1].count, 2);
    assert_eq!(build.linked.len(), 1);
    assert_eq!(build.linked[0].date, "2020-01-02");
    assert_eq!(build.linked[0].sources, vec!["2020-01-01".to_string()]);
}

#[test]
fn a_build_stops_at_a_malformed_token() {
    let entries = vec![
        entry("2020-01-01", &[], "fine"),
        entry("2020-01-02", &[], "ab [2020-02-30]"),
    ];
    let e = bbn::command::build_json::run(&entries).err().unwrap();
    assert_eq!(e.entry, 1);
    assert_eq!(e.at, 3);
}

#[test]
fn entries_are_put_in_the_order_of_their_dates() {
    let given = vec![
        entry("2021-02-03", &[], "c"),
        entry("2020-12-31", &[], "a"),
        entry("2021-02-04", &[], "d"),
        entry("2021-01-01", &[], "b"),
    ];
    let sorted = sort_by_date(given);
    let bodies: Vec<&str> = sorted.iter().map(|e| e.body.as_str()).collect();
    assert_eq!(bodies, vec!["a", "b", "c", "d"]);
    assert!(sorted_by_date(&sorted));
    assert!(sort_by_date(Vec::new()).is_empty());

    let twice = sort_by_date(vec![
        entry("2021-02-03", &[], "x"),
        entry("2021-02-01", &[], "y"),
        entry("2021-02-03", &[], "z"),
    ]);
    assert_eq!(twice.len(), 3);
    assert_eq!(twice[0].body, "y");
    assert_eq!(twice[1].key.date(), date("2021-02-03"));
    assert_eq!(twice[2].key.date(), date("2021-02-03"));
    assert!(!sorted_by_date(&twice));
}
