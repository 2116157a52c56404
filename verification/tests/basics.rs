use bbn::data::date::Date;
use bbn::graph::LinkGraph;
use bbn::index::LinkIndex;
use bbn::lexical::compare;
use bbn::lexical::Order;
use bbn::ordered::contains;
use bbn::ordered::insert;
use bbn::ordered::lower_bound;
use bbn::tags::locate;
use bbn::tags::occurs_before;
use bbn::tags::TagCounter;
use bbn::text::append_decimal;
use bbn::text::char_of_digit;
use bbn::text::chars_of;
use bbn::text::digit_value;
use bbn::text::read_decimal;
use bbn::text::string_of;
use bbn::text::string_of_range;
use bbn::window::page_bounds;
use bbn::window::related_next;
use bbn::window::related_prev;
use bbn::window::related_same;

fn chars(s: &str) -> Vec<char> {
    s.chars().collect()
}

#[test]
fn texts_and_characters() {
    assert_eq!(chars_of("a日b"), vec!['a', '日', 'b']);
    assert_eq!(chars_of(""), Vec::<char>::new());
    assert_eq!(string_of(&chars("a日b")), "a日b");
    assert_eq!(string_of_range(&chars("hello"), 1, 3), "el");
    assert_eq!(string_of_range(&chars("hello"), 2, 2), "");
}

#[test]
fn digits_and_numbers() {
    assert_eq!(digit_value('0'), Some(0));
    assert_eq!(digit_value('9'), Some(9));
    assert_eq!(digit_value('a'), None);
    assert_eq!(digit_value('/'), None);
    assert_eq!(digit_value(':'), None);
    assert_eq!(digit_value('９'), None);
    assert_eq!(char_of_digit(0), '0');
    assert_eq!(char_of_digit(7), '7');
    let mut s = String::from("x");
    append_decimal(&mut s, 7, 3);
    append_decimal(&mut s, 2021, 4);
    append_decimal(&mut s, 12345, 4);
    append_decimal(&mut s, 5, 0);
    assert_eq!(s, "x00720212345");
    assert_eq!(read_decimal(&chars("ab0123cd"), 2, 4), Some(123));
    assert_eq!(read_decimal(&chars("ab0123cd"), 2, 0), Some(0));
    assert_eq!(read_decimal(&chars("ab0123cd"), 1, 4), None);
    assert_eq!(read_decimal(&chars("999999999"), 0, 9), Some(999_999_999));
}

#[test]
fn the_order_of_the_dictionary() {
    let cases = [
        ("", "", Order::Same),
        ("", "a", Order::Before),
        ("a", "", Order::After),
        ("a", "b", Order::Before),
        ("b", "a", Order::After),
        ("ab", "abc", Order::Before),
        ("abd", "abc", Order::After),
        ("Z", "a", Order::Before),
        ("z", "é", Order::Before),
        ("日", "日", Order::Same),
    ];
    for (a, b, expected) in cases {
        assert_eq!(compare(&chars(a), &chars(b)), expected, "{:?} {:?}", a, b);
        assert_eq!(expected == Order::Before, a < b);
        assert_eq!(expected == Order::Same, a == b);
    }
}

#[test]
fn ordered_numbers() {
    let mut v: Vec<u32> = Vec::new();
    for x in [5, 1, 9, 5, 3, 1, 7] {
        let was_there = v.contains(&x);
        assert_eq!(insert(&mut v, x), !was_there);
    }
    assert_eq!(v, vec![1, 3, 5, 7, 9]);
    assert_eq!(lower_bound(&v, 0), 0);
    assert_eq!(lower_bound(&v, 5), 2);
    assert_eq!(lower_bound(&v, 6), 3);
    assert_eq!(lower_bound(&v, 10), 5);
    assert!(contains(&v, 7));
    assert!(!contains(&v, 8));
    assert!(!contains(&Vec::new(), 8));
}

#[test]
fn an_index_of_links() {
    let mut index = LinkIndex::new();
    assert_eq!(index.len(), 0);
    index.add(5, 2);
    index.add(3, 9);
    index.add(5, 1);
    index.add(5, 2);
    assert_eq!(index.touch(4), 1);
    assert_eq!(index.touch(5), 2);
    assert_eq!(index.len(), 3);
    assert_eq!((index.key_at(0), index.key_at(1), index.key_at(2)), (3, 4, 5));
    assert_eq!(index.set_at(0), &vec![9]);
    assert_eq!(index.set_at(1), &Vec::<u32>::new());
    assert_eq!(index.set_at(2), &vec![1, 2]);
    assert_eq!(index.find(4), Some(1));
    assert_eq!(index.find(6), None);
}

#[test]
fn a_graph_of_links() {
    let d = |s: &str| Date::from_str(s).unwrap();
    let mut graph = LinkGraph::new();
    assert!(graph.backlinks().is_empty());
    graph.add_entry(d("2021-02-02"), &vec![d("2021-02-03"), d("2021-02-01")]);
    graph.add_entry(d("2021-02-01"), &vec![d("2021-02-03")]);
    graph.add_entry(d("2021-02-04"), &Vec::new());
    assert_eq!(graph.outbound(d("2021-02-02")), vec![d("2021-02-01"), d("2021-02-03")]);
    assert_eq!(graph.outbound(d("2021-02-04")), Vec::<Date>::new());
    assert_eq!(graph.outbound(d("2021-02-05")), Vec::<Date>::new());
    assert_eq!(graph.inbound(d("2021-02-03")), vec![d("2021-02-01"), d("2021-02-02")]);
    assert_eq!(graph.inbound(d("2021-02-01")), vec![d("2021-02-02")]);
    assert_eq!(graph.inbound(d("2021-02-02")), Vec::<Date>::new());
    let backlinks = graph.backlinks();
    assert_eq!(backlinks.len(), 2);
    assert_eq!(backlinks[0].date, d("2021-02-01"));
    assert_eq!(backlinks[0].sources, vec![d("2021-02-02")]);
    assert_eq!(backlinks[1].date, d("2021-02-03"));
    assert_eq!(backlinks[1].sources, vec![d("2021-02-01"), d("2021-02-02")]);
}

#[test]
fn a_counter_of_tags() {
    let list = |tags: &[&str]| -> Vec<String> { tags.iter().map(|t| t.to_string()).collect() };
    let mut counter = TagCounter::new();
    assert!(counter.items().is_empty());
    counter.add_entry(&list(&["b", "a", "b"]));
    counter.add_entry(&list(&[]));
    counter.add_entry(&list(&["c", "b"]));
    let items: Vec<(String, u32)> =
        counter.items().into_iter().map(|t| (t.name, t.count)).collect();
    assert_eq!(
        items,
        vec![("a".to_string(), 1), ("b".to_string(), 2), ("c".to_string(), 1)]
    );
    let names = vec![chars("a"), chars("c"), chars("e")];
    assert_eq!(locate(&names, &chars("")), (0, false));
    assert_eq!(locate(&names, &chars("a")), (0, true));
    assert_eq!(locate(&names, &chars("b")), (1, false));
    assert_eq!(locate(&names, &chars("e")), (2, true));
    assert_eq!(locate(&names, &chars("f")), (3, false));
    let tags = list(&["x", "y", "x"]);
    assert!(!occurs_before(&tags, 0));
    assert!(!occurs_before(&tags, 1));
    assert!(occurs_before(&tags, 2));
}

#[test]
fn windows_of_dates() {
    let dates: Vec<Date> = (1..=20).map(|i| Date::new(2024, 1, i).unwrap()).collect();
    let days = |v: Vec<Date>| -> Vec<u8> { v.iter().map(|d| d.day_of_month()).collect() };
    assert_eq!(days(related_prev(&dates, 10)), vec![10, 9, 8, 7]);
    assert_eq!(days(related_next(&dates, 10)), vec![15, 14, 13, 12]);
    assert_eq!(days(related_prev(&dates, 2)), vec![2, 1]);
    assert_eq!(days(related_next(&dates, 18)), vec![20]);
    assert_eq!(days(related_prev(&dates, 0)), Vec::<u8>::new());
    assert_eq!(days(related_next(&dates, 19)), Vec::<u8>::new());
    assert_eq!(days(related_same(&dates, 3)), Vec::<u8>::new());
    assert_eq!(page_bounds(20, 9), (5, 14));
    assert_eq!(page_bounds(20, 1), (0, 6));
    assert_eq!(page_bounds(20, 18), (14, 20));
    assert_eq!(page_bounds(20, 30), (20, 20));
    assert_eq!(page_bounds(0, 0), (0, 0));
    assert_eq!(page_bounds(3, usize::MAX), (3, 3));
}

#[test]
fn the_first_that_is_not_below() {
    let v: Vec<u32> = (0..200).map(|i| i * 3 + 1).collect();
    for x in 0..620u32 {
        let expected = v.iter().take_while(|y| **y < x).count();
        assert_eq!(lower_bound(&v, x), expected);
        assert_eq!(contains(&v, x), x % 3 == 1 && x < 600);
    }
    assert_eq!(lower_bound(&Vec::new(), 7), 0);
    let mut w: Vec<u32> = Vec::new();
    for x in [5u32, 1, 9, 5, 3, 1, 7] {
        insert(&mut w, x);
    }
    assert_eq!(w, vec![1, 3, 5, 7, 9]);
}
