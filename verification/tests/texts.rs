use sheet_shadow_core::coord::key_of;
use sheet_shadow_core::entries::{map_get, map_put};
use sheet_shadow_core::inventory::unique_sorted_values;
use sheet_shadow_core::pattern::{cut_first, find_all, find_first, is_match, start_of_last, substitute};
use sheet_shadow_core::splice::{insert_at_index, replace_at, splice, with_xml_attr, without_xml_attr};
use sheet_shadow_core::text::{
    eq_nocase, find_text, is_before, join, number_text, parse_size, replace, rfind_text,
    rsplit_once, sort_texts, split_at_char, split_once, split_words, to_lower, to_upper, trimmed,
    without_start,
};
use sheet_shadow_core::values::{cell_repr, days_in_month, excel_serial_to_date, is_leap_year};
use sheet_shadow_core::xml::{attribute, node_text, parse, xml_escape};

fn owned(list: &[&str]) -> Vec<String> {
    list.iter().map(|s| s.to_string()).collect()
}

#[test]
fn searching_texts() {
    assert_eq!(find_text("größer", "ß"), Some(3));
    assert_eq!(find_text("abc", ""), Some(0));
    assert_eq!(find_text("abc", "x"), None);
    assert_eq!(rfind_text("a.b.c", "."), Some(3));
    assert_eq!(split_once("a=b=c", "="), Some(("a".to_string(), "b=c".to_string())));
    assert_eq!(rsplit_once("a=b=c", "="), Some(("a=b".to_string(), "c".to_string())));
    assert_eq!(split_at_char("a,,b", ','), owned(&["a", "", "b"]));
    assert_eq!(split_words("  a  b\t"), owned(&["a", "b"]));
    assert_eq!(join(&owned(&["a", "b"]), ", "), "a, b");
    assert_eq!(replace("aaa", "aa", "b"), "ba");
    assert_eq!(without_start("ss_ss_a", "ss_"), "a");
}

#[test]
fn letters_and_numbers() {
    assert_eq!(to_upper("aßé1"), "Aßé1");
    assert_eq!(to_lower("ABÉ"), "abÉ");
    assert!(eq_nocase("AbC", "aBc"));
    assert_eq!(trimmed("\u{a0} x \n"), "x");
    assert_eq!(number_text(0), "0");
    assert_eq!(number_text(u64::MAX), "18446744073709551615");
    assert_eq!(parse_size("0042"), Some(42));
    assert_eq!(parse_size("+7"), Some(7));
    assert_eq!(parse_size(""), None);
    assert_eq!(parse_size("18446744073709551616"), None);
}

#[test]
fn ordering_texts() {
    assert!(is_before("a", "ab"));
    assert!(is_before("Z", "a"));
    assert!(!is_before("a", "a"));
    assert_eq!(sort_texts(owned(&["b", "a", "b", "A"])), owned(&["A", "a", "b", "b"]));
    assert_eq!(unique_sorted_values(&owned(&["b", "a", "b"])), owned(&["a", "b"]));
}

#[test]
fn patterns() {
    let (hits, rest) = find_all("([A-Z])([0-9])?", "xA1yBz");
    assert_eq!(rest, "z");
    assert_eq!(hits.len(), 2);
    assert_eq!(hits[0].0, "x");
    assert_eq!(hits[0].1, vec![Some("A1".to_string()), Some("A".to_string()), Some("1".to_string())]);
    assert_eq!(hits[1].1, vec![Some("B".to_string()), Some("B".to_string()), None]);
    let (none, all) = find_all("(", "text");
    assert!(none.is_empty());
    assert_eq!(all, "text");
    assert!(is_match("^a+$", "aaa"));
    assert!(!is_match("^a+$", "aab"));
    assert_eq!(find_first("b(c)", "abcbc").unwrap()[1], Some("c".to_string()));
    assert_eq!(cut_first("b.", "abcbd"), Some(("a".to_string(), "bc".to_string())));
    assert_eq!(start_of_last("b", "abcb"), Some(3));
    assert_eq!(substitute("b+", "abbcb", "x"), "axcx");
}

#[test]
fn splicing() {
    assert_eq!(replace_at("abcdef", 1, 3, "X"), "aXdef");
    assert_eq!(insert_at_index("abc", 1, "X"), "aXbc");
    assert_eq!(
        splice("abcdef", vec![(4, (5, "Y".to_string())), (0, (2, "X".to_string()))]),
        "XcdYf"
    );
    assert_eq!(with_xml_attr("<c r=\"A1\" s=\"1\">", "s", "2"), "<c r=\"A1\" s=\"2\">");
    assert_eq!(with_xml_attr("<c r=\"A1\">", "t", "a<b"), "<c r=\"A1\" t=\"a&lt;b\">");
    assert_eq!(without_xml_attr("<c r=\"A1\" s=\"1\">", "s"), "<c r=\"A1\">");
}

#[test]
fn parsing_xml() {
    let nodes = match parse("<a x=\"1\"><b>t</b></a>") {
        Ok(nodes) => nodes,
        Err(e) => panic!("{e}"),
    };
    let names: Vec<&str> = nodes.iter().map(|n| n.name.as_str()).collect();
    assert!(names.contains(&"a"));
    assert!(names.contains(&"b"));
    let a = nodes.iter().find(|n| n.name == "a").unwrap();
    assert_eq!(attribute(a, "x"), Some("1".to_string()));
    assert_eq!((a.start, a.end), (0, 21));
    let b = nodes.iter().find(|n| n.name == "b").unwrap();
    assert_eq!(node_text(b), "t");
    assert_eq!((b.start, b.end), (9, 17));
    assert!(parse("<a>").is_err());
}

#[test]
fn places_count_characters() {
    let nodes = parse("<a>ä€<b/></a>").unwrap();
    let b = nodes.iter().find(|n| n.name == "b").unwrap();
    assert_eq!((b.start, b.end), (5, 9));
}

#[test]
fn escaping() {
    let odd = "a<b> & \"c\" 'd' &amp;";
    assert_eq!(xml_escape(odd), "a&lt;b&gt; &amp; &quot;c&quot; &apos;d&apos; &amp;amp;");
    let nodes = parse(&format!("<t>{}</t>", xml_escape(odd))).unwrap();
    let t = nodes.iter().find(|n| n.name == "t").unwrap();
    assert_eq!(node_text(t), odd);
}

#[test]
fn entries_of_a_list() {
    let mut list: Vec<(sheet_shadow_core::coord::Key, String)> = vec![];
    map_put(&mut list, key_of("a", 1, 1), "x".to_string());
    map_put(&mut list, key_of("a", 1, 2), "y".to_string());
    map_put(&mut list, key_of("a", 1, 1), "z".to_string());
    assert_eq!(list.len(), 2);
    assert_eq!(map_get(&list, &key_of("a", 1, 1)), Some(&"z".to_string()));
    assert_eq!(map_get(&list, &key_of("b", 1, 1)), None);
}

#[test]
fn dates() {
    assert_eq!(excel_serial_to_date(0), None);
    assert_eq!(excel_serial_to_date(1), Some("1900-01-01".to_string()));
    assert_eq!(excel_serial_to_date(59), Some("1900-02-28".to_string()));
    assert_eq!(excel_serial_to_date(60), Some("1900-02-28".to_string()));
    assert_eq!(excel_serial_to_date(61), Some("1900-03-01".to_string()));
    assert_eq!(excel_serial_to_date(36586), Some("2000-03-01".to_string()));
    assert_eq!(excel_serial_to_date(45000), Some("2023-03-15".to_string()));
    assert!(is_leap_year(2000) && is_leap_year(2024) && !is_leap_year(1900));
    assert_eq!(days_in_month(2023, 2), 28);
    assert_eq!(cell_repr(&key_of("S", 2, 3)), "CellCoord(sheet='S', row=2, col=3)");
}
