use llm_free_gateway_v2::table::Table;
use llm_free_gateway_v2::text::{
    join, parse_u64, push_decimal, strip_prefix, text_before, trim, trim_before, trim_end_char,
    trim_end_str,
};

fn decimal(n: u64) -> String {
    let mut out = String::new();
    push_decimal(&mut out, n);
    out
}

#[test]
fn decimals_read_back() {
    for n in [0, 7, 10, 99, 100, 180_000, u64::MAX] {
        assert_eq!(decimal(n), n.to_string());
        assert_eq!(parse_u64(&decimal(n)), Some(n));
    }
    assert_eq!(parse_u64("007"), Some(7));
}

#[test]
fn texts_are_ordered_as_std_orders_them() {
    let words = ["", "a", "aa", "ab", "b", "B", "é", "\u{10000}", "\u{ffff}"];
    for a in words {
        for b in words {
            assert_eq!(text_before(a, b), a < b, "{:?} {:?}", a, b);
        }
    }
}

#[test]
fn trimming() {
    assert_eq!(trim("\u{2003} a b\t\r\n"), "a b");
    assert_eq!(trim(" \t"), "");
    assert_eq!(trim_before(" 1.2.3.4 , 5", ','), "1.2.3.4");
    assert_eq!(trim_before(" 1.2.3.4 ", ','), "1.2.3.4");
    assert_eq!(trim_before(",x", ','), "");
    assert_eq!(trim_end_char("http://h//", '/'), "http://h");
    assert_eq!(trim_end_char("//", '/'), "");
    assert_eq!(trim_end_str("a/b/b", "/b"), "a");
    assert_eq!(trim_end_str("a", ""), "a");
    assert_eq!(strip_prefix("Bearer x", "Bearer ").as_deref(), Some("x"));
    assert_eq!(strip_prefix("Bear", "Bearer "), None);
    assert_eq!(join(&vec![], ", "), "");
    assert_eq!(join(&vec!["a".to_string(), "".to_string(), "b".to_string()], ", "), "a, , b");
}

#[test]
fn tables_keep_one_value_per_key_in_order() {
    let mut table: Table<String, u32> = Table::new();
    for (key, value) in [("b", 1), ("a", 2), ("c", 3), ("a", 4)] {
        table.insert(key.to_string(), value);
    }
    assert_eq!(table.len(), 3);
    let entries: Vec<(&str, u32)> =
        (0..table.len()).map(|i| (table.key_at(i).as_str(), *table.value_at(i))).collect();
    assert_eq!(entries, vec![("a", 4), ("b", 1), ("c", 3)]);
    assert_eq!(table.get(&"b".to_string()), Some(&1));
    assert_eq!(table.get(&"d".to_string()), None);
    assert!(!table.contains_key(&"".to_string()));
}
