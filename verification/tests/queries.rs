use discorde_api::index::{candidates_of, index_key, read_entries, sorted, write_entries};
use discorde_api::json::{parse, to_text};
use discorde_api::query::{has_name, is_below, Condition, Where};
use discorde_api::value::Json;

fn json(text: &str) -> Json {
    parse(text).unwrap()
}

fn entries(values: &[&str]) -> Vec<(Json, String)> {
    values.iter().enumerate().map(|(i, v)| (json(v), format!("d{}", i))).collect()
}

fn select(values: &[&str], cond: Condition, value: &str) -> Vec<String> {
    Where::select(&entries(values), cond, &json(value))
}

fn names(ids: &[&str]) -> Vec<String> {
    ids.iter().map(|s| s.to_string()).collect()
}

#[test]
fn is_below_is_less_or_with_leave_equal() {
    assert!(is_below(&json("1"), &json("2"), true));
    assert!(is_below(&json("1"), &json("2"), false));
    assert!(!is_below(&json("2"), &json("2"), true));
    assert!(is_below(&json("2"), &json("2"), false));
    assert!(!is_below(&json("3"), &json("2"), true));
    assert!(!is_below(&json("3"), &json("2"), false));
}

#[test]
fn get_greater_counts_the_entries_below() {
    let v = entries(&["1", "2", "2", "3", "5"]);
    assert_eq!(Where::get_greater(&v, &json("2"), true, None), (0, 1));
    assert_eq!(Where::get_greater(&v, &json("2"), false, None), (0, 3));
    assert_eq!(Where::get_greater(&v, &json("0"), true, None), (0, 0));
    assert_eq!(Where::get_greater(&v, &json("0"), false, None), (0, 0));
    assert_eq!(Where::get_greater(&v, &json("9"), true, None), (0, 5));
    assert_eq!(Where::get_greater(&v, &json("5"), true, None), (0, 4));
    assert_eq!(Where::get_greater(&v, &json("5"), false, None), (0, 5));
    assert_eq!(Where::get_greater(&v, &json("4"), false, None), (0, 4));
    assert_eq!(Where::get_greater(&v, &json("1"), true, None), (0, 0));
    assert_eq!(Where::get_greater(&v, &json("1"), false, None), (0, 1));
}

#[test]
fn get_greater_stays_inside_its_bounds() {
    let v = entries(&["1", "2", "2", "3", "5"]);
    assert_eq!(Where::get_greater(&v, &json("4"), true, Some((1, 2))), (0, 3));
    assert_eq!(Where::get_greater(&v, &json("0"), true, Some((1, 2))), (0, 0));
    assert_eq!(Where::get_greater(&v, &json("4"), true, Some((4, 4))), (0, 0));
    assert_eq!(Where::get_greater(&v, &json("9"), true, Some((4, 4))), (0, 5));
    assert_eq!(Where::get_greater(&v, &json("2"), false, Some((0, 4))), (0, 3));
}

#[test]
fn get_greater_on_one_entry() {
    let v = entries(&["4"]);
    assert_eq!(Where::get_greater(&v, &json("4"), true, None), (0, 0));
    assert_eq!(Where::get_greater(&v, &json("4"), false, None), (0, 1));
    assert_eq!(Where::get_greater(&v, &json("5"), true, None), (0, 1));
}

#[test]
fn get_less_gives_the_entries_above() {
    let v = entries(&["1", "2", "2", "3", "5"]);
    assert_eq!(Where::get_less(&v, &json("2"), true), (3, 2));
    assert_eq!(Where::get_less(&v, &json("2"), false), (1, 4));
    assert_eq!(Where::get_less(&v, &json("9"), true), (5, 0));
    assert_eq!(Where::get_less(&v, &json("0"), false), (0, 5));
}

#[test]
fn get_equal_gives_the_window_of_equal_entries() {
    let v = entries(&["1", "2", "2", "3", "5"]);
    assert_eq!(Where::get_equal(&v, &json("2")), (1, 2));
    assert_eq!(Where::get_equal(&v, &json("4")), (4, 0));
    assert_eq!(Where::get_equal(&v, &json("0")), (0, 0));
    assert_eq!(Where::get_equal(&v, &json("5")), (4, 1));
    assert_eq!(Where::get_equal(&v, &json("9")), (5, 0));
}

#[test]
fn select_answers_each_condition() {
    let v = ["1", "2", "2", "3", "5"];
    assert_eq!(select(&v, Condition::Equal, "2"), names(&["d1", "d2"]));
    assert_eq!(select(&v, Condition::NotEqual, "2"), names(&["d0", "d3", "d4"]));
    assert_eq!(select(&v, Condition::Less, "3"), names(&["d0", "d1", "d2"]));
    assert_eq!(select(&v, Condition::LessOrEqual, "3"), names(&["d0", "d1", "d2", "d3"]));
    assert_eq!(select(&v, Condition::Greater, "2"), names(&["d3", "d4"]));
    assert_eq!(select(&v, Condition::GreaterOrEqual, "2"), names(&["d1", "d2", "d3", "d4"]));
    assert_eq!(select(&v, Condition::Equal, "4"), names(&[]));
    assert_eq!(select(&v, Condition::NotEqual, "4"), names(&["d0", "d1", "d2", "d3", "d4"]));
    assert_eq!(select(&v, Condition::Less, "1"), names(&[]));
    assert_eq!(select(&v, Condition::Greater, "5"), names(&[]));
    assert_eq!(select(&v, Condition::GreaterOrEqual, "0"), names(&["d0", "d1", "d2", "d3", "d4"]));
}

#[test]
fn select_on_an_empty_list_finds_nothing() {
    assert!(select(&[], Condition::Equal, "1").is_empty());
    assert!(select(&[], Condition::NotEqual, "1").is_empty());
    assert!(select(&[], Condition::Less, "1").is_empty());
    assert!(select(&[], Condition::GreaterOrEqual, "1").is_empty());
}

#[test]
fn select_on_strings_and_booleans() {
    let s = [r#""ann""#, r#""bob""#, r#""cid""#];
    assert_eq!(select(&s, Condition::Greater, r#""b""#), names(&["d1", "d2"]));
    assert_eq!(select(&s, Condition::LessOrEqual, r#""bob""#), names(&["d0", "d1"]));
    let b = ["false", "false", "true"];
    assert_eq!(select(&b, Condition::Equal, "false"), names(&["d0", "d1"]));
    assert_eq!(select(&b, Condition::Greater, "false"), names(&["d2"]));
    assert_eq!(select(&b, Condition::Less, "true"), names(&["d0", "d1"]));
}

#[test]
fn select_agrees_with_a_scan_on_every_sorted_list() {
    let pool = ["-2", "0", "0.5", "1", "1", "3", "3", "3", "7"];
    let probes = ["-3", "-2", "0", "0.25", "1", "2", "3", "7", "8"];
    let conds = [
        Condition::Equal,
        Condition::NotEqual,
        Condition::Less,
        Condition::LessOrEqual,
        Condition::Greater,
        Condition::GreaterOrEqual,
    ];
    for n in 0..pool.len() + 1 {
        let list = &pool[..n];
        for probe in probes.iter() {
            let p: f64 = probe.parse().unwrap();
            for cond in conds.iter() {
                let mut scan = Vec::new();
                for (i, v) in list.iter().enumerate() {
                    let x: f64 = v.parse().unwrap();
                    let keep = match cond {
                        Condition::Equal => x == p,
                        Condition::NotEqual => x != p,
                        Condition::Less => x < p,
                        Condition::LessOrEqual => x <= p,
                        Condition::Greater => x > p,
                        Condition::GreaterOrEqual => x >= p,
                    };
                    if keep {
                        scan.push(format!("d{}", i));
                    }
                }
                assert_eq!(select(list, *cond, probe), scan, "{:?} {} on {:?}", cond, probe, list);
            }
        }
    }
}

#[test]
fn a_list_of_two_kinds_is_answered_by_its_cuts() {
    let mixed = ["true", "1", r#""a""#, r#""z""#];
    assert_eq!(select(&mixed, Condition::GreaterOrEqual, r#""m""#), names(&["d3"]));
}

#[test]
fn sorted_orders_by_value_and_keeps_ties_in_place() {
    let out = sorted(&entries(&["3", "1", "2", "1", "3.0", "-1"]));
    let got: Vec<(String, String)> = out.iter().map(|e| (to_text(&e.0).unwrap(), e.1.clone())).collect();
    let want: Vec<(String, String)> = [("-1", "d5"), ("1", "d1"), ("1", "d3"), ("2", "d2"), ("3", "d0"), ("3.0", "d4")]
        .iter()
        .map(|(v, i)| (v.to_string(), i.to_string()))
        .collect();
    assert_eq!(got, want);
    assert!(sorted(&entries(&[])).is_empty());
}

#[test]
fn candidates_are_the_documents_with_a_scalar_under_the_key() {
    let docs = vec![
        ("a".to_string(), r#"{"k":3,"x":1}"#.to_string()),
        ("b".to_string(), r#"{"x":1}"#.to_string()),
        ("c".to_string(), r#"{"k":[1]}"#.to_string()),
        ("d".to_string(), r#"{"k":null}"#.to_string()),
        ("e".to_string(), "not json".to_string()),
        ("f".to_string(), r#"[{"k":1}]"#.to_string()),
        ("g".to_string(), r#"{"k":"s"}"#.to_string()),
        ("h".to_string(), r#"{"k":false}"#.to_string()),
    ];
    let found = candidates_of(&docs, &"k".to_string());
    let got: Vec<(String, String)> = found.iter().map(|e| (to_text(&e.0).unwrap(), e.1.clone())).collect();
    let want: Vec<(String, String)> =
        [("3", "a"), ("\"s\"", "g"), ("false", "h")].iter().map(|(v, i)| (v.to_string(), i.to_string())).collect();
    assert_eq!(got, want);
}

#[test]
fn an_index_list_is_written_and_read_back() {
    let list = write_entries(&entries(&["1", r#""x""#]));
    assert_eq!(to_text(&list).unwrap(), r#"[[1,"d0"],["x","d1"]]"#);
    let back = read_entries(&list).unwrap();
    assert_eq!(back.len(), 2);
    assert_eq!(back[1].1, "d1");
    assert_eq!(to_text(&back[1].0).unwrap(), r#""x""#);
}

#[test]
fn read_entries_refuses_what_is_no_list_of_entries() {
    assert!(read_entries(&json(r#"{"a":1}"#)).is_none());
    assert!(read_entries(&json(r#"[1]"#)).is_none());
    assert!(read_entries(&json(r#"[[1]]"#)).is_none());
    assert!(read_entries(&json(r#"[[1,2]]"#)).is_none());
    assert!(read_entries(&json(r#"[[1,"a"],3]"#)).is_none());
    assert_eq!(read_entries(&json(r#"[]"#)).unwrap().len(), 0);
    assert_eq!(read_entries(&json(r#"[[1,"a",true]]"#)).unwrap().len(), 1);
}

#[test]
fn index_key_replaces_or_removes_the_list_of_a_field() {
    let docs = vec![
        ("a".to_string(), r#"{"k":3}"#.to_string()),
        ("b".to_string(), r#"{"k":1}"#.to_string()),
    ];
    let mut fields = vec![("k".to_string(), json("[]")), ("old".to_string(), json(r#"[[1,"q"]]"#))];
    index_key(&mut fields, &docs, &"k".to_string());
    index_key(&mut fields, &docs, &"old".to_string());
    index_key(&mut fields, &docs, &"none".to_string());
    assert_eq!(to_text(&Json::Object(fields)).unwrap(), r#"{"k":[[1,"b"],[3,"a"]]}"#);
}

#[test]
fn has_name_looks_a_name_up() {
    let list = names(&["a", "b"]);
    assert!(has_name(&list, &"a".to_string()));
    assert!(has_name(&list, &"b".to_string()));
    assert!(!has_name(&list, &"c".to_string()));
    assert!(!has_name(&names(&[]), &"a".to_string()));
}
