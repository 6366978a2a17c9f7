use smlang_macros::definition::find_lifetimes;
use smlang_macros::model::{find_name, insert_name, DataType, Lifetimes};
use smlang_macros::text::{concat_strings, join_strings, same_text, sort_names, text_before};

fn strings(items: &[&str]) -> Vec<String> {
    items.iter().map(|s| s.to_string()).collect()
}

fn lifetimes(items: &[&str]) -> Lifetimes {
    Lifetimes { lifetimes: strings(items) }
}

#[test]
fn same_text_compares_characters() {
    assert!(same_text("", ""));
    assert!(same_text("State1", "State1"));
    assert!(!same_text("State1", "State2"));
    assert!(!same_text("State", "State1"));
    assert!(same_text("é", "é"));
}

#[test]
fn text_before_is_the_order_of_strings() {
    assert!(text_before("", ""));
    assert!(text_before("", "a"));
    assert!(!text_before("a", ""));
    assert!(text_before("State1", "State1"));
    assert!(text_before("State1", "State2"));
    assert!(!text_before("State2", "State1"));
    assert!(text_before("State", "State1"));
    assert!(text_before("B", "a"));
    assert!(text_before("z", "é"));
    for (a, b) in [("Idle", "Idle2"), ("a", "B"), ("ab", "a"), ("é", "e")] {
        assert_eq!(text_before(a, b), a <= b);
        assert_eq!(text_before(b, a), b <= a);
    }
}

#[test]
fn sort_names_sorts_as_strings_sort() {
    let names = strings(&["State3", "State1", "Idle", "State2", "idle", "State10"]);
    let mut expected = names.clone();
    expected.sort();
    assert_eq!(sort_names(&names), expected);
    assert_eq!(sort_names(&strings(&[])), strings(&[]));
    assert_eq!(sort_names(&strings(&["b", "a", "b"])), strings(&["a", "b", "b"]));
}

#[test]
fn join_and_concat() {
    assert_eq!(join_strings(&strings(&[]), ", "), "");
    assert_eq!(join_strings(&strings(&["a"]), ", "), "a");
    assert_eq!(join_strings(&strings(&["a", "b", "c"]), ", "), "a, b, c");
    assert_eq!(concat_strings(&strings(&["a", "", "bc"])), "abc");
    assert_eq!(concat_strings(&strings(&[])), "");
}

#[test]
fn find_name_gives_the_first_place() {
    let names = strings(&["a", "b", "a"]);
    assert_eq!(find_name(&names, "a"), Some(0));
    assert_eq!(find_name(&names, "b"), Some(1));
    assert_eq!(find_name(&names, "c"), None);
}

#[test]
fn insert_name_keeps_each_name_once() {
    let mut names = strings(&["a"]);
    insert_name(&mut names, "b");
    insert_name(&mut names, "a");
    insert_name(&mut names, "c");
    assert_eq!(names, strings(&["a", "b", "c"]));
}

#[test]
fn lifetimes_insert_extend_minus() {
    let mut l = Lifetimes::new();
    assert!(l.lifetimes.is_empty());
    l.insert("'a");
    l.insert("'b");
    l.insert("'a");
    assert_eq!(l.lifetimes, strings(&["'a", "'b"]));
    assert!(l.contains("'a"));
    assert!(!l.contains("'c"));
    l.extend(&lifetimes(&["'c", "'b", "'d"]));
    assert_eq!(l.lifetimes, strings(&["'a", "'b", "'c", "'d"]));
    let rest = l.minus(&lifetimes(&["'b", "'d", "'x"]));
    assert_eq!(rest.lifetimes, strings(&["'a", "'c"]));
    assert_eq!(l.minus(&l).lifetimes, strings(&[]));
}

#[test]
fn find_lifetimes_reads_each_lifetime_once() {
    assert_eq!(find_lifetimes("u8").lifetimes, strings(&[]));
    assert_eq!(find_lifetimes("& 'a u8").lifetimes, strings(&["'a"]));
    assert_eq!(find_lifetimes("&'a [u8]").lifetimes, strings(&["'a"]));
    assert_eq!(
        find_lifetimes("Wrapper < 'b , 'a , & 'b str >").lifetimes,
        strings(&["'b", "'a"])
    );
    assert_eq!(find_lifetimes("& 'long_name T").lifetimes, strings(&["'long_name"]));
    assert_eq!(find_lifetimes("Tagged < 'x' > ").lifetimes, strings(&[]));
    assert_eq!(find_lifetimes("Tagged < 'x' , 'y >").lifetimes, strings(&["'y"]));
    assert_eq!(find_lifetimes("'").lifetimes, strings(&[]));
    assert_eq!(find_lifetimes("' a").lifetimes, strings(&[]));
    assert_eq!(find_lifetimes("&'a").lifetimes, strings(&["'a"]));
}

#[test]
fn data_type_is_read_by_syn() {
    let t = DataType::parse("MyStateData").unwrap();
    assert_eq!(t.tokens, "MyStateData");
    assert!(!t.is_reference);
    let t = DataType::parse("&'a   [u8]").unwrap();
    assert_eq!(t.tokens, "& 'a [u8]");
    assert!(t.is_reference);
    let t = DataType::parse("Option<&u8>").unwrap();
    assert_eq!(t.tokens, "Option < & u8 >");
    assert!(!t.is_reference);
    let t = DataType::parse("( & u8 )").unwrap();
    assert!(!t.is_reference);
    assert!(DataType::parse("").is_none());
    assert!(DataType::parse("u8 u8").is_none());
    assert!(DataType::parse("Vec<").is_none());
    assert!(DataType::parse("(u8").is_none());
}

#[test]
fn data_types_are_the_same_where_they_print_alike() {
    let a = DataType::parse("Vec<u8>").unwrap();
    let b = DataType::parse("Vec < u8 >").unwrap();
    let c = DataType::parse("Vec<u16>").unwrap();
    assert!(a.same(&b));
    assert!(!a.same(&c));
}
