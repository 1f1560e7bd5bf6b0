use flutter_rust_api_translate::add;
use flutter_rust_api_translate::file::{added_content, removed_content};
use flutter_rust_api_translate::order::{dedup_strings, same_strings, sort_strings, str_lt};
use flutter_rust_api_translate::paths::{
    join_path, parent_path, strip_extension_path, with_rs_extension_path,
};
use flutter_rust_api_translate::pool::NamePool;
use flutter_rust_api_translate::text::{
    concat_strings, contains_str, contains_string, join_strs, replace_str, split_str,
};

fn strings(v: &[&str]) -> Vec<String> {
    v.iter().map(|s| s.to_string()).collect()
}

#[test]
fn add_adds() {
    assert_eq!(add(2, 2), 4);
    assert_eq!(add(0, 7), 7);
}

#[test]
fn split_keeps_empty_pieces() {
    assert_eq!(split_str("a/b//c", '/'), strings(&["a", "b", "", "c"]));
    assert_eq!(split_str("", '/'), strings(&[""]));
    assert_eq!(split_str("x\n", '\n'), strings(&["x", ""]));
}

#[test]
fn join_puts_separator_between() {
    assert_eq!(join_strs(&strings(&["Clone", "Debug"]), " + "), "Clone + Debug");
    assert_eq!(join_strs(&strings(&["only"]), "_"), "only");
    assert_eq!(join_strs(&Vec::new(), "_"), "");
    assert_eq!(concat_strings(&strings(&["Clone", "Debug"])), "CloneDebug");
}

#[test]
fn replace_is_left_to_right_without_overlap() {
    assert_eq!(replace_str("aaa", "aa", "b"), "ba");
    assert_eq!(replace_str("src/api.rs", ".rs", "_translate.rs"), "src/api_translate.rs");
    assert_eq!(replace_str("no match", "xyz", "q"), "no match");
}

#[test]
fn contains_finds_substrings() {
    assert!(contains_str("mod api_translate;", "api_translate"));
    assert!(!contains_str("mod api;", "api_translate"));
    assert!(contains_str("anything", ""));
    assert!(contains_string(&strings(&["A", "B"]), &"B".to_string()));
    assert!(!contains_string(&strings(&["A", "B"]), &"C".to_string()));
}

#[test]
fn sort_orders_like_std() {
    let v = strings(&["b", "a", "B", "ab", "a"]);
    let mut expected = v.clone();
    expected.sort();
    assert_eq!(sort_strings(&v), expected);
    assert!(str_lt(&"Clone".to_string(), &"Debug".to_string()));
    assert!(!str_lt(&"Debug".to_string(), &"Debug".to_string()));
}

#[test]
fn dedup_keeps_first_occurrences() {
    assert_eq!(dedup_strings(&strings(&["a", "b", "a", "c", "b"])), strings(&["a", "b", "c"]));
    assert!(same_strings(&strings(&["x", "y"]), &strings(&["x", "y"])));
    assert!(!same_strings(&strings(&["x", "y"]), &strings(&["y", "x"])));
}

#[test]
fn paths_like_std_path() {
    assert_eq!(join_path("src", "data"), "src/data");
    assert_eq!(parent_path("src/lib.rs"), "src");
    assert_eq!(strip_extension_path("src/lib.rs"), "src/lib");
    assert_eq!(with_rs_extension_path("src/data"), "src/data.rs");
}

#[test]
fn name_pool_reads_back_what_was_written() {
    let mut pool: NamePool<String> = NamePool::new();
    pool.insert("Debug".to_string(), "A".to_string());
    pool.insert("Clone".to_string(), "B".to_string());
    pool.insert("Debug".to_string(), "C".to_string());
    assert_eq!(pool.entries.len(), 2);
    assert_eq!(pool.get(&"Debug".to_string()), Some(&"C".to_string()));
    assert_eq!(pool.get(&"Clone".to_string()), Some(&"B".to_string()));
    assert_eq!(pool.get(&"Send".to_string()), None);
}

#[test]
fn removal_drops_lines_that_mention_a_key() {
    let root = "mod api;\nmod api_translate;\nmod bridge_generated_bound;\nmod data;";
    let keys = strings(&["api_translate", "mod bridge_generated_bound;"]);
    assert_eq!(removed_content(root, &keys), "mod api;\nmod data;");
}

#[test]
fn addition_separates_with_one_newline() {
    assert_eq!(added_content("mod api;", &strings(&["mod a;", "mod b;"])), "mod api;\nmod a;\nmod b;");
    assert_eq!(added_content("mod api;\n", &strings(&["mod a;"])), "mod api;\nmod a;");
}

#[test]
fn removal_undoes_addition() {
    let root = "mod api;\nmod data;\n";
    let keys = strings(&["api_translate"]);
    let added = added_content(root, &strings(&["mod api_translate;"]));
    assert_eq!(removed_content(&added, &keys), "mod api;\nmod data;");
}

#[test]
fn removing_twice_removes_no_more() {
    let keys = strings(&["api_translate", "mod bridge_generated_bound;"]);
    let once = removed_content("mod api;\nmod api_translate;\n\nmod bridge_generated_bound;\nmod data;\n", &keys);
    assert_eq!(removed_content(&once, &keys), once);
    let all = removed_content("mod api_translate;", &keys);
    assert_eq!(all, "");
    assert_eq!(removed_content(&all, &keys), all);
}
