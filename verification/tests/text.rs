use test_each_file::ident::is_reserved_word;
use test_each_file::text::{clone_texts, contains_text, same_text};

fn strings(items: &[&str]) -> Vec<String> {
    items.iter().map(|item| item.to_string()).collect()
}

#[test]
fn tells_the_same_text() {
    assert!(same_text("", ""));
    assert!(same_text("async", "async"));
    assert!(same_text("größe", "größe"));
    assert!(!same_text("async", "asynd"));
    assert!(!same_text("async", "asyn"));
    assert!(!same_text("asyn", "async"));
    assert!(!same_text("", "a"));
    assert!(!same_text("a", ""));
    assert!(!same_text("e", "é"));
}

#[test]
fn finds_a_text_in_a_row() {
    let row = strings(&["sum", "max", ""]);
    assert!(contains_text(&row, &"sum".to_string()));
    assert!(contains_text(&row, &"".to_string()));
    assert!(!contains_text(&row, &"su".to_string()));
    assert!(!contains_text(&vec![], &"sum".to_string()));
}

#[test]
fn copies_a_row() {
    let row = strings(&["tokio::test", "", "ignore"]);
    assert_eq!(clone_texts(&row), row);
    assert_eq!(clone_texts(&vec![]), Vec::<String>::new());
}

#[test]
fn knows_the_reserved_words() {
    for word in ["as", "fn", "Self", "self", "yield", "async", "try", "gen", "typeof"] {
        assert!(is_reserved_word(word), "{word}");
    }
    for word in ["", "a", "union", "r#fn", "Fn", "asyncs", "test_fn", "in_"] {
        assert!(!is_reserved_word(word), "{word}");
    }
}
