use test_each_file::names::generate_name;
use test_each_file::StringHashSet;

fn name(text: &str) -> String {
    text.to_string()
}

#[test]
fn a_free_name_is_taken_as_it_is() {
    let mut taken = StringHashSet::new();
    assert_eq!(generate_name(name("a_b"), &mut taken), "a_b");
    assert!(taken.contains("a_b"));
    assert_eq!(taken.len(), 1);
}

#[test]
fn a_taken_name_gets_the_next_free_number() {
    let mut taken = StringHashSet::new();
    assert_eq!(generate_name(name("a_b"), &mut taken), "a_b");
    assert_eq!(generate_name(name("a_b"), &mut taken), "a_b_2");
    assert_eq!(generate_name(name("a_b"), &mut taken), "a_b_3");
    assert_eq!(generate_name(name("other"), &mut taken), "other");
    assert_eq!(generate_name(name("a_b"), &mut taken), "a_b_4");
    assert_eq!(taken.len(), 5);
}

#[test]
fn a_number_that_is_taken_is_passed_over() {
    let mut taken = StringHashSet::new();
    assert_eq!(generate_name(name("x_2"), &mut taken), "x_2");
    assert_eq!(generate_name(name("x"), &mut taken), "x");
    assert_eq!(generate_name(name("x"), &mut taken), "x_3");
    assert_eq!(generate_name(name("x_2"), &mut taken), "x_2_2");
}

#[test]
fn numbers_go_past_nine() {
    let mut taken = StringHashSet::new();
    let mut last = String::new();
    for _ in 0..12 {
        last = generate_name(name("n"), &mut taken);
    }
    assert_eq!(last, "n_12");
    assert!(taken.contains("n_10"));
    assert_eq!(taken.len(), 12);
}

#[test]
fn no_two_siblings_get_the_same_name() {
    let mut taken = StringHashSet::new();
    let mut names = Vec::new();
    for raw in ["a", "a", "a_2", "a", "b", "a_2", "b_2", "b"] {
        names.push(generate_name(name(raw), &mut taken));
    }
    for i in 0..names.len() {
        for j in 0..i {
            assert_ne!(names[i], names[j]);
        }
    }
    assert_eq!(names, ["a", "a_2", "a_2_2", "a_3", "b", "a_2_3", "b_2", "b_3"]);
}
