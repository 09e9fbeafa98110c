use astro_obsidian::links::extract_links;

fn names(text: &str) -> Vec<String> {
    extract_links(text)
}

#[test]
fn single_link() {
    assert_eq!(names("see [[A]] here"), vec!["A".to_string()]);
}

#[test]
fn links_in_order_with_repeats() {
    assert_eq!(
        names("[[X]] [[X]] and [[first-note]][[Zed]]"),
        vec!["X".to_string(), "X".to_string(), "first-note".to_string(), "Zed".to_string()]
    );
}

#[test]
fn empty_link_is_extracted() {
    assert_eq!(names("a [[]] b"), vec!["".to_string()]);
}

#[test]
fn no_links() {
    assert!(names("plain text, [single] brackets, ]] [[ open").is_empty());
    assert!(names("").is_empty());
}

#[test]
fn rejects_characters_outside_class() {
    assert!(names("[[a b]] [[a1]] [[a_b]] [[a^b]] [[ä]]").is_empty());
}

#[test]
fn extra_open_bracket() {
    assert_eq!(names("[[[a]]"), vec!["a".to_string()]);
}

#[test]
fn unclosed_then_closed() {
    assert_eq!(names("[[a [[b]]"), vec!["b".to_string()]);
}

#[test]
fn non_ascii_text_around_links() {
    assert_eq!(names("é[[Note]]ü [[B-c]]"), vec!["Note".to_string(), "B-c".to_string()]);
}

#[test]
fn extra_closing_bracket() {
    assert_eq!(names("[[a]]]"), vec!["a".to_string()]);
}
