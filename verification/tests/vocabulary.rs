use leptos_locatorjs::location_id;
use leptos_locatorjs::vocab::is_tag_name;
use leptos_locatorjs::vocab::is_template_name;

#[test]
fn tag_vocabulary_matches_div_and_h_digits() {
    assert!(is_tag_name(&"div".to_string()));
    assert!(is_tag_name(&"h1".to_string()));
    assert!(is_tag_name(&"h2".to_string()));
    assert!(is_tag_name(&"h5".to_string()));
    assert!(is_tag_name(&"h9".to_string()));
}

#[test]
fn tag_vocabulary_rejects_near_misses() {
    assert!(!is_tag_name(&"hx".to_string()));
    assert!(!is_tag_name(&"h10".to_string()));
    assert!(!is_tag_name(&"header".to_string()));
    assert!(!is_tag_name(&"ha".to_string()));
    assert!(!is_tag_name(&"h0".to_string()));
    assert!(!is_tag_name(&"h".to_string()));
    assert!(!is_tag_name(&"divs".to_string()));
    assert!(!is_tag_name(&"di".to_string()));
    assert!(!is_tag_name(&"".to_string()));
    assert!(!is_tag_name(&"DIV".to_string()));
}

#[test]
fn location_id_joins_file_and_line() {
    assert_eq!(location_id("src/app.rs", 7), "src/app.rs::7");
    assert_eq!(location_id("lib.rs", 0), "lib.rs::0");
    assert_eq!(location_id("a/b.rs", 12034), "a/b.rs::12034");
    assert_eq!(location_id("x.rs", u64::MAX), format!("x.rs::{}", u64::MAX));
}

#[test]
fn template_name_is_exactly_view() {
    assert!(is_template_name(&"view".to_string()));
    assert!(!is_template_name(&"views".to_string()));
    assert!(!is_template_name(&"vie".to_string()));
    assert!(!is_template_name(&"View".to_string()));
    assert!(!is_template_name(&"".to_string()));
}
