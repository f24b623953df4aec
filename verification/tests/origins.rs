use uuid::Uuid;
use wherefrom::origins::{selected_origins, wherefrom_origins, OriginValue};

#[test]
fn skips_non_string_values() {
    let first_value = format!("https://example.com/{}", Uuid::new_v4());
    let second_value = format!("https://example.com/{}", Uuid::new_v4());
    let values = vec![
        OriginValue::Text(first_value.clone()),
        OriginValue::Other,
        OriginValue::Text(second_value.clone()),
    ];

    assert_eq!(wherefrom_origins(&values), vec![first_value, second_value]);
}

#[test]
fn no_values_give_no_origins() {
    assert_eq!(wherefrom_origins(&vec![]), Vec::<String>::new());
    assert_eq!(
        wherefrom_origins(&vec![OriginValue::Other, OriginValue::Other]),
        Vec::<String>::new()
    );
}

fn owned(words: &[&str]) -> Vec<String> {
    words.iter().map(|w| w.to_string()).collect()
}

#[test]
fn selects_first_origin_by_default() {
    assert_eq!(selected_origins(owned(&["a", "b", "c"]), false), owned(&["a"]));
    assert_eq!(selected_origins(owned(&[]), false), owned(&[]));
}

#[test]
fn selects_every_origin_with_all() {
    assert_eq!(selected_origins(owned(&["a", "b", "c"]), true), owned(&["a", "b", "c"]));
}
