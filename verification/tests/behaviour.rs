use amstock::auth::session_token;
use amstock::auth::{hash_password, COOKIE_NAME};
use amstock::models::{CreateElement, Element};
use amstock::printing::sort_children;
use amstock::routes::build_element_lookup;
use amstock::validation::validate_element;
use argon2::{Argon2, PasswordHash, PasswordVerifier};
use std::collections::HashMap;

#[test]
fn reads_valid_session_cookie_from_multiple_cookies() {
    let token = "a".repeat(64);
    let header = format!("theme=light; {COOKIE_NAME}={token}; other=1");
    assert_eq!(session_token(&header), Some(token.clone()));
}

#[test]
fn hashes_and_verifies_password() {
    let hash = hash_password("correct horse battery staple").unwrap();
    let parsed = PasswordHash::new(&hash).unwrap();
    assert!(Argon2::default()
        .verify_password(b"correct horse battery staple", &parsed)
        .is_ok());
}

fn printing_element(serial: i64, tag_a: &str, tag_b: i64, tag_c: i64) -> Element {
    Element {
        serial,
        kind: "item".into(),
        tag_a: tag_a.into(),
        tag_b,
        tag_c,
        name: format!("元素 {serial}"),
        description: String::new(),
        quantity_bits: 1.0f64.to_bits(),
        unit: String::new(),
        parent_serial: None,
        image_mime: None,
        created_at: String::new(),
        updated_at: String::new(),
        deleted_at: None,
    }
}

#[test]
fn b_label_children_sort_by_full_identifier_segments() {
    let mut children = vec![
        printing_element(3, "B", 0, 0),
        printing_element(2, "A", 2, 0),
        printing_element(4, "A", 1, 9),
        printing_element(1, "A", 1, 2),
    ];

    sort_children(&mut children);

    let codes: Vec<_> = children.iter().map(Element::code).collect();
    assert_eq!(
        codes,
        [
            "A-01-02-000001",
            "A-01-09-000004",
            "A-02-00-000002",
            "B-00-00-000003"
        ]
    );
}

fn routes_element(serial: i64, parent_serial: Option<i64>, name: &str) -> Element {
    Element {
        serial,
        kind: if name == "物品" { "item" } else { "container" }.into(),
        tag_a: "A".into(),
        tag_b: 0,
        tag_c: 0,
        name: name.into(),
        description: String::new(),
        quantity_bits: 1.0f64.to_bits(),
        unit: String::new(),
        parent_serial,
        image_mime: None,
        created_at: "2026-01-01 00:00:00".into(),
        updated_at: "2026-01-01 00:00:00".into(),
        deleted_at: None,
    }
}

#[test]
fn lookup_path_runs_from_outermost_container_to_element() {
    let outer = routes_element(1, None, "外箱");
    let inner = routes_element(2, Some(1), "内盒");
    let item = routes_element(3, Some(2), "物品");
    let by_serial: HashMap<i64, Element> = [outer, inner, item.clone()]
        .into_iter()
        .map(|entry| (entry.serial, entry))
        .collect();

    let result = build_element_lookup(item, &by_serial).unwrap();
    assert_eq!(
        result
            .path
            .iter()
            .map(|entry| entry.element.serial)
            .collect::<Vec<_>>(),
        vec![1, 2, 3]
    );
}

fn valid() -> CreateElement {
    CreateElement {
        kind: "item".into(),
        tag_a: "m".into(),
        tag_b: 3,
        tag_c: 8,
        name: "螺母".into(),
        description: "M3 不锈钢".into(),
        quantity_bits: 12.5f64.to_bits(),
        unit: "个".into(),
        parent_serial: None,
    }
}

#[test]
fn normalizes_ascii_category_letter() {
    assert_eq!(validate_element(&valid()).unwrap(), "M");
}

#[test]
fn rejects_invalid_tags_and_quantity() {
    let mut input = valid();
    input.tag_b = 100;
    assert!(validate_element(&input).is_err());
    input.tag_b = 1;
    input.quantity_bits = f64::NAN.to_bits();
    assert!(validate_element(&input).is_err());
    input.quantity_bits = 1.0f64.to_bits();
    input.tag_a = "中".into();
    assert!(validate_element(&input).is_err());
}
