use cognito_user_reader::cognito::users_to_csv;
use cognito_user_reader::models::{AttributeType, UserType};

fn rc_attr(name: &str, value: Option<&str>) -> AttributeType {
    AttributeType { name: name.to_string(), value: value.map(|v| v.to_string()) }
}

fn rc_user(name: &str, attrs: Option<Vec<AttributeType>>, created: i64) -> UserType {
    UserType {
        username: Some(name.to_string()),
        attributes: attrs,
        user_create_date: Some(created),
        user_last_modified_date: Some(created),
        enabled: Some(true),
        user_status: Some("CONFIRMED".to_string()),
    }
}

#[test]
fn get_attribute_finds_the_first_match() {
    let u = rc_user(
        "a",
        Some(vec![
            rc_attr("email", Some("first@example.com")),
            rc_attr("email", Some("second@example.com")),
            rc_attr("phone", Some("123")),
        ]),
        0,
    );
    assert_eq!(u.get_attribute("email"), "first@example.com");
    assert_eq!(u.get_attribute("phone"), "123");
    assert_eq!(u.get_email(), "first@example.com");
}

#[test]
fn get_attribute_placeholders() {
    let no_list = rc_user("a", None, 0);
    assert_eq!(no_list.get_attribute("email"), "");
    let missing = rc_user("a", Some(vec![rc_attr("phone", Some("123"))]), 0);
    assert_eq!(missing.get_attribute("email"), "None");
}

#[test]
fn attribute_values_join_with_placeholder() {
    let u = rc_user(
        "a",
        Some(vec![
            rc_attr("email", Some("a@example.com")),
            rc_attr("phone", None),
            rc_attr("city", Some("Lisbon")),
        ]),
        0,
    );
    assert_eq!(u.attributes_values_to_string(" | "), "a@example.com | No Value | Lisbon");
    assert_eq!(u.attributes_values_to_string(","), "a@example.com,No Value,Lisbon");
    assert_eq!(u.attributes_keys_to_string(","), "email,phone,city");
}

#[test]
fn empty_leading_value_collapses_the_separator() {
    // The join starts writing separators only once the text is non-empty,
    // as the fold that builds it does.
    let u = rc_user("a", Some(vec![rc_attr("x", Some("")), rc_attr("y", Some("b"))]), 0);
    assert_eq!(u.attributes_values_to_string(","), "b");
}

#[test]
fn join_of_no_attributes_is_empty() {
    let none = rc_user("a", None, 0);
    assert_eq!(none.attributes_values_to_string(","), "");
    assert_eq!(none.attributes_keys_to_string(","), "");
    let empty = rc_user("a", Some(vec![]), 0);
    assert_eq!(empty.attributes_values_to_string(","), "");
    assert_eq!(empty.attributes_keys_to_string(","), "");
}

#[test]
fn csv_renders_header_and_rows() {
    let users = vec![
        rc_user(
            "alice",
            Some(vec![rc_attr("email", Some("alice@example.com"))]),
            1_431_648_000,
        ),
        rc_user(
            "bob",
            Some(vec![rc_attr("email", Some("bob@example.com"))]),
            1_431_734_400,
        ),
    ];
    let (content, count) = users_to_csv(&users);
    assert_eq!(count, 2);
    assert_eq!(
        content,
        "createdAt,username,status,email\n\
         2015-05-15 00:00:00 UTC,alice,CONFIRMED,alice@example.com\n\
         2015-05-16 00:00:00 UTC,bob,CONFIRMED,bob@example.com"
    );
}

#[test]
fn csv_of_no_users_is_empty() {
    let (content, count) = users_to_csv(&Vec::new());
    assert_eq!(content, "");
    assert_eq!(count, 0);
}

#[test]
fn csv_renders_placeholders() {
    let u = UserType {
        username: None,
        attributes: Some(vec![rc_attr("email", None)]),
        user_create_date: Some(0),
        user_last_modified_date: None,
        enabled: None,
        user_status: None,
    };
    let (content, count) = users_to_csv(&vec![u]);
    assert_eq!(count, 1);
    assert_eq!(
        content,
        "createdAt,username,status,email\n\
         1970-01-01 00:00:00 UTC,No username,No user status,No Value"
    );
}
