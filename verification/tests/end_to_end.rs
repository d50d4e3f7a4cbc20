use cognito_user_reader::cognito::{users_to_csv, UserReader, UserReaderOptions};
use cognito_user_reader::models::{AttributeType, UserType};
use cognito_user_reader::pagination::{PageOutcome, Paginator};

fn ee_user(name: &str, email: &str, created: i64) -> UserType {
    UserType {
        username: Some(name.to_string()),
        attributes: Some(vec![AttributeType {
            name: "email".to_string(),
            value: Some(email.to_string()),
        }]),
        user_create_date: Some(created),
        user_last_modified_date: Some(created),
        enabled: Some(true),
        user_status: Some("CONFIRMED".to_string()),
    }
}

fn ee_options() -> UserReaderOptions {
    UserReaderOptions {
        attributes_to_get: None,
        limit_of_users: None,
        show_unconfirmed_users: false,
        filtered_user_ids: None,
        include_user_ids: false,
        filtered_user_emails: None,
        include_user_emails: false,
        created_at: None,
    }
}

/// A synthetic pool: `total` users with descending creation dates, served
/// in pages of at most `page_size` (or the requested limit, if smaller).
fn ee_run_pool(total: usize, page_size: usize, cap: Option<u32>) -> Vec<UserType> {
    let pool: Vec<UserType> = (0..total)
        .map(|i| {
            ee_user(
                &format!("user{:03}", i),
                &format!("user{:03}@example.com", i),
                1_500_000_000 - i as i64 * 60,
            )
        })
        .collect();
    let mut served: usize = 0;
    let mut p = Paginator::new(cap);
    while !p.finished {
        let mut size = page_size.min(total - served);
        if let Some(l) = p.limit {
            size = size.min(l as usize);
        }
        let users: Vec<UserType> = pool[served..served + size].to_vec();
        served += size;
        let token = if served < total { Some(format!("t{}", served)) } else { None };
        p.on_page(PageOutcome::Page { users, pagination_token: token });
    }
    p.users
}

#[test]
fn uncapped_pool_of_130_gives_131_csv_lines() {
    let collected = ee_run_pool(130, 60, None);
    assert_eq!(collected.len(), 130);
    let options = ee_options();
    let ordered = UserReader::order_users(collected, &options);
    assert_eq!(ordered.len(), 130);
    let stamps: Vec<i64> = ordered.iter().map(|u| u.user_create_date.unwrap()).collect();
    for pair in stamps.windows(2) {
        assert!(pair[0] <= pair[1]);
    }
    let (content, count) = users_to_csv(&ordered);
    assert_eq!(count, 130);
    assert_eq!(content.lines().count(), 131);
    // Ascending by creation date: the oldest user comes first.
    let mut lines = content.lines();
    let header = lines.next().unwrap();
    assert_eq!(header, "createdAt,username,status,email");
    let first_row = lines.next().unwrap();
    assert!(first_row.contains("user129"));
}

#[test]
fn cap_of_five_gives_five_earliest_rows() {
    let collected = ee_run_pool(10, 60, Some(5));
    assert_eq!(collected.len(), 5);
    let options = ee_options();
    let ordered = UserReader::order_users(collected, &options);
    let (content, count) = users_to_csv(&ordered);
    assert_eq!(count, 5);
    assert_eq!(content.lines().count(), 6);
    // The five fetched users, ascending by creation date after the sort:
    // the pool serves user000..user004, created newest-first.
    let names: Vec<String> =
        ordered.iter().map(|u| u.username.clone().unwrap()).collect();
    assert_eq!(names, vec!["user004", "user003", "user002", "user001", "user000"]);
}

#[test]
fn empty_pool_gives_empty_csv() {
    let mut p = Paginator::new(None);
    p.on_page(PageOutcome::Page { users: Vec::new(), pagination_token: None });
    assert!(p.finished);
    let options = ee_options();
    let ordered = UserReader::order_users(p.users, &options);
    let (content, count) = users_to_csv(&ordered);
    assert_eq!(content, "");
    assert_eq!(count, 0);
}

#[test]
fn tied_creation_dates_all_survive_the_sort() {
    let users = vec![
        ee_user("a", "a@example.com", 5_000),
        ee_user("b", "b@example.com", 5_000),
        ee_user("c", "c@example.com", 1_000),
    ];
    let ordered = UserReader::order_users(users, &ee_options());
    assert_eq!(ordered.len(), 3);
    assert_eq!(ordered[0].username.as_deref(), Some("c"));
    let mut tied: Vec<&str> =
        ordered[1..].iter().map(|u| u.username.as_deref().unwrap()).collect();
    tied.sort_unstable();
    assert_eq!(tied, vec!["a", "b"]);
}

#[test]
fn deny_listed_email_excludes_both_casings() {
    let users = vec![
        ee_user("upper", "Shared@Example.com", 1_000),
        ee_user("lower", "shared@example.com", 2_000),
        ee_user("other", "other@example.com", 3_000),
    ];
    let mut options = ee_options();
    options.filtered_user_emails = Some(vec!["shared@example.com".to_string()]);
    options.include_user_emails = false;
    let kept = UserReader::order_users(users, &options);
    assert_eq!(kept.len(), 1);
    assert_eq!(kept[0].username.as_deref(), Some("other"));
    let (content, count) = users_to_csv(&kept);
    assert_eq!(count, 1);
    assert_eq!(content.lines().count(), 2);
}
