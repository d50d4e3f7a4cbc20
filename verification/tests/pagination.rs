use cognito_user_reader::models::UserType;
use cognito_user_reader::pagination::{validate_limit, FetchError, PageOutcome, Paginator};

fn pg_user(name: &str, created: i64) -> UserType {
    UserType {
        username: Some(name.to_string()),
        attributes: None,
        user_create_date: Some(created),
        user_last_modified_date: Some(created),
        enabled: Some(true),
        user_status: Some("CONFIRMED".to_string()),
    }
}

fn pg_batch(prefix: &str, count: usize) -> Vec<UserType> {
    (0..count)
        .map(|i| pg_user(&format!("{}{}", prefix, i), 1_000_000_000 + i as i64))
        .collect()
}

#[test]
fn small_cap_is_single_request() {
    let mut p = Paginator::new(Some(50));
    assert_eq!(p.limit, Some(50));
    assert_eq!(p.pending, 0);
    assert!(!p.finished);
    p.on_page(PageOutcome::Page {
        users: pg_batch("u", 50),
        pagination_token: Some("more".to_string()),
    });
    assert!(p.finished);
    assert_eq!(p.users.len(), 50);
}

#[test]
fn cap_of_sixty_is_single_request() {
    let mut p = Paginator::new(Some(60));
    assert_eq!(p.limit, Some(60));
    p.on_page(PageOutcome::Page {
        users: pg_batch("u", 60),
        pagination_token: Some("more".to_string()),
    });
    assert!(p.finished);
}

#[test]
fn large_cap_limits_are_sixty_then_remainder() {
    let mut p = Paginator::new(Some(130));
    let mut limits = Vec::new();
    let mut served: usize = 0;
    while !p.finished {
        limits.push(p.limit.unwrap());
        let size = p.limit.unwrap() as usize;
        p.on_page(PageOutcome::Page {
            users: pg_batch(&format!("b{}", served), size),
            pagination_token: Some("next".to_string()),
        });
        served += 1;
    }
    assert_eq!(limits, vec![60, 60, 10]);
    assert_eq!(p.users.len(), 130);
}

#[test]
fn exact_multiple_cap_ends_on_full_page() {
    let mut p = Paginator::new(Some(120));
    let mut limits = Vec::new();
    while !p.finished {
        limits.push(p.limit.unwrap());
        let size = p.limit.unwrap() as usize;
        p.on_page(PageOutcome::Page {
            users: pg_batch(&format!("c{}", limits.len()), size),
            pagination_token: Some("next".to_string()),
        });
    }
    assert_eq!(limits, vec![60, 60]);
    assert_eq!(p.users.len(), 120);
}

#[test]
fn uncapped_runs_until_token_absent() {
    let mut p = Paginator::new(None);
    assert_eq!(p.limit, None);
    p.on_page(PageOutcome::Page {
        users: pg_batch("a", 3),
        pagination_token: Some("t1".to_string()),
    });
    assert!(!p.finished);
    p.on_page(PageOutcome::Page {
        users: pg_batch("b", 2),
        pagination_token: Some("t2".to_string()),
    });
    assert!(!p.finished);
    p.on_page(PageOutcome::Page { users: pg_batch("c", 1), pagination_token: None });
    assert!(p.finished);
    assert_eq!(p.users.len(), 6);
    assert_eq!(p.limit, None);
}

#[test]
fn uncapped_failure_without_token_stops() {
    let mut p = Paginator::new(None);
    p.on_page(PageOutcome::Failure {
        error: FetchError::Transport("connection refused".to_string()),
    });
    assert!(p.finished);
    assert_eq!(p.users.len(), 0);
    assert_eq!(p.errors.len(), 1);
}

#[test]
fn uncapped_failure_with_token_retries_same_token() {
    let mut p = Paginator::new(None);
    p.on_page(PageOutcome::Page {
        users: pg_batch("a", 2),
        pagination_token: Some("t1".to_string()),
    });
    p.on_page(PageOutcome::Failure {
        error: FetchError::Deserialization("bad payload".to_string()),
    });
    assert!(!p.finished);
    assert_eq!(p.token.as_deref(), Some("t1"));
    p.on_page(PageOutcome::Page { users: pg_batch("b", 2), pagination_token: None });
    assert!(p.finished);
    assert_eq!(p.users.len(), 4);
    assert_eq!(p.errors.len(), 1);
}

#[test]
fn capped_failure_still_consumes_budget() {
    let mut p = Paginator::new(Some(130));
    p.on_page(PageOutcome::Failure {
        error: FetchError::Transport("timeout".to_string()),
    });
    // No token was ever handed back, so the run is over after one attempt.
    assert!(p.finished);
    assert_eq!(p.users.len(), 0);
    assert_eq!(p.errors.len(), 1);
}

#[test]
fn cap_is_never_exceeded() {
    let mut p = Paginator::new(Some(70));
    p.on_page(PageOutcome::Page {
        users: pg_batch("a", 60),
        pagination_token: Some("t".to_string()),
    });
    assert!(!p.finished);
    assert_eq!(p.limit, Some(10));
    p.on_page(PageOutcome::Page {
        users: pg_batch("b", 10),
        pagination_token: Some("t2".to_string()),
    });
    assert!(p.finished);
    assert_eq!(p.users.len(), 70);
}

#[test]
fn limit_above_sixty_is_a_configuration_error() {
    match validate_limit(Some(61)) {
        Err(FetchError::Configuration(msg)) => {
            assert_eq!(msg, "The limit cannot be greater than 60");
        }
        other => panic!("expected a configuration error, got {:?}", other),
    }
    assert_eq!(validate_limit(Some(60)), Ok(Some(60)));
    assert_eq!(validate_limit(None), Ok(None));
}
