use rustflix::users::{
    create_user, delete_user, find_user, find_users, generate_valid_id, has_email, has_id,
    list_users, update_user, CreateUser, FindError, ShowUser, UpdateUser, User, UserCommandError,
    UserQuery,
};

fn two_users() -> Vec<User> {
    vec![
        User { id: 1, name: "a".to_string(), email: "x".to_string() },
        User { id: 2, name: "a".to_string(), email: "y".to_string() },
    ]
}

#[test]
fn ambiguous_name_query_counts_two_by_name() {
    let users = two_users();
    let query = UserQuery { id: None, name: Some("a".to_string()), email: None };
    match find_user(&users, &query) {
        Err(FindError::MultipleUsersFound(counts)) => {
            assert_eq!(counts.id, 0);
            assert_eq!(counts.name, 2);
            assert_eq!(counts.email, 0);
        },
        _ => panic!("expected an ambiguous outcome"),
    }
}

#[test]
fn id_query_resolves_uniquely() {
    let users = two_users();
    let query = UserQuery { id: Some(1), name: None, email: None };
    let found = find_user(&users, &query).unwrap();
    assert_eq!(found.id, 1);
    assert_eq!(found.name, "a".to_string());
    assert_eq!(found.email, "x".to_string());
}

#[test]
fn empty_query_matches_nothing() {
    let users = two_users();
    let query = UserQuery { id: None, name: None, email: None };
    assert!(matches!(find_user(&users, &query), Err(FindError::NoUserFound)));
}

#[test]
fn create_with_duplicate_email_changes_nothing() {
    let mut users = two_users();
    let before = users.clone();
    let r = create_user(
        &mut users,
        CreateUser { name: "b".to_string(), email: "x".to_string() },
    );
    assert!(matches!(r, Err(UserCommandError::DuplicateField)));
    assert!(users == before);
}

#[test]
fn create_appends_with_fresh_id() {
    let mut users = two_users();
    let u = create_user(
        &mut users,
        CreateUser { name: "b".to_string(), email: "z".to_string() },
    )
        .unwrap();
    assert_eq!(users.len(), 3);
    assert!(users[2] == u);
    assert_eq!(u.name, "b".to_string());
    assert_eq!(u.email, "z".to_string());
    assert!(u.id != 1 && u.id != 2);
    assert!(has_email(&users, &"z".to_string()));
}

#[test]
fn repeated_creates_yield_pairwise_distinct_ids() {
    let mut users: Vec<User> = Vec::new();
    for i in 0..50u32 {
        let r = create_user(
            &mut users,
            CreateUser { name: format!("user{}", i), email: format!("mail{}", i) },
        );
        assert!(r.is_ok());
    }
    assert_eq!(users.len(), 50);
    for i in 0..users.len() {
        for j in (i + 1)..users.len() {
            assert!(users[i].id != users[j].id);
        }
    }
}

#[test]
fn generate_never_returns_existing_id() {
    let mut users: Vec<User> = Vec::new();
    for i in 0..40u32 {
        create_user(
            &mut users,
            CreateUser { name: format!("user{}", i), email: format!("mail{}", i) },
        )
            .unwrap();
        let id = generate_valid_id(&users);
        assert!(!has_id(&users, id));
    }
}

#[test]
fn delete_declined_changes_nothing() {
    let mut users = two_users();
    let before = users.clone();
    let query = UserQuery { id: Some(1), name: None, email: None };
    let r = delete_user(&mut users, &query, false);
    assert!(matches!(r, Err(UserCommandError::UserCancelled)));
    assert!(users == before);
}

#[test]
fn delete_approved_removes_record() {
    let mut users = two_users();
    let query = UserQuery { id: Some(1), name: None, email: None };
    let removed = delete_user(&mut users, &query, true).unwrap();
    assert_eq!(removed.id, 1);
    assert_eq!(users.len(), 1);
    assert_eq!(users[0].id, 2);
}

#[test]
fn sparse_update_changes_only_named_field() {
    let mut users = two_users();
    let update = UpdateUser {
        query_id: Some(1),
        query_name: None,
        query_email: None,
        new_name: Some("renamed".to_string()),
        new_email: None,
    };
    let report = update_user(&mut users, &update).unwrap();
    assert_eq!(report.before.name, "a".to_string());
    assert_eq!(report.after.name, "renamed".to_string());
    assert_eq!(report.before.email, report.after.email);
    assert_eq!(report.before.id, report.after.id);
    assert_eq!(users[0].name, "renamed".to_string());
    assert_eq!(users[0].email, "x".to_string());
    assert!(users[1] == User { id: 2, name: "a".to_string(), email: "y".to_string() });
}

#[test]
fn update_ambiguous_changes_nothing() {
    let mut users = two_users();
    let before = users.clone();
    let update = UpdateUser {
        query_id: None,
        query_name: Some("a".to_string()),
        query_email: None,
        new_name: Some("other".to_string()),
        new_email: None,
    };
    match update_user(&mut users, &update) {
        Err(UserCommandError::Ambiguous(counts)) => {
            assert_eq!(counts.name, 2);
        },
        _ => panic!("expected an ambiguous outcome"),
    }
    assert!(users == before);
}

#[test]
fn update_not_found_changes_nothing() {
    let mut users = two_users();
    let before = users.clone();
    let update = UpdateUser {
        query_id: Some(9),
        query_name: None,
        query_email: None,
        new_name: Some("other".to_string()),
        new_email: None,
    };
    assert!(matches!(update_user(&mut users, &update), Err(UserCommandError::NotFound)));
    assert!(users == before);
}

#[test]
fn list_users_modes() {
    let users = two_users();
    let all = list_users(&users, &ShowUser { all: true, id: None, name: None, email: None })
        .unwrap();
    assert_eq!(all.len(), 2);
    let by_email = list_users(
        &users,
        &ShowUser { all: false, id: None, name: None, email: Some("y".to_string()) },
    )
        .unwrap();
    assert_eq!(by_email.len(), 1);
    assert_eq!(by_email[0].id, 2);
    let empty = list_users(&users, &ShowUser { all: false, id: None, name: None, email: None });
    assert!(matches!(empty, Err(UserCommandError::NoQueryProvided)));
}

#[test]
fn find_users_returns_every_match() {
    let users = two_users();
    let query = UserQuery { id: None, name: Some("a".to_string()), email: None };
    let found = find_users(&users, &query).unwrap();
    assert_eq!(found.len(), 2);
    assert!(found[0] == users[0]);
    assert!(found[1] == users[1]);
}
