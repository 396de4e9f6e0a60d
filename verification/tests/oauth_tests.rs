use hab_sup::oauth::{
    authenticate_response, Account, AuthErr, AuthError, AuthOk, Config, GitHubClient, User,
    AUTH_BODY_LIMIT,
};

fn auth_ok(scope: &str) -> AuthOk {
    AuthOk {
        access_token: "token123".to_string(),
        scope: scope.to_string(),
        token_type: "bearer".to_string(),
    }
}

#[test]
fn has_scope_finds_a_lone_grant() {
    assert!(auth_ok("user:email").has_scope("user:email"));
}

#[test]
fn has_scope_finds_a_grant_in_a_list() {
    assert!(auth_ok("repo,user:email,gist").has_scope("user:email"));
    assert!(auth_ok("repo,user:email").has_scope("repo"));
}

#[test]
fn has_scope_rejects_partial_matches() {
    assert!(!auth_ok("user:emails").has_scope("user:email"));
    assert!(!auth_ok("xuser:email").has_scope("user:email"));
    assert!(!auth_ok("user").has_scope("user:email"));
    assert!(!auth_ok("").has_scope("user:email"));
}

#[test]
fn has_scope_on_the_empty_grant() {
    assert!(auth_ok("").has_scope(""));
    assert!(auth_ok("repo,").has_scope(""));
    assert!(!auth_ok("repo").has_scope(""));
}

#[test]
fn authenticate_accepts_a_token_with_the_mail_scope() {
    let body = r#"{"access_token":"t-42","scope":"repo,user:email","token_type":"bearer"}"#;
    let r = authenticate_response(true, 200, body);
    assert_eq!(r.unwrap(), "t-42".to_string());
}

#[test]
fn authenticate_rejects_a_token_without_the_mail_scope() {
    let body = r#"{"access_token":"t-42","scope":"repo","token_type":"bearer"}"#;
    match authenticate_response(true, 200, body) {
        Err(AuthError::MissingScope(s)) => assert_eq!(s, "user:email".to_string()),
        other => panic!("expected a missing scope, got {:?}", other),
    }
}

#[test]
fn authenticate_reports_githubs_error() {
    let body = r#"{"error":"bad_verification_code","error_description":"The code is wrong.","error_uri":"https://example.invalid/docs"}"#;
    match authenticate_response(true, 200, body) {
        Err(AuthError::Auth(e)) => {
            assert_eq!(e.error, "bad_verification_code".to_string());
            assert_eq!(e.error_description, "The code is wrong.".to_string());
        }
        other => panic!("expected an auth error, got {:?}", other),
    }
}

#[test]
fn authenticate_maps_http_failures() {
    match authenticate_response(false, 503, "ignored") {
        Err(AuthError::Http(c)) => assert_eq!(c, 503),
        other => panic!("expected an http error, got {:?}", other),
    }
}

#[test]
fn authenticate_rejects_oversized_bodies_unparsed() {
    // A deeply nested body could drive a recursive parser off the stack;
    // it is rejected on length before any parse.
    let body = "[".repeat(AUTH_BODY_LIMIT + 1);
    match authenticate_response(true, 200, &body) {
        Err(AuthError::TooLarge) => {}
        other => panic!("expected an oversized-body rejection, got {:?}", other),
    }
}

#[test]
fn authenticate_rejects_garbage_bodies() {
    match authenticate_response(true, 200, "not json at all") {
        Err(AuthError::BadResponse) => {}
        other => panic!("expected a bad response, got {:?}", other),
    }
}

#[test]
fn client_takes_its_identity_from_the_config() {
    let cfg = Config {
        github_url: "https://api.github.com".to_string(),
        github_client_id: "client-id".to_string(),
        github_client_secret: "SECRET-REDACTED".to_string(),
    };
    let c = GitHubClient::new(&cfg);
    assert_eq!(c.url, cfg.github_url);
    assert_eq!(c.client_id, cfg.github_client_id);
    assert_eq!(c.client_secret, cfg.github_client_secret);
}

#[test]
fn an_account_is_a_login_and_a_mail_address() {
    let user = User {
        login: "ada".to_string(),
        id: 7,
        avatar_url: String::new(),
        gravatar_id: String::new(),
        url: String::new(),
        html_url: String::new(),
        followers_url: String::new(),
        following_url: String::new(),
        gists_url: String::new(),
        starred_url: String::new(),
        subscriptions_url: String::new(),
        organizations_url: String::new(),
        repos_url: String::new(),
        events_url: String::new(),
        received_events_url: String::new(),
        site_admin: false,
        name: "Ada".to_string(),
        company: String::new(),
        blog: String::new(),
        location: String::new(),
        email: "ada@example.invalid".to_string(),
        hireable: None,
        bio: None,
        public_repos: 0,
        public_gists: 0,
        followers: 0,
        following: 0,
        created_at: String::new(),
        updated_at: String::new(),
    };
    let account = Account::from_user(user);
    assert_eq!(account.name, "ada".to_string());
    assert_eq!(account.email, "ada@example.invalid".to_string());
}

#[test]
fn auth_errors_print_on_one_line() {
    let e = AuthErr {
        error: "oops".to_string(),
        error_description: "it broke".to_string(),
        error_uri: "uri".to_string(),
    };
    assert_eq!(e.to_text(), "err=oops, desc=it broke, uri=uri".to_string());
}
