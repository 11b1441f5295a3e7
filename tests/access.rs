use bercik::access::{
    authorize_endpoint, can_call_endpoint, Claims, CreateEndpointMethod, UpdateEndpointRequest,
};
use bercik::users::{check_username_template, count_placeholders, username_candidate};

fn claims(group: &str) -> Claims {
    Claims::new("adam".into(), group.into(), 0)
}

#[test]
fn admin_check() {
    assert_eq!(claims("ADMIN").must_be_admin(), Ok(()));
    assert_eq!(
        claims("users").must_be_admin(),
        Err((401, "User must be an admin".to_string()))
    );
}

#[test]
fn endpoint_groups() {
    let groups = vec!["editors".to_string()];
    assert!(can_call_endpoint(None, vec!["PUBLIC".to_string()]));
    assert!(!can_call_endpoint(None, groups.clone()));
    assert!(can_call_endpoint(Some(&claims("editors")), groups.clone()));
    assert!(can_call_endpoint(Some(&claims("ADMIN")), groups.clone()));
    assert!(!can_call_endpoint(Some(&claims("readers")), groups));
}

#[test]
fn endpoint_groups_from_stored_json() {
    assert_eq!(authorize_endpoint(None, "[\"PUBLIC\"]"), Ok(true));
    assert_eq!(authorize_endpoint(None, "[\"editors\"]"), Ok(false));
    assert_eq!(
        authorize_endpoint(Some(&claims("editors")), "[\"readers\", \"editors\"]"),
        Ok(true)
    );
    assert_eq!(authorize_endpoint(Some(&claims("readers")), "[]"), Ok(false));
    assert!(authorize_endpoint(None, "PUBLIC").is_err());
}

#[test]
fn methods_by_name() {
    assert_eq!(CreateEndpointMethod::GET.to_string(), "GET");
    assert_eq!(CreateEndpointMethod::POST.to_string(), "POST");
    assert_eq!(CreateEndpointMethod::ANY.to_string(), "ANY");
    assert_eq!(CreateEndpointMethod::from_str("POST"), Ok(CreateEndpointMethod::POST));
    assert_eq!(
        CreateEndpointMethod::from_str("PUT"),
        Err("PUT is not a method".to_string())
    );
}

#[test]
fn update_request_splits() {
    let u = UpdateEndpointRequest {
        id: 5,
        path: "/x".into(),
        method: CreateEndpointMethod::GET,
        endpoints_info: vec![],
        allowed_groups: vec!["PUBLIC".into()],
    };
    let (c, id) = u.to_create_and_id();
    assert_eq!(id, 5);
    assert_eq!(c.path, "/x");
    assert_eq!(c.allowed_groups, vec!["PUBLIC"]);
}

#[test]
fn numbered_user_names() {
    assert_eq!(username_candidate("user{}", 12), "user12");
    assert_eq!(username_candidate("a{}b{}", 3), "a3b3");
    assert_eq!(username_candidate("plain", 3), "plain");
    assert_eq!(count_placeholders("a{}b{}{"), 2);
    assert!(check_username_template("user{}", 5).is_ok());
    assert!(check_username_template("user", 1).is_ok());
    assert!(check_username_template("user", 2).is_err());
    assert!(check_username_template("u{}{}", 2).is_err());
}
