use tornado::auth::{
    AuthContextV2, AuthHeaderV2, AuthV2, Authorization, Permission,
};

fn permission_map() -> Vec<(Permission, Vec<String>)> {
    vec![
        (Permission::ConfigEdit, vec!["edit".to_owned()]),
        (Permission::ConfigView, vec!["edit".to_owned(), "view".to_owned()]),
        (Permission::RuntimeConfigEdit, vec!["runtime_config_edit".to_owned()]),
        (Permission::RuntimeConfigView, vec!["runtime_config_view".to_owned()]),
    ]
}

fn two_key_header(user: &str) -> AuthHeaderV2 {
    AuthHeaderV2 {
        user: user.to_owned(),
        auths: vec![
            (
                "auth_key_0".to_owned(),
                Authorization { path: vec!["node".to_owned()], roles: vec!["edit".to_owned()] },
            ),
            (
                "auth_key_1".to_owned(),
                Authorization { path: vec!["root".to_owned()], roles: vec!["view".to_owned()] },
            ),
        ],
    preferences: None,
    }
}

#[test]
fn from_header_should_return_auth_v2_for_an_existing_auth_key() {
    let auth_header = two_key_header("user");
    let result = AuthContextV2::from_header(auth_header, "auth_key_1", vec![]).unwrap();
    let expected = AuthContextV2 {
        auth: AuthV2 {
            user: "user".to_owned(),
            authorization: Authorization {
                path: vec!["root".to_owned()],
                roles: vec!["view".to_owned()],
            },
            preferences: None,
        },
        valid: true,
        permission_roles_map: vec![],
    };
    assert_eq!(result, expected);
}

#[test]
fn from_header_should_return_non_valid_auth_for_empty_user() {
    let auth_header = two_key_header("");
    let result = AuthContextV2::from_header(auth_header, "auth_key_1", vec![]).unwrap();
    let expected = AuthContextV2 {
        auth: AuthV2 {
            user: String::new(),
            authorization: Authorization {
                path: vec!["root".to_owned()],
                roles: vec!["view".to_owned()],
            },
            preferences: None,
        },
        valid: false,
        permission_roles_map: vec![],
    };
    assert_eq!(result, expected);
}

#[test]
fn from_header_should_fail_for_a_missing_auth_key() {
    let auth_header = two_key_header("user");
    let result = AuthContextV2::from_header(auth_header, "no_such_key", vec![]);
    assert!(result.is_err());
}

#[test]
fn is_authenticated_should_return_error_if_auth_is_not_valid() {
    let auth_context = AuthContextV2 {
        auth: AuthV2 {
            user: String::new(),
            authorization: Authorization { path: vec![], roles: vec![] },
            preferences: None,
        },
        valid: false,
        permission_roles_map: vec![],
    };
    let result = auth_context.is_authenticated();
    assert!(result.is_err());
}

#[test]
fn is_authenticated_should_return_ok_if_auth_is_valid() {
    let auth_context = AuthContextV2 {
        auth: AuthV2 {
            user: "my_user".to_owned(),
            authorization: Authorization { path: vec![], roles: vec![] },
            preferences: None,
        },
        valid: true,
        permission_roles_map: vec![],
    };
    let result = auth_context.is_authenticated();
    assert!(result.is_ok());
}

#[test]
fn has_permission_should_return_ok_or_error_if_user_has_or_does_not_have_permission() {
    let auth_context = AuthContextV2 {
        auth: AuthV2 {
            user: "my_user".to_owned(),
            authorization: Authorization { path: vec![], roles: vec!["view".to_owned()] },
            preferences: None,
        },
        valid: true,
        permission_roles_map: permission_map(),
    };
    assert!(auth_context.has_permission(&Permission::ConfigView).is_ok());
    assert!(auth_context.has_permission(&Permission::ConfigEdit).is_err());
}

#[test]
fn has_permission_and_has_any_permission_should_return_err_if_auth_is_not_valid() {
    let auth_context = AuthContextV2 {
        auth: AuthV2 {
            user: String::new(),
            authorization: Authorization { path: vec![], roles: vec!["view".to_owned()] },
            preferences: None,
        },
        valid: false,
        permission_roles_map: permission_map(),
    };
    assert!(auth_context.has_permission(&Permission::ConfigView).is_err());
    assert!(auth_context.has_any_permission(&vec![Permission::ConfigView]).is_err());
}

#[test]
fn has_any_permission_should_return_ok_or_error_if_user_has_or_does_not_have_any_permission() {
    let auth_context = AuthContextV2 {
        auth: AuthV2 {
            user: "my_user".to_owned(),
            authorization: Authorization { path: vec![], roles: vec!["view".to_owned()] },
            preferences: None,
        },
        valid: true,
        permission_roles_map: permission_map(),
    };
    assert!(auth_context.has_any_permission(&vec![Permission::ConfigView]).is_ok());
    assert!(auth_context
        .has_any_permission(&vec![Permission::ConfigEdit, Permission::ConfigView])
        .is_ok());
    assert!(auth_context
        .has_any_permission(&vec![Permission::ConfigEdit, Permission::RuntimeConfigView])
        .is_err());
}
