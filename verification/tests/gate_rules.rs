use mercado_session::errors::AuthError;
use mercado_session::gate::credential_for_call;
use mercado_session::gate::listing_owner_filter;
use mercado_session::gate::for_any_elevated_or_self;
use mercado_session::gate::for_elevated_or_implicit_self;
use mercado_session::model::Credential;
use mercado_session::model::Identity;
use mercado_session::model::Profile;
use mercado_session::model::Role;
use mercado_session::model::Session;

fn identity(seed: u8) -> Identity {
    Identity::from_bytes(vec![seed; 33]).unwrap()
}

fn logged_in(seed: u8, role: Role) -> Session {
    Session {
        credential: Some(Credential {
            identity: identity(seed),
            challenge: String::from("c"),
            signature: vec![seed; 64],
        }),
        profile: Some(Profile { identity: identity(seed), role, name: None }),
    }
}

#[test]
fn owner_always_sees_own_resource() {
    for role in [Role::Root, Role::Admin, Role::User, Role::Unauthenticated] {
        let viewer = logged_in(2, role);
        assert!(for_any_elevated_or_self(&viewer, &identity(2)));
    }
}

#[test]
fn unauthenticated_viewer_is_always_denied() {
    let viewer = Session::logged_out();
    for owner in [1u8, 2, 3, 200] {
        assert!(!for_any_elevated_or_self(&viewer, &identity(owner)));
    }
}

#[test]
fn plain_user_is_suppressed_on_foreign_resource() {
    let viewer = logged_in(2, Role::User);
    assert!(!for_any_elevated_or_self(&viewer, &identity(3)));
}

#[test]
fn elevated_roles_see_foreign_resources() {
    assert!(for_any_elevated_or_self(&logged_in(2, Role::Root), &identity(3)));
    assert!(for_any_elevated_or_self(&logged_in(2, Role::Admin), &identity(3)));
}

#[test]
fn credential_without_profile_is_denied() {
    let viewer = Session {
        credential: Some(Credential {
            identity: identity(2),
            challenge: String::from("c"),
            signature: vec![2u8; 64],
        }),
        profile: None,
    };
    assert!(!for_any_elevated_or_self(&viewer, &identity(2)));
    assert!(!for_elevated_or_implicit_self(&viewer));
}

#[test]
fn implicit_self_gate_requires_login_only() {
    assert!(for_elevated_or_implicit_self(&logged_in(2, Role::User)));
    assert!(for_elevated_or_implicit_self(&logged_in(2, Role::Unauthenticated)));
    assert!(!for_elevated_or_implicit_self(&Session::logged_out()));
}

#[test]
fn listing_filter_narrows_plain_users_only() {
    let user = logged_in(2, Role::User);
    let filter = listing_owner_filter(&user).unwrap();
    assert_eq!(filter.as_bytes(), &vec![2u8; 33]);
    assert!(listing_owner_filter(&logged_in(2, Role::Root)).is_none());
    assert!(listing_owner_filter(&logged_in(2, Role::Admin)).is_none());
    let logged_out = Session::logged_out();
    assert!(listing_owner_filter(&logged_out).is_none());
}

#[test]
fn credential_guard_matches_login_state() {
    let viewer = logged_in(5, Role::User);
    let cred = credential_for_call(&viewer).unwrap();
    assert_eq!(cred.identity.as_bytes(), &vec![5u8; 33]);
    let logged_out = Session::logged_out();
    let r = credential_for_call(&logged_out);
    assert!(matches!(r, Err(AuthError::Rejected)));
}
