use mercado_session::errors::StorageError;
use mercado_session::model::Credential;
use mercado_session::model::Identity;
use mercado_session::model::Profile;
use mercado_session::model::Role;
use mercado_session::session::SessionCell;
use mercado_session::store::PersistentStore;

fn sample_parts(seed: u8, role: Role) -> (Credential, Profile) {
    let identity = Identity::from_bytes(vec![seed; 33]).unwrap();
    let credential = Credential {
        identity: identity.clone(),
        challenge: String::from("nonce"),
        signature: vec![seed; 64],
    };
    let profile = Profile { identity, role, name: Some(String::from("alice")) };
    (credential, profile)
}

#[test]
fn commit_then_current_is_exactly_the_new_session() {
    let mut store = PersistentStore::new();
    let mut cell = SessionCell::bootstrap(&store);
    let (credential, profile) = sample_parts(8, Role::User);
    cell.commit(&mut store, credential, profile).unwrap();
    let current = cell.current();
    let cred = current.credential.as_ref().unwrap();
    assert_eq!(cred.identity.as_bytes(), &vec![8u8; 33]);
    assert_eq!(cred.challenge, "nonce");
    assert_eq!(cred.signature, vec![8u8; 64]);
    let prof = current.profile.as_ref().unwrap();
    assert_eq!(prof.identity.as_bytes(), &vec![8u8; 33]);
    assert!(matches!(prof.role, Role::User));
}

#[test]
fn reset_then_load_yields_logged_out_default() {
    let mut store = PersistentStore::new();
    let mut cell = SessionCell::bootstrap(&store);
    let (credential, profile) = sample_parts(9, Role::Admin);
    cell.commit(&mut store, credential, profile).unwrap();
    cell.reset(&mut store).unwrap();
    assert!(cell.current().credential.is_none());
    assert!(cell.current().profile.is_none());
    let loaded = store.load().unwrap();
    assert!(loaded.credential.is_none());
    assert!(loaded.profile.is_none());
}

#[test]
fn commit_survives_storage_write_failure() {
    let mut store = PersistentStore::new();
    let mut cell = SessionCell::bootstrap(&store);
    store.kv.set_write_failure(true);
    let (credential, profile) = sample_parts(4, Role::User);
    let r = cell.commit(&mut store, credential, profile);
    assert!(matches!(r, Err(StorageError::WriteFailed)));
    let current = cell.current();
    assert!(current.credential.is_some());
    assert!(current.profile.is_some());
    assert_eq!(current.credential.as_ref().unwrap().identity.as_bytes(), &vec![4u8; 33]);
}

#[test]
fn bootstrap_installs_persisted_session_verbatim() {
    let mut store = PersistentStore::new();
    let mut cell = SessionCell::bootstrap(&store);
    let (credential, profile) = sample_parts(6, Role::Root);
    cell.commit(&mut store, credential, profile).unwrap();
    let cell2 = SessionCell::bootstrap(&store);
    let current = cell2.current();
    assert_eq!(current.credential.as_ref().unwrap().identity.as_bytes(), &vec![6u8; 33]);
    assert!(matches!(current.profile.as_ref().unwrap().role, Role::Root));
}

#[test]
fn bootstrap_of_empty_store_is_logged_out() {
    let store = PersistentStore::new();
    let cell = SessionCell::bootstrap(&store);
    assert!(cell.current().credential.is_none());
    assert!(cell.current().profile.is_none());
}
