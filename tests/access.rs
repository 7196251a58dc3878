use vault_core::access::{has_blanket_access, is_admin_or_owner, role_of};
use vault_core::model::{
    Cipher, Collection, CollectionCipher, CollectionUser, UserOrgType, UserOrganization, VaultError,
};
use vault_core::store::Store;

fn s(x: &str) -> String {
    x.to_string()
}

fn personal(id: &str, owner: &str) -> Cipher {
    Cipher::from_parts(s(id), 10, 1, s("n"), Some(s(owner)), None).unwrap()
}

fn org_cipher(id: &str, org: &str) -> Cipher {
    Cipher::from_parts(s(id), 10, 2, s("n"), None, Some(s(org))).unwrap()
}

fn member(store: &mut Store, user: &str, org: &str, access_all: bool, atype: UserOrgType) {
    store.users_organizations.push(UserOrganization {
        user_uuid: s(user),
        org_uuid: s(org),
        access_all,
        atype,
    });
}

fn link(store: &mut Store, cipher: &str, coll: &str) {
    store.ciphers_collections.push(CollectionCipher { cipher_uuid: s(cipher), collection_uuid: s(coll) });
}

fn assign(store: &mut Store, user: &str, coll: &str) {
    store.users_collections.push(CollectionUser { user_uuid: s(user), collection_uuid: s(coll) });
}

/// User A owns X; B is a plain member of O assigned to K, which holds Y.
fn scenario() -> Store {
    let mut store = Store::new();
    store.ciphers.push(personal("x", "a"));
    store.ciphers.push(org_cipher("y", "o"));
    store.collections.push(Collection { uuid: s("k"), org_uuid: s("o") });
    member(&mut store, "b", "o", false, UserOrgType::Member);
    assign(&mut store, "b", "k");
    link(&mut store, "y", "k");
    store
}

#[test]
fn construction_needs_exactly_one_owner() {
    let both = Cipher::from_parts(s("c"), 1, 1, s("n"), Some(s("u")), Some(s("o")));
    assert_eq!(both.err(), Some(VaultError::InvalidOwner));
    let neither = Cipher::from_parts(s("c"), 1, 1, s("n"), None, None);
    assert_eq!(neither.err(), Some(VaultError::InvalidOwner));
    let bad_type = Cipher::from_parts(s("c"), 1, 5, s("n"), Some(s("u")), None);
    assert_eq!(bad_type.err(), Some(VaultError::InvalidType));
    let ok = Cipher::from_parts(s("c"), 7, 3, s("n"), None, Some(s("o"))).unwrap();
    assert_eq!(ok.created_at, 7);
    assert_eq!(ok.updated_at, 7);
    assert!(!ok.favorite);
    assert_eq!(ok.data, "");
    assert_eq!(ok.type_key(), "Card");
}

#[test]
fn new_cipher_gets_a_fresh_uuid() {
    let a = Cipher::new(1, s("n"), Some(s("u")), None).unwrap();
    let b = Cipher::new(1, s("n"), Some(s("u")), None).unwrap();
    assert_eq!(a.uuid.len(), 36);
    assert_ne!(a.uuid, b.uuid);
    assert_eq!(a.created_at, a.updated_at);
    assert!(Cipher::new(1, s("n"), None, None).is_err());
}

#[test]
fn personal_cipher_writable_by_owner_only() {
    let store = scenario();
    let x = personal("x", "a");
    assert!(x.is_write_accessible_to_user("a", &store));
    assert!(x.is_accessible_to_user("a", &store));
    assert!(!x.is_write_accessible_to_user("b", &store));
    assert!(!x.is_accessible_to_user("b", &store));
}

#[test]
fn org_cipher_write_needs_blanket_access() {
    let mut store = scenario();
    member(&mut store, "c", "o", true, UserOrgType::Member);
    member(&mut store, "d", "o", false, UserOrgType::Manager);
    let y = org_cipher("y", "o");
    assert!(y.is_write_accessible_to_user("c", &store));
    assert!(!y.is_write_accessible_to_user("d", &store));
    // An explicit collection assignment does not grant write access.
    assert!(!y.is_write_accessible_to_user("b", &store));
    assert!(!y.is_write_accessible_to_user("nobody", &store));
}

#[test]
fn membership_resolver_answers() {
    let mut store = scenario();
    member(&mut store, "adm", "o", false, UserOrgType::Admin);
    member(&mut store, "all", "o", true, UserOrgType::Member);
    assert_eq!(role_of("b", "o", &store), Some(UserOrgType::Member));
    assert_eq!(role_of("b", "other", &store), None);
    assert!(is_admin_or_owner("adm", "o", &store));
    assert!(!is_admin_or_owner("b", "o", &store));
    assert!(has_blanket_access("all", "o", &store));
    assert!(!has_blanket_access("adm", "o", &store));
}

#[test]
fn find_by_user_has_no_duplicates() {
    let mut store = scenario();
    store.collections.push(Collection { uuid: s("k2"), org_uuid: s("o") });
    assign(&mut store, "b", "k2");
    link(&mut store, "y", "k2");
    let visible = Cipher::find_by_user("b", &store);
    let ids: Vec<&str> = visible.iter().map(|c| c.uuid.as_str()).collect();
    assert_eq!(ids, vec!["y"]);
}

#[test]
fn member_scenario_listing_and_collections() {
    let store = scenario();
    let y = org_cipher("y", "o");
    assert!(!y.is_write_accessible_to_user("b", &store));
    assert_eq!(y.get_collections("b", &store), vec![s("k")]);
    let visible = Cipher::find_by_user("b", &store);
    assert!(visible.iter().any(|c| c.uuid == "y"));
    assert!(!visible.iter().any(|c| c.uuid == "x"));
    let owner_view = Cipher::find_by_user("a", &store);
    assert_eq!(owner_view.len(), 1);
    assert_eq!(owner_view[0].uuid, "x");
}

#[test]
fn admins_see_all_org_ciphers() {
    let mut store = scenario();
    store.ciphers.push(org_cipher("z", "o"));
    member(&mut store, "adm", "o", false, UserOrgType::Owner);
    let ids: Vec<String> = Cipher::find_by_user("adm", &store).into_iter().map(|c| c.uuid).collect();
    assert_eq!(ids, vec![s("y"), s("z")]);
    let y = org_cipher("y", "o");
    assert_eq!(y.get_collections("adm", &store), vec![s("k")]);
}

#[test]
fn collections_empty_without_membership() {
    let store = scenario();
    let y = org_cipher("y", "o");
    assert!(y.get_collections("stranger", &store).is_empty());
    let x = personal("x", "a");
    assert!(x.get_collections("a", &store).is_empty());
}

#[test]
fn lookups_by_owner_org_and_uuid() {
    let store = scenario();
    assert_eq!(Cipher::find_owned_by_user("a", &store).len(), 1);
    assert_eq!(Cipher::find_by_org("o", &store)[0].uuid, "y");
    assert!(Cipher::find_by_uuid("y", &store).is_some());
    assert!(Cipher::find_by_uuid("nope", &store).is_none());
}
