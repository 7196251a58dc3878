use vault_core::model::{Cipher, Folder, FolderCipher, Table, VaultError};
use vault_core::store::Store;

fn s(x: &str) -> String {
    x.to_string()
}

fn setup() -> (Store, Cipher) {
    let mut store = Store::new();
    let c = Cipher::from_parts(s("c"), 1, 1, s("n"), Some(s("u")), None).unwrap();
    store.ciphers.push(Cipher::from_parts(s("c"), 1, 1, s("n"), Some(s("u")), None).unwrap());
    store.folders.push(Folder { uuid: s("f"), user_uuid: s("u") });
    store.folders.push(Folder { uuid: s("g"), user_uuid: s("u") });
    (store, c)
}

fn links(store: &Store) -> Vec<(String, String)> {
    store.folders_ciphers.iter().map(|l| (l.folder_uuid.clone(), l.cipher_uuid.clone())).collect()
}

#[test]
fn none_to_none_is_a_no_op() {
    let (mut store, c) = setup();
    assert_eq!(c.move_to_folder(None, "u", &mut store), Ok(()));
    assert!(store.folders_ciphers.is_empty());
}

#[test]
fn none_to_folder_creates_one_link() {
    let (mut store, c) = setup();
    assert_eq!(c.move_to_folder(Some(s("f")), "u", &mut store), Ok(()));
    assert_eq!(links(&store), vec![(s("f"), s("c"))]);
    assert_eq!(c.get_folder_uuid("u", &store), Some(s("f")));
    assert_eq!(Cipher::find_by_folder("f", &store).len(), 1);
}

#[test]
fn same_folder_is_a_no_op() {
    let (mut store, c) = setup();
    c.move_to_folder(Some(s("f")), "u", &mut store).unwrap();
    assert_eq!(c.move_to_folder(Some(s("f")), "u", &mut store), Ok(()));
    assert_eq!(links(&store), vec![(s("f"), s("c"))]);
}

#[test]
fn other_folder_replaces_the_link() {
    let (mut store, c) = setup();
    c.move_to_folder(Some(s("f")), "u", &mut store).unwrap();
    assert_eq!(c.move_to_folder(Some(s("g")), "u", &mut store), Ok(()));
    assert_eq!(links(&store), vec![(s("g"), s("c"))]);
    assert_eq!(c.get_folder_uuid("u", &store), Some(s("g")));
}

#[test]
fn folder_to_none_removes_the_link() {
    let (mut store, c) = setup();
    c.move_to_folder(Some(s("f")), "u", &mut store).unwrap();
    assert_eq!(c.move_to_folder(None, "u", &mut store), Ok(()));
    assert!(store.folders_ciphers.is_empty());
    assert_eq!(c.get_folder_uuid("u", &store), None);
}

#[test]
fn removal_of_a_missing_link_is_inconsistent() {
    let (mut store, c) = setup();
    assert_eq!(c.move_from_folder(Some(s("f")), None, &mut store), Err(VaultError::InconsistentState));
    assert!(store.folders_ciphers.is_empty());
    // The new link is still made when the old one is missing.
    assert_eq!(c.move_from_folder(Some(s("f")), Some(s("g")), &mut store), Err(VaultError::InconsistentState));
    assert_eq!(links(&store), vec![(s("g"), s("c"))]);
}

#[test]
fn refused_link_write_changes_nothing() {
    let (mut store, c) = setup();
    store.failing = Some(Table::FoldersCiphers);
    assert_eq!(c.move_to_folder(Some(s("f")), "u", &mut store), Err(VaultError::StoreFailure));
    assert!(store.folders_ciphers.is_empty());
}

#[test]
fn saving_a_link_twice_keeps_one() {
    let (mut store, _) = setup();
    FolderCipher::new("f", "c").save(&mut store).unwrap();
    FolderCipher::new("f", "c").save(&mut store).unwrap();
    assert_eq!(store.folders_ciphers.len(), 1);
    FolderCipher::new("f", "c").delete(&mut store).unwrap();
    assert!(store.folders_ciphers.is_empty());
}
