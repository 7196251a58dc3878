use vault_core::model::{Attachment, Cipher, CollectionCipher, Folder, FolderCipher, Table, VaultError};
use vault_core::store::Store;

fn s(x: &str) -> String {
    x.to_string()
}

fn cipher(id: &str) -> Cipher {
    Cipher::from_parts(s(id), 1, 1, s("n"), Some(s("u")), None).unwrap()
}

fn populated() -> Store {
    let mut store = Store::new();
    store.ciphers.push(cipher("c"));
    store.ciphers.push(cipher("d"));
    store.folders.push(Folder { uuid: s("f"), user_uuid: s("u") });
    store.folders_ciphers.push(FolderCipher { cipher_uuid: s("c"), folder_uuid: s("f") });
    store.folders_ciphers.push(FolderCipher { cipher_uuid: s("d"), folder_uuid: s("f") });
    store.ciphers_collections.push(CollectionCipher { cipher_uuid: s("c"), collection_uuid: s("k") });
    store.attachments.push(Attachment { id: s("a1"), cipher_uuid: s("c"), file_name: s("f.txt") });
    store
}

#[test]
fn delete_removes_links_then_row() {
    let mut store = populated();
    assert_eq!(cipher("c").delete(&mut store), Ok(()));
    assert_eq!(store.ciphers.len(), 1);
    assert_eq!(store.ciphers[0].uuid, "d");
    assert_eq!(store.folders_ciphers.len(), 1);
    assert_eq!(store.folders_ciphers[0].cipher_uuid, "d");
    assert!(store.ciphers_collections.is_empty());
    assert!(store.attachments.is_empty());
    assert!(Attachment::find_by_cipher("c", &store).is_empty());
}

#[test]
fn failed_attachment_removal_keeps_the_cipher() {
    let mut store = populated();
    store.failing = Some(Table::Attachments);
    assert_eq!(cipher("c").delete(&mut store), Err(VaultError::StoreFailure));
    assert!(Cipher::find_by_uuid("c", &store).is_some());
    assert_eq!(store.attachments.len(), 1);
    // Earlier steps were carried out before the failure.
    assert_eq!(store.folders_ciphers.len(), 1);
    assert!(store.ciphers_collections.is_empty());
}

#[test]
fn failed_first_step_changes_nothing() {
    let mut store = populated();
    store.failing = Some(Table::FoldersCiphers);
    assert_eq!(cipher("c").delete(&mut store), Err(VaultError::StoreFailure));
    assert_eq!(store.folders_ciphers.len(), 2);
    assert_eq!(store.ciphers_collections.len(), 1);
    assert_eq!(store.ciphers.len(), 2);
}

#[test]
fn save_refreshes_update_time_and_replaces_row() {
    let mut store = populated();
    let mut c = cipher("c");
    c.name = s("renamed");
    assert!(c.save_at(99, &mut store));
    assert_eq!(c.updated_at, 99);
    assert_eq!(c.created_at, 1);
    assert_eq!(store.ciphers.len(), 2);
    let stored = Cipher::find_by_uuid("c", &store).unwrap();
    assert_eq!(stored.name, "renamed");
    assert_eq!(stored.updated_at, 99);
    let mut fresh = cipher("e");
    assert!(fresh.save(&mut store));
    assert_eq!(store.ciphers.len(), 3);
}

#[test]
fn refused_save_reports_false() {
    let mut store = populated();
    store.failing = Some(Table::Ciphers);
    let mut c = cipher("c");
    c.name = s("renamed");
    assert!(!c.save_at(5, &mut store));
    assert_eq!(Cipher::find_by_uuid("c", &store).unwrap().name, "n");
}
