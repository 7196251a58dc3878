//! Cipher lifecycle: creation, saving, ordered deletion, and lookups.
use vstd::prelude::*;
use crate::model::{Attachment, Cipher, Table, VaultError};
use crate::store::{not_keyed, without_key, RowKey, Store};
use crate::folder::link_in;
use crate::outside::{new_uuid, now_millis};

verus! {

/// The directory tables (memberships, collections, assignments, folders), the
/// events and the failing table are the same in `a` and `b`.
pub open spec fn same_directory_and_events(a: &Store, b: &Store) -> bool {
    &&& a.users_organizations == b.users_organizations
    &&& a.collections == b.collections
    &&& a.users_collections == b.users_collections
    &&& a.folders == b.folders
    &&& a.events == b.events
    &&& a.failing == b.failing
}

/// The name of the field that repeats a cipher's data for its type.
pub open spec fn spec_type_key(t: i32) -> Seq<char> {
    if t == 1 {
        "Login"@
    } else if t == 2 {
        "SecureNote"@
    } else if t == 3 {
        "Card"@
    } else {
        "Identity"@
    }
}

pub open spec fn owned_by(user: Seq<char>) -> spec_fn(Cipher) -> bool {
    |c: Cipher| c.user_uuid matches Some(u) && u@ == user
}

pub open spec fn held_by_org(org: Seq<char>) -> spec_fn(Cipher) -> bool {
    |c: Cipher| c.organization_uuid matches Some(o) && o@ == org
}

pub open spec fn in_folder(fc: Seq<crate::model::FolderCipher>, folder: Seq<char>) -> spec_fn(Cipher) -> bool {
    |c: Cipher| link_in(fc, folder, c.uuid@)
}

/// The first cipher of `ciphers` with id `uuid`.
pub open spec fn spec_find_cipher(ciphers: Seq<Cipher>, uuid: Seq<char>) -> Option<Cipher>
    decreases ciphers.len(),
{
    if ciphers.len() == 0 {
        None
    } else if ciphers[0].uuid@ == uuid {
        Some(ciphers[0])
    } else {
        spec_find_cipher(ciphers.drop_first(), uuid)
    }
}

/// The first match is a match, and there is one exactly when some cipher has the id.
pub proof fn lemma_find_cipher(ciphers: Seq<Cipher>, uuid: Seq<char>)
    ensures
        spec_find_cipher(ciphers, uuid) is None <==> !exists|j: int|
            0 <= j < ciphers.len() && #[trigger] ciphers[j].uuid@ == uuid,
        spec_find_cipher(ciphers, uuid) matches Some(c) ==> ciphers.contains(c) && c.uuid@ == uuid,
    decreases ciphers.len(),
{
    if ciphers.len() > 0 {
        let rest = ciphers.drop_first();
        lemma_find_cipher(rest, uuid);
        if ciphers[0].uuid@ != uuid {
            if exists|j: int| 0 <= j < ciphers.len() && #[trigger] ciphers[j].uuid@ == uuid {
                let j = choose|j: int| 0 <= j < ciphers.len() && #[trigger] ciphers[j].uuid@ == uuid;
                assert(rest[j - 1] == ciphers[j]);
            }
            if spec_find_cipher(rest, uuid) is Some {
                let c = spec_find_cipher(rest, uuid)->0;
                let k = choose|k: int| 0 <= k < rest.len() && rest[k] == c;
                assert(ciphers[k + 1] == c);
            }
        }
    }
}

impl Cipher {
    /// A cipher with the given id and creation time; it fails with
    /// `InvalidOwner` unless exactly one owner is given, then with
    /// `InvalidType` unless the type is 1 to 4.
    pub fn from_parts(
        uuid: String,
        now: i64,
        type_: i32,
        name: String,
        user_uuid: Option<String>,
        organization_uuid: Option<String>,
    ) -> (r: Result<Cipher, VaultError>)
        ensures
            r == Err::<Cipher, VaultError>(VaultError::InvalidOwner) <==> (user_uuid is Some)
                == (organization_uuid is Some),
            r == Err::<Cipher, VaultError>(VaultError::InvalidType) <==> (user_uuid is Some)
                != (organization_uuid is Some) && !(1 <= type_ <= 4),
            r is Ok <==> (user_uuid is Some) != (organization_uuid is Some) && 1 <= type_ <= 4,
            r matches Ok(c) ==> {
                &&& c.wf()
                &&& c.uuid == uuid
                &&& c.created_at == now
                &&& c.updated_at == now
                &&& c.user_uuid == user_uuid
                &&& c.organization_uuid == organization_uuid
                &&& c.type_ == type_
                &&& c.name == name
                &&& c.notes is None
                &&& c.fields is None
                &&& c.data@.len() == 0
                &&& !c.favorite
            },
    {
        if user_uuid.is_some() == organization_uuid.is_some() {
            return Err(VaultError::InvalidOwner);
        }
        if type_ < 1 || type_ > 4 {
            return Err(VaultError::InvalidType);
        }
        Ok(Cipher {
            uuid,
            created_at: now,
            updated_at: now,
            user_uuid,
            organization_uuid,
            type_,
            name,
            notes: None,
            fields: None,
            data: String::new(),
            favorite: false,
        })
    }

    /// A new cipher with a fresh id, created now, owned by exactly one of
    /// `user_uuid` and `organization_uuid`.
    pub fn new(type_: i32, name: String, user_uuid: Option<String>, organization_uuid: Option<String>) -> (r:
        Result<Cipher, VaultError>)
        ensures
            r == Err::<Cipher, VaultError>(VaultError::InvalidOwner) <==> (user_uuid is Some)
                == (organization_uuid is Some),
            r == Err::<Cipher, VaultError>(VaultError::InvalidType) <==> (user_uuid is Some)
                != (organization_uuid is Some) && !(1 <= type_ <= 4),
            r is Ok <==> (user_uuid is Some) != (organization_uuid is Some) && 1 <= type_ <= 4,
            r matches Ok(c) ==> {
                &&& c.wf()
                &&& c.uuid@.len() == 36
                &&& c.created_at == c.updated_at
                &&& c.user_uuid == user_uuid
                &&& c.organization_uuid == organization_uuid
                &&& c.type_ == type_
                &&& c.name == name
                &&& c.notes is None
                &&& c.fields is None
                &&& c.data@.len() == 0
                &&& !c.favorite
            },
    {
        let uuid = new_uuid();
        let now = now_millis();
        Cipher::from_parts(uuid, now, type_, name, user_uuid, organization_uuid)
    }

    /// The field name under which this cipher's data is repeated for its type.
    pub fn type_key(&self) -> (r: &'static str)
        requires
            1 <= self.type_ <= 4,
        ensures
            r@ == spec_type_key(self.type_),
    {
        if self.type_ == 1 {
            "Login"
        } else if self.type_ == 2 {
            "SecureNote"
        } else if self.type_ == 3 {
            "Card"
        } else {
            "Identity"
        }
    }

    /// Stamps `now` as the update time and stores the cipher, replacing the
    /// row with its id. False when the store refuses the write.
    pub fn save_at(&mut self, now: i64, conn: &mut Store) -> (r: bool)
        ensures
            old(conn).wf() ==> final(conn).wf(),
            final(self).updated_at == now,
            *final(self) == (Cipher { updated_at: now, ..*old(self) }),
            r == !old(conn).spec_fails(Table::Ciphers),
            !r ==> *final(conn) == *old(conn),
            r ==> final(conn).ciphers@ == old(conn).ciphers@.filter(not_keyed::<Cipher>(old(self).uuid@)).push(
                *final(self),
            ),
            same_directory_and_events(old(conn), final(conn)),
            final(conn).folders_ciphers == old(conn).folders_ciphers,
            final(conn).ciphers_collections == old(conn).ciphers_collections,
            final(conn).attachments == old(conn).attachments,
    {
        self.updated_at = now;
        if conn.fails(Table::Ciphers) {
            return false;
        }
        let ghost before = conn.ciphers@;
        let mut rows = without_key(&conn.ciphers, &self.uuid);
        rows.push(self.cloned());
        conn.ciphers = rows;
        proof {
            if old(conn).wf() {
                crate::store::lemma_upsert_keys_unique(before, *self);
            }
        }
        true
    }

    /// Stamps the current time as the update time and stores the cipher.
    pub fn save(&mut self, conn: &mut Store) -> (r: bool)
        ensures
            old(conn).wf() ==> final(conn).wf(),
            *final(self) == (Cipher { updated_at: final(self).updated_at, ..*old(self) }),
            r == !old(conn).spec_fails(Table::Ciphers),
            !r ==> *final(conn) == *old(conn),
            r ==> final(conn).ciphers@ == old(conn).ciphers@.filter(not_keyed::<Cipher>(old(self).uuid@)).push(
                *final(self),
            ),
            same_directory_and_events(old(conn), final(conn)),
            final(conn).folders_ciphers == old(conn).folders_ciphers,
            final(conn).ciphers_collections == old(conn).ciphers_collections,
            final(conn).attachments == old(conn).attachments,
    {
        let now = now_millis();
        self.save_at(now, conn)
    }

    /// Deletes this cipher: first its folder links, then its collection
    /// links, then its attachments, and only then its row. The first step the
    /// store refuses fails the whole operation, and no later step is taken.
    pub fn delete(self, conn: &mut Store) -> (r: Result<(), VaultError>)
        ensures
            old(conn).wf() ==> final(conn).wf(),
            same_directory_and_events(old(conn), final(conn)),
            r is Err <==> (old(conn).failing is Some && old(conn).failing != Some(Table::Events)),
            r matches Err(e) ==> e == VaultError::StoreFailure,
            final(conn).folders_ciphers@ == if old(conn).spec_fails(Table::FoldersCiphers) {
                old(conn).folders_ciphers@
            } else {
                old(conn).folders_ciphers@.filter(not_keyed(self.uuid@))
            },
            final(conn).ciphers_collections@ == if old(conn).spec_fails(Table::FoldersCiphers)
                || old(conn).spec_fails(Table::CiphersCollections) {
                old(conn).ciphers_collections@
            } else {
                old(conn).ciphers_collections@.filter(not_keyed(self.uuid@))
            },
            final(conn).attachments@ == if old(conn).spec_fails(Table::FoldersCiphers)
                || old(conn).spec_fails(Table::CiphersCollections) || old(conn).spec_fails(
                Table::Attachments,
            ) {
                old(conn).attachments@
            } else {
                old(conn).attachments@.filter(not_keyed(self.uuid@))
            },
            final(conn).ciphers@ == if r is Err {
                old(conn).ciphers@
            } else {
                old(conn).ciphers@.filter(not_keyed(self.uuid@))
            },
    {
        if conn.fails(Table::FoldersCiphers) {
            return Err(VaultError::StoreFailure);
        }
        conn.folders_ciphers = without_key(&conn.folders_ciphers, &self.uuid);
        if conn.fails(Table::CiphersCollections) {
            return Err(VaultError::StoreFailure);
        }
        conn.ciphers_collections = without_key(&conn.ciphers_collections, &self.uuid);
        if conn.fails(Table::Attachments) {
            return Err(VaultError::StoreFailure);
        }
        conn.attachments = without_key(&conn.attachments, &self.uuid);
        if conn.fails(Table::Ciphers) {
            return Err(VaultError::StoreFailure);
        }
        let ghost before = conn.ciphers@;
        conn.ciphers = without_key(&conn.ciphers, &self.uuid);
        proof {
            if old(conn).wf() {
                crate::store::lemma_filter_keys_unique(before, not_keyed::<Cipher>(self.uuid@));
            }
            if conn.failing is Some {
                let t = conn.failing->0;
                assert(t is Events);
            }
        }
        Ok(())
    }

    /// The first cipher with id `uuid`.
    pub fn find_by_uuid(uuid: &str, conn: &Store) -> (r: Option<Cipher>)
        ensures
            r == spec_find_cipher(conn.ciphers@, uuid@),
            r is None <==> !exists|j: int| 0 <= j < conn.ciphers@.len() && #[trigger] conn.ciphers@[j].uuid@ == uuid@,
            r matches Some(c) ==> conn.ciphers@.contains(c) && c.uuid@ == uuid@,
            conn.wf() ==> forall|j: int|
                0 <= j < conn.ciphers@.len() && #[trigger] conn.ciphers@[j].uuid@ == uuid@ ==> r == Some(
                    conn.ciphers@[j],
                ),
    {
        let id = uuid.to_owned();
        let rows = &conn.ciphers;
        proof {
            lemma_find_cipher(rows@, uuid@);
            assert(rows@.subrange(0, rows@.len() as int) =~= rows@);
        }
        let mut j: usize = 0;
        while j < rows.len()
            invariant
                j <= rows.len(),
                rows == &conn.ciphers,
                id@ == uuid@,
                forall|k: int| 0 <= k < j ==> #[trigger] rows@[k].uuid@ != uuid@,
                spec_find_cipher(rows@, uuid@) == spec_find_cipher(rows@.subrange(j as int, rows@.len() as int), uuid@),
            decreases rows.len() - j,
        {
            proof {
                let rest = rows@.subrange(j as int, rows@.len() as int);
                assert(rest.drop_first() =~= rows@.subrange(j + 1, rows@.len() as int));
                assert(rest[0] == rows@[j as int]);
            }
            if rows[j].uuid.eq(&id) {
                let c = rows[j].cloned();
                assert(rows@[j as int] == c);
                proof {
                    if conn.wf() {
                        assert forall|m: int| 0 <= m < rows@.len() && #[trigger] rows@[m].uuid@ == uuid@ implies rows@[m] == c by {
                            if m < j {
                                assert(rows@[m].row_key() != rows@[j as int].row_key());
                            } else if j < m {
                                assert(rows@[j as int].row_key() != rows@[m].row_key());
                            }
                        }
                    }
                }
                return Some(c);
            }
            j = j + 1;
        }
        None
    }

    /// The ciphers owned personally by `user_uuid`, in store order.
    pub fn find_owned_by_user(user_uuid: &str, conn: &Store) -> (r: Vec<Cipher>)
        ensures
            r@ == conn.ciphers@.filter(owned_by(user_uuid@)),
    {
        let user = user_uuid.to_owned();
        let rows = &conn.ciphers;
        let mut out: Vec<Cipher> = Vec::new();
        let mut j: usize = 0;
        while j < rows.len()
            invariant
                j <= rows.len(),
                rows == &conn.ciphers,
                user@ == user_uuid@,
                out@ == rows@.subrange(0, j as int).filter(owned_by(user_uuid@)),
            decreases rows.len() - j,
        {
            proof {
                assert(rows@.subrange(0, j + 1) =~= rows@.subrange(0, j as int).push(rows@[j as int]));
                rows@.subrange(0, j as int).lemma_filter_push(rows@[j as int], owned_by(user_uuid@));
            }
            let keep = match &rows[j].user_uuid {
                Some(u) => u.eq(&user),
                None => false,
            };
            if keep {
                out.push(rows[j].cloned());
            }
            j = j + 1;
        }
        assert(rows@.subrange(0, rows@.len() as int) =~= rows@);
        out
    }

    /// The ciphers of organization `org_uuid`, in store order.
    pub fn find_by_org(org_uuid: &str, conn: &Store) -> (r: Vec<Cipher>)
        ensures
            r@ == conn.ciphers@.filter(held_by_org(org_uuid@)),
    {
        let org = org_uuid.to_owned();
        let rows = &conn.ciphers;
        let mut out: Vec<Cipher> = Vec::new();
        let mut j: usize = 0;
        while j < rows.len()
            invariant
                j <= rows.len(),
                rows == &conn.ciphers,
                org@ == org_uuid@,
                out@ == rows@.subrange(0, j as int).filter(held_by_org(org_uuid@)),
            decreases rows.len() - j,
        {
            proof {
                assert(rows@.subrange(0, j + 1) =~= rows@.subrange(0, j as int).push(rows@[j as int]));
                rows@.subrange(0, j as int).lemma_filter_push(rows@[j as int], held_by_org(org_uuid@));
            }
            let keep = match &rows[j].organization_uuid {
                Some(o) => o.eq(&org),
                None => false,
            };
            if keep {
                out.push(rows[j].cloned());
            }
            j = j + 1;
        }
        assert(rows@.subrange(0, rows@.len() as int) =~= rows@);
        out
    }

    /// The ciphers placed in folder `folder_uuid`, in store order.
    pub fn find_by_folder(folder_uuid: &str, conn: &Store) -> (r: Vec<Cipher>)
        ensures
            r@ == conn.ciphers@.filter(in_folder(conn.folders_ciphers@, folder_uuid@)),
    {
        let folder = folder_uuid.to_owned();
        let rows = &conn.ciphers;
        let pred = Ghost(in_folder(conn.folders_ciphers@, folder_uuid@));
        let mut out: Vec<Cipher> = Vec::new();
        let mut j: usize = 0;
        while j < rows.len()
            invariant
                j <= rows.len(),
                rows == &conn.ciphers,
                folder@ == folder_uuid@,
                pred@ == in_folder(conn.folders_ciphers@, folder_uuid@),
                out@ == rows@.subrange(0, j as int).filter(pred@),
            decreases rows.len() - j,
        {
            proof {
                assert(rows@.subrange(0, j + 1) =~= rows@.subrange(0, j as int).push(rows@[j as int]));
                rows@.subrange(0, j as int).lemma_filter_push(rows@[j as int], pred@);
            }
            if crate::folder::has_link(conn, &folder, &rows[j].uuid) {
                out.push(rows[j].cloned());
            }
            j = j + 1;
        }
        assert(rows@.subrange(0, rows@.len() as int) =~= rows@);
        out
    }
}

impl Attachment {
    /// The attachments of cipher `cipher_uuid`, in store order.
    pub fn find_by_cipher(cipher_uuid: &str, conn: &Store) -> (r: Vec<Attachment>)
        ensures
            r@ == conn.attachments@.filter(|a: Attachment| a.cipher_uuid@ == cipher_uuid@),
    {
        let cipher = cipher_uuid.to_owned();
        let rows = &conn.attachments;
        let pred = Ghost(|a: Attachment| a.cipher_uuid@ == cipher_uuid@);
        let mut out: Vec<Attachment> = Vec::new();
        let mut j: usize = 0;
        while j < rows.len()
            invariant
                j <= rows.len(),
                rows == &conn.attachments,
                cipher@ == cipher_uuid@,
                pred@ == (|a: Attachment| a.cipher_uuid@ == cipher_uuid@),
                out@ == rows@.subrange(0, j as int).filter(pred@),
            decreases rows.len() - j,
        {
            proof {
                assert(rows@.subrange(0, j + 1) =~= rows@.subrange(0, j as int).push(rows@[j as int]));
                rows@.subrange(0, j as int).lemma_filter_push(rows@[j as int], pred@);
            }
            if rows[j].cipher_uuid.eq(&cipher) {
                out.push(rows[j].cloned_row());
            }
            j = j + 1;
        }
        assert(rows@.subrange(0, rows@.len() as int) =~= rows@);
        out
    }
}

/// Storing a well-formed cipher into a table of well-formed ciphers, as
/// `save` does, keeps every cipher with exactly one owner.
pub proof fn lemma_save_keeps_ciphers_well_formed(rows: Seq<Cipher>, c: Cipher)
    requires
        forall|i: int| 0 <= i < rows.len() ==> (#[trigger] rows[i]).wf(),
        c.wf(),
    ensures
        forall|i: int|
            0 <= i < rows.filter(not_keyed::<Cipher>(c.uuid@)).push(c).len() ==> (#[trigger] rows.filter(
                not_keyed::<Cipher>(c.uuid@),
            ).push(c)[i]).wf(),
{
    let p = not_keyed::<Cipher>(c.uuid@);
    let f = rows.filter(p);
    assert forall|i: int| 0 <= i < f.push(c).len() implies (#[trigger] f.push(c)[i]).wf() by {
        if i < f.len() {
            let x = f[i];
            assert(f.contains(x));
            rows.lemma_filter_contains_rev(p, x);
        }
    }
}

} // verus!
