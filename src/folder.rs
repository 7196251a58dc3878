//! Folder assignment: at most one personal folder per user and cipher.
use vstd::prelude::*;
use crate::model::{Cipher, FolderCipher, Table, VaultError};
use crate::store::Store;

verus! {

/// Folder `folder` belongs to `user`.
pub open spec fn spec_folder_of_user(s: &Store, folder: Seq<char>, user: Seq<char>) -> bool {
    exists|m: int|
        0 <= m < s.folders@.len() && #[trigger] s.folders@[m].uuid@ == folder && s.folders@[m].user_uuid@
            == user
}

/// `row` places `cipher` in a folder that `s` gives to `user`.
pub open spec fn user_row(s: &Store, row: FolderCipher, user: Seq<char>, cipher: Seq<char>) -> bool {
    row.cipher_uuid@ == cipher && spec_folder_of_user(s, row.folder_uuid@, user)
}

/// Link row `j` of the store places `cipher` in a folder of `user`.
pub open spec fn user_link_at(s: &Store, j: int, user: Seq<char>, cipher: Seq<char>) -> bool {
    0 <= j < s.folders_ciphers@.len() && user_row(s, s.folders_ciphers@[j], user, cipher)
}

/// At most one row of `fc` places `cipher` in a folder of `user`.
pub open spec fn one_folder_in(s: &Store, fc: Seq<FolderCipher>, user: Seq<char>, cipher: Seq<char>) -> bool {
    forall|a: int, b: int|
        0 <= a < fc.len() && 0 <= b < fc.len() && #[trigger] user_row(s, fc[a], user, cipher) && #[trigger] user_row(
            s,
            fc[b],
            user,
            cipher,
        ) ==> a == b
}

/// No row of `fc` places `cipher` in a folder of `user`.
pub open spec fn no_folder_in(s: &Store, fc: Seq<FolderCipher>, user: Seq<char>, cipher: Seq<char>) -> bool {
    forall|j: int| 0 <= j < fc.len() ==> !#[trigger] user_row(s, fc[j], user, cipher)
}

/// A row of `fc` places `cipher` in folder `folder` of `user`.
pub open spec fn folder_in(
    s: &Store,
    fc: Seq<FolderCipher>,
    user: Seq<char>,
    cipher: Seq<char>,
    folder: Seq<char>,
) -> bool {
    exists|j: int| 0 <= j < fc.len() && #[trigger] user_row(s, fc[j], user, cipher) && fc[j].folder_uuid@ == folder
}

/// The folder of the first row of `fc` placing `cipher` in a folder of `user`.
pub open spec fn first_folder(s: &Store, fc: Seq<FolderCipher>, user: Seq<char>, cipher: Seq<char>) -> Option<
    Seq<char>,
>
    decreases fc.len(),
{
    if fc.len() == 0 {
        None
    } else if user_row(s, fc[0], user, cipher) {
        Some(fc[0].folder_uuid@)
    } else {
        first_folder(s, fc.drop_first(), user, cipher)
    }
}

/// The first folder is a folder of a user row, and there is none exactly
/// when no row places the cipher in a folder of the user; with at most one
/// such row it is that row's folder.
pub proof fn lemma_first_folder(s: &Store, fc: Seq<FolderCipher>, user: Seq<char>, cipher: Seq<char>)
    ensures
        first_folder(s, fc, user, cipher) is None <==> no_folder_in(s, fc, user, cipher),
        first_folder(s, fc, user, cipher) matches Some(f) ==> folder_in(s, fc, user, cipher, f),
        forall|g: Seq<char>|
            one_folder_in(s, fc, user, cipher) && #[trigger] folder_in(s, fc, user, cipher, g) ==> first_folder(
                s,
                fc,
                user,
                cipher,
            ) == Some(g),
    decreases fc.len(),
{
    if fc.len() > 0 {
        let rest = fc.drop_first();
        lemma_first_folder(s, rest, user, cipher);
        assert forall|j: int| 0 <= j < rest.len() implies rest[j] == fc[j + 1] by {}
        if !user_row(s, fc[0], user, cipher) {
            if !no_folder_in(s, fc, user, cipher) {
                let j = choose|j: int| 0 <= j < fc.len() && #[trigger] user_row(s, fc[j], user, cipher);
                assert(user_row(s, rest[j - 1], user, cipher));
            }
            if let Some(f) = first_folder(s, rest, user, cipher) {
                let j = choose|j: int| 0 <= j < rest.len() && #[trigger] user_row(s, rest[j], user, cipher) && rest[j].folder_uuid@ == f;
                assert(user_row(s, fc[j + 1], user, cipher));
            }
        } else {
            assert(user_row(s, fc[0], user, cipher));
        }
        if first_folder(s, fc, user, cipher) is None {
            assert forall|j: int| 0 <= j < fc.len() implies !#[trigger] user_row(s, fc[j], user, cipher) by {
                if j > 0 {
                    assert(fc[j] == rest[j - 1]);
                }
            }
        }
        assert forall|g: Seq<char>|
            one_folder_in(s, fc, user, cipher) && #[trigger] folder_in(s, fc, user, cipher, g) implies first_folder(
            s,
            fc,
            user,
            cipher,
        ) == Some(g) by {
            let k = choose|k: int| 0 <= k < fc.len() && #[trigger] user_row(s, fc[k], user, cipher) && fc[k].folder_uuid@ == g;
            let f = first_folder(s, fc, user, cipher)->0;
            let j = choose|j: int| 0 <= j < fc.len() && #[trigger] user_row(s, fc[j], user, cipher) && fc[j].folder_uuid@ == f;
            assert(j == k);
        }
    }
}

/// A user row preceded by none is the one `first_folder` finds.
proof fn lemma_first_folder_at(s: &Store, fc: Seq<FolderCipher>, user: Seq<char>, cipher: Seq<char>, j: int)
    requires
        0 <= j < fc.len(),
        user_row(s, fc[j], user, cipher),
        forall|k: int| 0 <= k < j ==> !#[trigger] user_row(s, fc[k], user, cipher),
    ensures
        first_folder(s, fc, user, cipher) == Some(fc[j].folder_uuid@),
    decreases j,
{
    if j > 0 {
        let rest = fc.drop_first();
        assert(!user_row(s, fc[0], user, cipher));
        assert forall|k: int| 0 <= k < j - 1 implies !#[trigger] user_row(s, rest[k], user, cipher) by {
            assert(rest[k] == fc[k + 1]);
        }
        assert(rest[j - 1] == fc[j]);
        lemma_first_folder_at(s, rest, user, cipher, j - 1);
    }
}

/// Removing the links of `cipher` to `folder`, its one folder for `user`,
/// leaves it in no folder of that user.
proof fn lemma_unlink_clears(s: &Store, fc: Seq<FolderCipher>, folder: Seq<char>, user: Seq<char>, cipher: Seq<char>)
    requires
        one_folder_in(s, fc, user, cipher),
        folder_in(s, fc, user, cipher, folder),
    ensures
        no_folder_in(s, fc.filter(not_link(folder, cipher)), user, cipher),
{
    let p = not_link(folder, cipher);
    let f = fc.filter(p);
    let j0 = choose|j: int| 0 <= j < fc.len() && #[trigger] user_row(s, fc[j], user, cipher) && fc[j].folder_uuid@ == folder;
    assert forall|j: int| 0 <= j < f.len() implies !#[trigger] user_row(s, f[j], user, cipher) by {
        if user_row(s, f[j], user, cipher) {
            let x = f[j];
            fc.lemma_filter_pred(p, j);
            assert(f.contains(x));
            fc.lemma_filter_contains_rev(p, x);
            let i = choose|i: int| 0 <= i < fc.len() && fc[i] == x;
            assert(user_row(s, fc[i], user, cipher));
            assert(i == j0);
        }
    }
}

/// Adding a link of `cipher` to `folder` of `user`, when it was in no folder
/// of that user, leaves it in that folder alone.
proof fn lemma_link_places(
    s: &Store,
    old_fc: Seq<FolderCipher>,
    new_fc: Seq<FolderCipher>,
    folder: Seq<char>,
    user: Seq<char>,
    cipher: Seq<char>,
)
    requires
        no_folder_in(s, old_fc, user, cipher),
        spec_folder_of_user(s, folder, user),
        link_added(old_fc, new_fc, folder, cipher),
    ensures
        one_folder_in(s, new_fc, user, cipher),
        folder_in(s, new_fc, user, cipher, folder),
{
    if link_in(old_fc, folder, cipher) {
        let j = choose|j: int| 0 <= j < old_fc.len() && #[trigger] old_fc[j].folder_uuid@ == folder && old_fc[j].cipher_uuid@ == cipher;
        assert(user_row(s, old_fc[j], user, cipher));
    }
    let n = old_fc.len() as int;
    assert forall|a: int| 0 <= a < new_fc.len() && #[trigger] user_row(s, new_fc[a], user, cipher) implies a == n by {
        if a < n {
            assert(new_fc.drop_last()[a] == new_fc[a]);
            assert(!user_row(s, old_fc[a], user, cipher));
        }
    }
    assert(user_row(s, new_fc[n], user, cipher));
}

/// The link table holds a row placing `cipher` in `folder`.
pub open spec fn link_in(fc: Seq<FolderCipher>, folder: Seq<char>, cipher: Seq<char>) -> bool {
    exists|j: int| 0 <= j < fc.len() && #[trigger] fc[j].folder_uuid@ == folder && fc[j].cipher_uuid@ == cipher
}

/// The rows other than those placing `cipher` in `folder`.
pub open spec fn not_link(folder: Seq<char>, cipher: Seq<char>) -> spec_fn(FolderCipher) -> bool {
    |r: FolderCipher| !(r.folder_uuid@ == folder && r.cipher_uuid@ == cipher)
}

/// `new` is `old` with the link `folder`/`cipher` added once.
pub open spec fn link_added(old: Seq<FolderCipher>, new: Seq<FolderCipher>, folder: Seq<char>, cipher: Seq<char>) -> bool {
    if link_in(old, folder, cipher) {
        new == old
    } else {
        &&& new.len() == old.len() + 1
        &&& new.drop_last() == old
        &&& new.last().folder_uuid@ == folder
        &&& new.last().cipher_uuid@ == cipher
    }
}

/// Every table but the folder links is the same in `a` and `b`.
pub open spec fn same_but_folder_links(a: &Store, b: &Store) -> bool {
    &&& a.users_organizations == b.users_organizations
    &&& a.collections == b.collections
    &&& a.users_collections == b.users_collections
    &&& a.ciphers == b.ciphers
    &&& a.ciphers_collections == b.ciphers_collections
    &&& a.folders == b.folders
    &&& a.attachments == b.attachments
    &&& a.events == b.events
    &&& a.failing == b.failing
}

/// Whether the link table places `cipher` in `folder`.
pub fn has_link(conn: &Store, folder: &String, cipher: &String) -> (r: bool)
    ensures
        r == link_in(conn.folders_ciphers@, folder@, cipher@),
{
    let rows = &conn.folders_ciphers;
    let mut i: usize = 0;
    while i < rows.len()
        invariant
            i <= rows.len(),
            rows == &conn.folders_ciphers,
            forall|k: int|
                0 <= k < i ==> !(#[trigger] rows@[k].folder_uuid@ == folder@ && rows@[k].cipher_uuid@
                    == cipher@),
        decreases rows.len() - i,
    {
        if rows[i].folder_uuid.eq(folder) && rows[i].cipher_uuid.eq(cipher) {
            return true;
        }
        i = i + 1;
    }
    false
}

/// The view of an optional id.
pub open spec fn opt_view(o: Option<String>) -> Option<Seq<char>> {
    match o {
        Some(s) => Some(s@),
        None => None,
    }
}

/// The folder transition of `cipher` from `current` to `target`, with result
/// `r`, took the folder links of `a` to those of `b`:
/// - none to none, and a folder to itself: success, nothing changed;
/// - none to `g`: the link to `g` added;
/// - `f` to `g`: the links to `f` removed, then the link to `g` added;
/// - `f` to none: the links to `f` removed;
/// - a link to `f` that is missing: `InconsistentState` (the link to `g`,
///   if any, is still added).
/// A refused write fails with `StoreFailure` and changes nothing.
pub open spec fn move_outcome(
    a: &Store,
    b: &Store,
    r: Result<(), VaultError>,
    current: Option<Seq<char>>,
    target: Option<Seq<char>>,
    cipher: Seq<char>,
) -> bool {
    let fails = a.spec_fails(Table::FoldersCiphers);
    &&& r == Err::<(), VaultError>(VaultError::InconsistentState) ==> (current matches Some(f) && !link_in(
        a.folders_ciphers@,
        f,
        cipher,
    ))
    &&& match (current, target) {
        (None, None) => r is Ok && *b == *a,
        (None, Some(g)) => (r is Ok <==> !fails) && (r is Ok ==> link_added(
            a.folders_ciphers@,
            b.folders_ciphers@,
            g,
            cipher,
        )),
        (Some(f), Some(g)) => if f == g {
            r is Ok && *b == *a
        } else if link_in(a.folders_ciphers@, f, cipher) {
            (r is Ok <==> !fails) && (r is Ok ==> link_added(
                a.folders_ciphers@.filter(not_link(f, cipher)),
                b.folders_ciphers@,
                g,
                cipher,
            ))
        } else {
            r matches Err(e) && (e == VaultError::InconsistentState <==> !fails) && (e
                == VaultError::InconsistentState ==> link_added(a.folders_ciphers@, b.folders_ciphers@, g, cipher))
        },
        (Some(f), None) => if link_in(a.folders_ciphers@, f, cipher) {
            (r is Ok <==> !fails) && (r is Ok ==> b.folders_ciphers@ == a.folders_ciphers@.filter(
                not_link(f, cipher),
            ))
        } else {
            r == Err::<(), VaultError>(VaultError::InconsistentState) && *b == *a
        },
    }
}

impl FolderCipher {
    /// Stores this link, keyed by folder and cipher: a link already there is
    /// kept as it is.
    pub fn save(self, conn: &mut Store) -> (r: Result<(), VaultError>)
        ensures
            old(conn).wf() ==> final(conn).wf(),
            r is Err <==> old(conn).spec_fails(Table::FoldersCiphers),
            r matches Err(e) ==> e == VaultError::StoreFailure && *final(conn) == *old(conn),
            r is Ok ==> link_added(
                old(conn).folders_ciphers@,
                final(conn).folders_ciphers@,
                self.folder_uuid@,
                self.cipher_uuid@,
            ),
            same_but_folder_links(old(conn), final(conn)),
    {
        if conn.fails(Table::FoldersCiphers) {
            return Err(VaultError::StoreFailure);
        }
        if !has_link(conn, &self.folder_uuid, &self.cipher_uuid) {
            let ghost prev = conn.folders_ciphers@;
            conn.folders_ciphers.push(self);
            assert(conn.folders_ciphers@.drop_last() =~= prev);
        }
        Ok(())
    }

    /// Removes every row placing `self.cipher_uuid` in `self.folder_uuid`.
    pub fn delete(&self, conn: &mut Store) -> (r: Result<(), VaultError>)
        ensures
            old(conn).wf() ==> final(conn).wf(),
            r is Err <==> old(conn).spec_fails(Table::FoldersCiphers),
            r matches Err(e) ==> e == VaultError::StoreFailure && *final(conn) == *old(conn),
            r is Ok ==> final(conn).folders_ciphers@ == old(conn).folders_ciphers@.filter(
                not_link(self.folder_uuid@, self.cipher_uuid@),
            ),
            same_but_folder_links(old(conn), final(conn)),
    {
        if conn.fails(Table::FoldersCiphers) {
            return Err(VaultError::StoreFailure);
        }
        let pred = Ghost(not_link(self.folder_uuid@, self.cipher_uuid@));
        let mut kept: Vec<FolderCipher> = Vec::new();
        let mut i: usize = 0;
        while i < conn.folders_ciphers.len()
            invariant
                i <= conn.folders_ciphers.len(),
                *conn == *old(conn),
                pred@ == not_link(self.folder_uuid@, self.cipher_uuid@),
                kept@ == conn.folders_ciphers@.subrange(0, i as int).filter(pred@),
            decreases conn.folders_ciphers.len() - i,
        {
            let row = &conn.folders_ciphers[i];
            proof {
                let s = conn.folders_ciphers@;
                assert(s.subrange(0, i + 1) =~= s.subrange(0, i as int).push(s[i as int]));
                s.subrange(0, i as int).lemma_filter_push(s[i as int], pred@);
            }
            if !(row.folder_uuid.eq(&self.folder_uuid) && row.cipher_uuid.eq(&self.cipher_uuid)) {
                kept.push(FolderCipher { cipher_uuid: row.cipher_uuid.clone(), folder_uuid: row.folder_uuid.clone() });
            }
            i = i + 1;
        }
        assert(conn.folders_ciphers@.subrange(0, conn.folders_ciphers@.len() as int) =~= conn.folders_ciphers@);
        conn.folders_ciphers = kept;
        Ok(())
    }
}

impl Cipher {
    /// The folder that `user_uuid` keeps this cipher in, if any.
    pub fn get_folder_uuid(&self, user_uuid: &str, conn: &Store) -> (r: Option<String>)
        ensures
            r is None <==> !exists|j: int| #[trigger] user_link_at(conn, j, user_uuid@, self.uuid@),
            r matches Some(f) ==> exists|j: int|
                #[trigger] user_link_at(conn, j, user_uuid@, self.uuid@)
                    && conn.folders_ciphers@[j].folder_uuid@ == f@,
            opt_view(r) == first_folder(conn, conn.folders_ciphers@, user_uuid@, self.uuid@),
    {
        proof {
            lemma_first_folder(conn, conn.folders_ciphers@, user_uuid@, self.uuid@);
        }
        let user = user_uuid.to_owned();
        let rows = &conn.folders_ciphers;
        let mut j: usize = 0;
        while j < rows.len()
            invariant
                j <= rows.len(),
                rows == &conn.folders_ciphers,
                user@ == user_uuid@,
                forall|k: int| 0 <= k < j ==> !#[trigger] user_link_at(conn, k, user_uuid@, self.uuid@),
            decreases rows.len() - j,
        {
            if rows[j].cipher_uuid.eq(&self.uuid) {
                let folders = &conn.folders;
                let mut m: usize = 0;
                while m < folders.len()
                    invariant
                        m <= folders.len(),
                        folders == &conn.folders,
                        j < rows.len(),
                        rows == &conn.folders_ciphers,
                        user@ == user_uuid@,
                        rows@[j as int].cipher_uuid@ == self.uuid@,
                        forall|k: int| 0 <= k < j ==> !#[trigger] user_link_at(conn, k, user_uuid@, self.uuid@),
                        forall|n: int|
                            0 <= n < m ==> !(#[trigger] folders@[n].uuid@ == rows@[j as int].folder_uuid@
                                && folders@[n].user_uuid@ == user@),
                    decreases folders.len() - m,
                {
                    if folders[m].uuid.eq(&rows[j].folder_uuid) && folders[m].user_uuid.eq(&user) {
                        assert(user_link_at(conn, j as int, user_uuid@, self.uuid@));
                        proof {
                            assert forall|k: int| 0 <= k < j implies !#[trigger] user_row(conn, rows@[k], user_uuid@, self.uuid@) by {
                                assert(!user_link_at(conn, k, user_uuid@, self.uuid@));
                            }
                            lemma_first_folder_at(conn, rows@, user_uuid@, self.uuid@, j as int);
                        }
                        return Some(rows[j].folder_uuid.clone());
                    }
                    m = m + 1;
                }
            }
            j = j + 1;
        }
        proof {
            assert forall|k: int| 0 <= k < rows@.len() implies !#[trigger] user_row(conn, rows@[k], user_uuid@, self.uuid@) by {
                assert(!user_link_at(conn, k, user_uuid@, self.uuid@));
            }
        }
        None
    }

    /// Moves this cipher from `current`, the folder a user keeps it in, to
    /// `target`. Unchanged when both are equal; a missing link for `current`
    /// is reported as `InconsistentState` (after still linking `target`).
    pub fn move_from_folder(&self, current: Option<String>, target: Option<String>, conn: &mut Store) -> (r:
        Result<(), VaultError>)
        ensures
            old(conn).wf() ==> final(conn).wf(),
            same_but_folder_links(old(conn), final(conn)),
            r matches Err(e) && e == VaultError::StoreFailure ==> old(conn).spec_fails(Table::FoldersCiphers),
            old(conn).spec_fails(Table::FoldersCiphers) ==> *final(conn) == *old(conn),
            move_outcome(old(conn), final(conn), r, opt_view(current), opt_view(target), self.uuid@),
    {
        match current {
            None => match target {
                Some(new_folder) => FolderCipher::new(new_folder.as_str(), self.uuid.as_str()).save(conn),
                None => Ok(()),
            },
            Some(current_folder) => match target {
                Some(new_folder) => {
                    if current_folder.eq(&new_folder) {
                        Ok(())
                    } else if has_link(conn, &current_folder, &self.uuid) {
                        let old_link = FolderCipher::new(current_folder.as_str(), self.uuid.as_str());
                        match old_link.delete(conn) {
                            Ok(()) => FolderCipher::new(new_folder.as_str(), self.uuid.as_str()).save(conn),
                            Err(e) => Err(e),
                        }
                    } else {
                        match FolderCipher::new(new_folder.as_str(), self.uuid.as_str()).save(conn) {
                            Ok(()) => Err(VaultError::InconsistentState),
                            Err(e) => Err(e),
                        }
                    }
                },
                None => {
                    if has_link(conn, &current_folder, &self.uuid) {
                        FolderCipher::new(current_folder.as_str(), self.uuid.as_str()).delete(conn)
                    } else {
                        Err(VaultError::InconsistentState)
                    }
                },
            },
        }
    }

    /// Moves this cipher, as kept by `user_uuid`, into `folder_uuid`, or out
    /// of any folder when it is `None`.
    pub fn move_to_folder(&self, folder_uuid: Option<String>, user_uuid: &str, conn: &mut Store) -> (r:
        Result<(), VaultError>)
        ensures
            old(conn).wf() ==> final(conn).wf(),
            same_but_folder_links(old(conn), final(conn)),
            old(conn).spec_fails(Table::FoldersCiphers) ==> *final(conn) == *old(conn),
            r matches Err(e) && e == VaultError::StoreFailure ==> old(conn).spec_fails(Table::FoldersCiphers),
            r != Err::<(), VaultError>(VaultError::InconsistentState),
            r is Err ==> *final(conn) == *old(conn),
            move_outcome(
                old(conn),
                final(conn),
                r,
                first_folder(old(conn), old(conn).folders_ciphers@, user_uuid@, self.uuid@),
                opt_view(folder_uuid),
                self.uuid@,
            ),
            one_folder_in(old(conn), old(conn).folders_ciphers@, user_uuid@, self.uuid@) && (folder_uuid matches Some(
                g,
            ) ==> spec_folder_of_user(old(conn), g@, user_uuid@)) ==> {
                &&& one_folder_in(final(conn), final(conn).folders_ciphers@, user_uuid@, self.uuid@)
                &&& r is Ok ==> match folder_uuid {
                    Some(g) => folder_in(final(conn), final(conn).folders_ciphers@, user_uuid@, self.uuid@, g@),
                    None => no_folder_in(final(conn), final(conn).folders_ciphers@, user_uuid@, self.uuid@),
                }
                &&& r is Ok ==> first_folder(final(conn), final(conn).folders_ciphers@, user_uuid@, self.uuid@)
                    == opt_view(folder_uuid)
            },
    {
        let current = self.get_folder_uuid(user_uuid, conn);
        let ghost before = *conn;
        let ghost cur = current;
        let ghost tgt = folder_uuid;
        let r = self.move_from_folder(current, folder_uuid, conn);
        proof {
            let user = user_uuid@;
            let c = self.uuid@;
            let fc0 = before.folders_ciphers@;
            let fc1 = conn.folders_ciphers@;
            if let Some(f) = cur {
                let j = choose|j: int| #[trigger] user_link_at(&before, j, user, c) && fc0[j].folder_uuid@ == f@;
                assert(link_in(fc0, f@, c));
            }
            if one_folder_in(&before, fc0, user, c) && (tgt matches Some(g) ==> spec_folder_of_user(
                &before,
                g@,
                user,
            )) && r is Ok {
                match cur {
                    None => {
                        assert forall|j: int| 0 <= j < fc0.len() implies !#[trigger] user_row(&before, fc0[j], user, c) by {
                            assert(!user_link_at(&before, j, user, c));
                        }
                        if let Some(g) = tgt {
                            lemma_link_places(&before, fc0, fc1, g@, user, c);
                        }
                    },
                    Some(f) => {
                        let j = choose|j: int| #[trigger] user_link_at(&before, j, user, c)
                            && fc0[j].folder_uuid@ == f@;
                        assert(user_row(&before, fc0[j], user, c));
                        assert(link_in(fc0, f@, c));
                        match tgt {
                            Some(g) => {
                                if f@ != g@ {
                                    lemma_unlink_clears(&before, fc0, f@, user, c);
                                    lemma_link_places(&before, fc0.filter(not_link(f@, c)), fc1, g@, user, c);
                                }
                            },
                            None => {
                                lemma_unlink_clears(&before, fc0, f@, user, c);
                            },
                        }
                    },
                }
                assert(one_folder_in(&before, fc1, user, c));
                match tgt {
                    Some(g) => {
                        assert(folder_in(&before, fc1, user, c, g@));
                    },
                    None => {
                        assert(no_folder_in(&before, fc1, user, c));
                    },
                }
                assert forall|a: int, b: int|
                    0 <= a < fc1.len() && 0 <= b < fc1.len() && #[trigger] user_row(conn, fc1[a], user, c)
                        && #[trigger] user_row(conn, fc1[b], user, c) implies a == b by {
                    assert(user_row(&before, fc1[a], user, c));
                    assert(user_row(&before, fc1[b], user, c));
                }
                match tgt {
                    Some(g) => {
                        let j = choose|j: int|
                            0 <= j < fc1.len() && #[trigger] user_row(&before, fc1[j], user, c) && fc1[j].folder_uuid@ == g@;
                        assert(user_row(conn, fc1[j], user, c));
                    },
                    None => {
                        assert forall|j: int| 0 <= j < fc1.len() implies !#[trigger] user_row(conn, fc1[j], user, c) by {
                            assert(!user_row(&before, fc1[j], user, c));
                        }
                    },
                }
            }
        }
        proof {
            lemma_first_folder(conn, conn.folders_ciphers@, user_uuid@, self.uuid@);
        }
        r
    }
}

} // verus!
