//! Membership questions, and who may read, write or see a cipher.
use vstd::prelude::*;
use crate::model::{Cipher, UserOrgType};
use crate::store::Store;

verus! {

/// Membership row `i` ties `user` to `org`.
pub open spec fn membership_at(s: &Store, i: int, user: Seq<char>, org: Seq<char>) -> bool {
    &&& 0 <= i < s.users_organizations@.len()
    &&& s.users_organizations@[i].user_uuid@ == user
    &&& s.users_organizations@[i].org_uuid@ == org
}

pub open spec fn spec_is_member(s: &Store, user: Seq<char>, org: Seq<char>) -> bool {
    exists|i: int| #[trigger] membership_at(s, i, user, org)
}

pub open spec fn spec_has_blanket_access(s: &Store, user: Seq<char>, org: Seq<char>) -> bool {
    exists|i: int| #[trigger]
        membership_at(s, i, user, org) && s.users_organizations@[i].access_all
}

pub open spec fn spec_is_admin_or_owner(s: &Store, user: Seq<char>, org: Seq<char>) -> bool {
    exists|i: int| #[trigger]
        membership_at(s, i, user, org) && s.users_organizations@[i].atype.spec_is_admin_or_owner()
}

/// A membership of `user` in `org` that grants the whole organization:
/// blanket access, or the Owner or Admin role.
pub open spec fn spec_is_privileged(s: &Store, user: Seq<char>, org: Seq<char>) -> bool {
    exists|i: int| #[trigger]
        membership_at(s, i, user, org) && (s.users_organizations@[i].access_all
            || s.users_organizations@[i].atype.spec_is_admin_or_owner())
}

/// `user` is explicitly assigned to collection `coll`.
pub open spec fn spec_is_assigned(s: &Store, user: Seq<char>, coll: Seq<char>) -> bool {
    exists|k: int|
        0 <= k < s.users_collections@.len() && #[trigger] s.users_collections@[k].user_uuid@ == user
            && s.users_collections@[k].collection_uuid@ == coll
}

/// `cipher` is linked to some collection that `user` is assigned to.
pub open spec fn spec_assigned_to_cipher(s: &Store, user: Seq<char>, cipher: Seq<char>) -> bool {
    exists|j: int|
        0 <= j < s.ciphers_collections@.len() && #[trigger] s.ciphers_collections@[j].cipher_uuid@
            == cipher && spec_is_assigned(s, user, s.ciphers_collections@[j].collection_uuid@)
}

/// A member of `org` whose membership is privileged, or who is qualified otherwise.
pub open spec fn spec_org_grants(s: &Store, user: Seq<char>, org: Seq<char>, qualified: bool) -> bool {
    spec_is_member(s, user, org) && (spec_is_privileged(s, user, org) || qualified)
}

/// Write (and read) eligibility: the personal owner, or a member of the
/// owning organization with blanket access. Collection assignments are not
/// consulted.
pub open spec fn spec_write_accessible(s: &Store, c: Cipher, user: Seq<char>) -> bool {
    match c.user_uuid {
        Some(u) => u@ == user,
        None => match c.organization_uuid {
            Some(o) => spec_has_blanket_access(s, user, o@),
            None => false,
        },
    }
}

/// Visibility for listing: the personal owner, or a member of the owning
/// organization who is privileged there or assigned to a collection holding
/// the cipher.
pub open spec fn spec_visible(s: &Store, c: Cipher, user: Seq<char>) -> bool {
    ||| (c.user_uuid matches Some(u) && u@ == user)
    ||| (c.organization_uuid matches Some(o) && spec_org_grants(
        s,
        user,
        o@,
        spec_assigned_to_cipher(s, user, c.uuid@),
    ))
}

/// A collection row `coll` of organization `org` exists.
pub open spec fn spec_collection_in_org(s: &Store, coll: Seq<char>, org: Seq<char>) -> bool {
    exists|m: int|
        0 <= m < s.collections@.len() && #[trigger] s.collections@[m].uuid@ == coll
            && s.collections@[m].org_uuid@ == org
}

/// Cipher `c` is linked to collection `coll`.
pub open spec fn spec_linked(s: &Store, c: Seq<char>, coll: Seq<char>) -> bool {
    exists|j: int|
        0 <= j < s.ciphers_collections@.len() && #[trigger] s.ciphers_collections@[j].cipher_uuid@ == c
            && s.ciphers_collections@[j].collection_uuid@ == coll
}

/// `user` sees organization cipher `c` through collection `coll`.
pub open spec fn spec_collection_visible(s: &Store, c: Cipher, user: Seq<char>, coll: Seq<char>) -> bool {
    &&& c.organization_uuid is Some
    &&& spec_linked(s, c.uuid@, coll)
    &&& spec_collection_in_org(s, coll, c.organization_uuid->0@)
    &&& spec_org_grants(s, user, c.organization_uuid->0@, spec_is_assigned(s, user, coll))
}

/// Whether `v` holds a string equal to `x`.
pub fn contains_str(v: &Vec<String>, x: &String) -> (r: bool)
    ensures
        r == exists|i: int| 0 <= i < v@.len() && #[trigger] v@[i]@ == x@,
{
    let mut i: usize = 0;
    while i < v.len()
        invariant
            i <= v.len(),
            forall|k: int| 0 <= k < i ==> #[trigger] v@[k]@ != x@,
        decreases v.len() - i,
    {
        if v[i].eq(x) {
            return true;
        }
        i = i + 1;
    }
    false
}

/// The membership resolver: blanket access of `user_uuid` in `org_uuid`.
pub fn has_blanket_access(user_uuid: &str, org_uuid: &str, conn: &Store) -> (r: bool)
    ensures
        r == spec_has_blanket_access(conn, user_uuid@, org_uuid@),
{
    let user = user_uuid.to_owned();
    let org = org_uuid.to_owned();
    let rows = &conn.users_organizations;
    let mut i: usize = 0;
    while i < rows.len()
        invariant
            i <= rows.len(),
            rows == &conn.users_organizations,
            user@ == user_uuid@,
            org@ == org_uuid@,
            forall|k: int|
                0 <= k < i && #[trigger] membership_at(conn, k, user@, org@)
                    ==> !rows@[k].access_all,
        decreases rows.len() - i,
    {
        if rows[i].user_uuid.eq(&user) && rows[i].org_uuid.eq(&org) && rows[i].access_all {
            assert(membership_at(conn, i as int, user@, org@));
            return true;
        }
        i = i + 1;
    }
    false
}

/// The membership resolver: the role of `user_uuid` in `org_uuid`, if a
/// membership exists (the first one, should the store hold several).
pub fn role_of(user_uuid: &str, org_uuid: &str, conn: &Store) -> (r: Option<UserOrgType>)
    ensures
        r is None <==> !spec_is_member(conn, user_uuid@, org_uuid@),
        r matches Some(t) ==> exists|i: int|
            #[trigger] membership_at(conn, i, user_uuid@, org_uuid@)
                && conn.users_organizations@[i].atype == t,
        conn.wf() ==> forall|i: int|
            #[trigger] membership_at(conn, i, user_uuid@, org_uuid@) ==> r == Some(
                conn.users_organizations@[i].atype,
            ),
{
    let user = user_uuid.to_owned();
    let org = org_uuid.to_owned();
    let rows = &conn.users_organizations;
    let mut i: usize = 0;
    while i < rows.len()
        invariant
            i <= rows.len(),
            rows == &conn.users_organizations,
            user@ == user_uuid@,
            org@ == org_uuid@,
            forall|k: int| 0 <= k < i ==> !#[trigger] membership_at(conn, k, user@, org@),
        decreases rows.len() - i,
    {
        if rows[i].user_uuid.eq(&user) && rows[i].org_uuid.eq(&org) {
            assert(membership_at(conn, i as int, user@, org@));
            proof {
                if conn.wf() {
                    assert forall|k: int| #[trigger] membership_at(conn, k, user_uuid@, org_uuid@) implies k == i by {
                        if k < i {
                            assert(rows@[k].user_uuid@ == rows@[i as int].user_uuid@);
                        } else if i < k {
                            assert(rows@[i as int].user_uuid@ == rows@[k].user_uuid@);
                        }
                    }
                }
            }
            return Some(rows[i].atype);
        }
        i = i + 1;
    }
    None
}

/// The membership resolver: whether some membership of `user_uuid` in
/// `org_uuid` has the Owner or Admin role.
pub fn is_admin_or_owner(user_uuid: &str, org_uuid: &str, conn: &Store) -> (r: bool)
    ensures
        r == spec_is_admin_or_owner(conn, user_uuid@, org_uuid@),
{
    let user = user_uuid.to_owned();
    let org = org_uuid.to_owned();
    let rows = &conn.users_organizations;
    let mut i: usize = 0;
    while i < rows.len()
        invariant
            i <= rows.len(),
            rows == &conn.users_organizations,
            user@ == user_uuid@,
            org@ == org_uuid@,
            forall|k: int|
                0 <= k < i && #[trigger] membership_at(conn, k, user@, org@)
                    ==> !rows@[k].atype.spec_is_admin_or_owner(),
        decreases rows.len() - i,
    {
        if rows[i].user_uuid.eq(&user) && rows[i].org_uuid.eq(&org) && rows[i].atype.is_admin_or_owner() {
            assert(membership_at(conn, i as int, user@, org@));
            return true;
        }
        i = i + 1;
    }
    false
}

/// Membership of `user` in `org`, privileged or qualified by `qualified`.
fn org_grants(conn: &Store, user: &String, org: &String, qualified: bool) -> (r: bool)
    ensures
        r == spec_org_grants(conn, user@, org@, qualified),
{
    let rows = &conn.users_organizations;
    let mut member = false;
    let mut i: usize = 0;
    while i < rows.len()
        invariant
            i <= rows.len(),
            rows == &conn.users_organizations,
            member == exists|k: int| 0 <= k < i && #[trigger] membership_at(conn, k, user@, org@),
            forall|k: int|
                0 <= k < i && #[trigger] membership_at(conn, k, user@, org@) ==> !(
                rows@[k].access_all || rows@[k].atype.spec_is_admin_or_owner()),
        decreases rows.len() - i,
    {
        if rows[i].user_uuid.eq(user) && rows[i].org_uuid.eq(org) {
            assert(membership_at(conn, i as int, user@, org@));
            if rows[i].access_all || rows[i].atype.is_admin_or_owner() {
                return true;
            }
            member = true;
        }
        i = i + 1;
    }
    member && qualified
}

/// Whether `user` is assigned to collection `coll`.
fn is_assigned(conn: &Store, user: &String, coll: &String) -> (r: bool)
    ensures
        r == spec_is_assigned(conn, user@, coll@),
{
    let rows = &conn.users_collections;
    let mut i: usize = 0;
    while i < rows.len()
        invariant
            i <= rows.len(),
            rows == &conn.users_collections,
            forall|k: int|
                0 <= k < i ==> !(#[trigger] rows@[k].user_uuid@ == user@
                    && rows@[k].collection_uuid@ == coll@),
        decreases rows.len() - i,
    {
        if rows[i].user_uuid.eq(user) && rows[i].collection_uuid.eq(coll) {
            return true;
        }
        i = i + 1;
    }
    false
}

/// Whether `cipher` is linked to a collection that `user` is assigned to.
fn assigned_to_cipher(conn: &Store, user: &String, cipher: &String) -> (r: bool)
    ensures
        r == spec_assigned_to_cipher(conn, user@, cipher@),
{
    let rows = &conn.ciphers_collections;
    let mut i: usize = 0;
    while i < rows.len()
        invariant
            i <= rows.len(),
            rows == &conn.ciphers_collections,
            forall|k: int|
                0 <= k < i ==> !(#[trigger] rows@[k].cipher_uuid@ == cipher@ && spec_is_assigned(
                    conn,
                    user@,
                    rows@[k].collection_uuid@,
                )),
        decreases rows.len() - i,
    {
        if rows[i].cipher_uuid.eq(cipher) && is_assigned(conn, user, &rows[i].collection_uuid) {
            return true;
        }
        i = i + 1;
    }
    false
}

/// Whether collection `coll` exists in organization `org`.
fn collection_in_org(conn: &Store, coll: &String, org: &String) -> (r: bool)
    ensures
        r == spec_collection_in_org(conn, coll@, org@),
{
    let rows = &conn.collections;
    let mut i: usize = 0;
    while i < rows.len()
        invariant
            i <= rows.len(),
            rows == &conn.collections,
            forall|k: int|
                0 <= k < i ==> !(#[trigger] rows@[k].uuid@ == coll@ && rows@[k].org_uuid@ == org@),
        decreases rows.len() - i,
    {
        if rows[i].uuid.eq(coll) && rows[i].org_uuid.eq(org) {
            return true;
        }
        i = i + 1;
    }
    false
}

/// Whether `ciphers` holds a cipher with id `uuid`.
fn contains_cipher(ciphers: &Vec<Cipher>, uuid: &String) -> (r: bool)
    ensures
        r == exists|i: int| 0 <= i < ciphers@.len() && #[trigger] ciphers@[i].uuid@ == uuid@,
{
    let mut i: usize = 0;
    while i < ciphers.len()
        invariant
            i <= ciphers.len(),
            forall|k: int| 0 <= k < i ==> #[trigger] ciphers@[k].uuid@ != uuid@,
        decreases ciphers.len() - i,
    {
        if ciphers[i].uuid.eq(uuid) {
            return true;
        }
        i = i + 1;
    }
    false
}

impl Cipher {
    /// Write eligibility of `user_uuid` for this cipher.
    pub fn is_write_accessible_to_user(&self, user_uuid: &str, conn: &Store) -> (r: bool)
        ensures
            r == spec_write_accessible(conn, *self, user_uuid@),
    {
        match &self.user_uuid {
            Some(owner) => owner.as_str().to_owned().eq(&user_uuid.to_owned()),
            None => match &self.organization_uuid {
                Some(org) => has_blanket_access(user_uuid, org.as_str(), conn),
                None => false,
            },
        }
    }

    /// Read eligibility, which is write eligibility.
    pub fn is_accessible_to_user(&self, user_uuid: &str, conn: &Store) -> (r: bool)
        ensures
            r == spec_write_accessible(conn, *self, user_uuid@),
    {
        self.is_write_accessible_to_user(user_uuid, conn)
    }

    /// Whether `user` may see this cipher in a listing.
    fn is_visible_to(&self, user: &String, conn: &Store) -> (r: bool)
        ensures
            r == spec_visible(conn, *self, user@),
    {
        let owned = match &self.user_uuid {
            Some(owner) => owner.eq(user),
            None => false,
        };
        if owned {
            return true;
        }
        match &self.organization_uuid {
            Some(org) => {
                let assigned = assigned_to_cipher(conn, user, &self.uuid);
                org_grants(conn, user, org, assigned)
            },
            None => false,
        }
    }

    /// Every cipher visible to `user_uuid`, each id once, in store order.
    pub fn find_by_user(user_uuid: &str, conn: &Store) -> (r: Vec<Cipher>)
        ensures
            forall|i: int|
                0 <= i < r@.len() ==> conn.ciphers@.contains(#[trigger] r@[i]) && spec_visible(
                    conn,
                    r@[i],
                    user_uuid@,
                ),
            forall|j: int|
                0 <= j < conn.ciphers@.len() && #[trigger] spec_visible(
                    conn,
                    conn.ciphers@[j],
                    user_uuid@,
                ) ==> exists|i: int| 0 <= i < r@.len() && #[trigger] r@[i].uuid@ == conn.ciphers@[j].uuid@,
            forall|a: int, b: int| 0 <= a < b < r@.len() ==> #[trigger] r@[a].uuid@ != #[trigger] r@[b].uuid@,
    {
        let user = user_uuid.to_owned();
        let rows = &conn.ciphers;
        let mut out: Vec<Cipher> = Vec::new();
        let mut j: usize = 0;
        while j < rows.len()
            invariant
                j <= rows.len(),
                rows == &conn.ciphers,
                user@ == user_uuid@,
                forall|i: int|
                    0 <= i < out@.len() ==> rows@.contains(#[trigger] out@[i]) && spec_visible(
                        conn,
                        out@[i],
                        user_uuid@,
                    ),
                forall|k: int|
                    0 <= k < j && #[trigger] spec_visible(conn, rows@[k], user_uuid@) ==> exists|i: int|
                        0 <= i < out@.len() && #[trigger] out@[i].uuid@ == rows@[k].uuid@,
                forall|a: int, b: int|
                    0 <= a < b < out@.len() ==> #[trigger] out@[a].uuid@ != #[trigger] out@[b].uuid@,
            decreases rows.len() - j,
        {
            let ghost prev = out@;
            if rows[j].is_visible_to(&user, conn) && !contains_cipher(&out, &rows[j].uuid) {
                let c = rows[j].cloned();
                out.push(c);
                proof {
                    assert(out@[out@.len() - 1] == rows@[j as int]);
                    assert forall|k: int|
                        0 <= k < j && #[trigger] spec_visible(conn, rows@[k], user_uuid@) implies exists|i: int|
                            0 <= i < out@.len() && #[trigger] out@[i].uuid@ == rows@[k].uuid@ by {
                        let i = choose|i: int| 0 <= i < prev.len() && #[trigger] prev[i].uuid@ == rows@[k].uuid@;
                        assert(out@[i] == prev[i]);
                    }
                    assert(out@[out@.len() - 1].uuid@ == rows@[j as int].uuid@);
                }
            }
            j = j + 1;
        }
        out
    }

    /// The collections of this cipher's organization that hold it and through
    /// which `user_id` sees it, each once.
    pub fn get_collections(&self, user_id: &str, conn: &Store) -> (r: Vec<String>)
        ensures
            forall|i: int| 0 <= i < r@.len() ==> spec_collection_visible(conn, *self, user_id@, #[trigger] r@[i]@),
            forall|coll: Seq<char>| #[trigger] spec_collection_visible(conn, *self, user_id@, coll)
                ==> exists|i: int| 0 <= i < r@.len() && #[trigger] r@[i]@ == coll,
            forall|a: int, b: int| 0 <= a < b < r@.len() ==> #[trigger] r@[a]@ != #[trigger] r@[b]@,
    {
        let user = user_id.to_owned();
        let mut out: Vec<String> = Vec::new();
        let org = match &self.organization_uuid {
            Some(o) => o,
            None => { return out; },
        };
        let rows = &conn.ciphers_collections;
        let mut j: usize = 0;
        while j < rows.len()
            invariant
                j <= rows.len(),
                rows == &conn.ciphers_collections,
                user@ == user_id@,
                self.organization_uuid == Some(*org),
                forall|i: int| 0 <= i < out@.len() ==> spec_collection_visible(conn, *self, user_id@, #[trigger] out@[i]@),
                forall|k: int|
                    0 <= k < j && #[trigger] rows@[k].cipher_uuid@ == self.uuid@ && spec_collection_visible(
                        conn,
                        *self,
                        user_id@,
                        rows@[k].collection_uuid@,
                    ) ==> exists|i: int| 0 <= i < out@.len() && #[trigger] out@[i]@ == rows@[k].collection_uuid@,
                forall|a: int, b: int| 0 <= a < b < out@.len() ==> #[trigger] out@[a]@ != #[trigger] out@[b]@,
            decreases rows.len() - j,
        {
            let coll = &rows[j].collection_uuid;
            if rows[j].cipher_uuid.eq(&self.uuid) {
                assert(spec_linked(conn, self.uuid@, coll@));
                if collection_in_org(conn, coll, org) {
                    let assigned = is_assigned(conn, &user, coll);
                    let ghost prev = out@;
                    if org_grants(conn, &user, org, assigned) && !contains_str(&out, coll) {
                        out.push(coll.clone());
                        proof {
                            assert forall|k: int|
                                0 <= k < j && #[trigger] rows@[k].cipher_uuid@ == self.uuid@
                                    && spec_collection_visible(conn, *self, user_id@, rows@[k].collection_uuid@)
                                implies exists|i: int|
                                    0 <= i < out@.len() && #[trigger] out@[i]@ == rows@[k].collection_uuid@ by {
                                let i = choose|i: int|
                                    0 <= i < prev.len() && #[trigger] prev[i]@ == rows@[k].collection_uuid@;
                                assert(out@[i] == prev[i]);
                            }
                            assert(out@[out@.len() - 1]@ == coll@);
                        }
                    }
                }
            }
            j = j + 1;
        }
        assert forall|coll: Seq<char>| #[trigger] spec_collection_visible(conn, *self, user_id@, coll)
            implies exists|i: int| 0 <= i < out@.len() && #[trigger] out@[i]@ == coll by {
            let k = choose|k: int| 0 <= k < rows@.len() && #[trigger] rows@[k].cipher_uuid@ == self.uuid@
                && rows@[k].collection_uuid@ == coll;
            assert(rows@[k].cipher_uuid@ == self.uuid@);
        }
        out
    }
}

/// A personally owned cipher is writable by its owner and by nobody else.
pub proof fn lemma_personal_write_owner_only(s: &Store, c: Cipher, owner: Seq<char>, other: Seq<char>)
    requires
        c.wf(),
        c.user_uuid matches Some(u) && u@ == owner,
    ensures
        spec_write_accessible(s, c, owner),
        other != owner ==> !spec_write_accessible(s, c, other),
{
}

/// An organization cipher is writable by a member with blanket access, and
/// not by a member who has neither blanket access nor the Owner or Admin
/// role, whatever collections that member is assigned to.
pub proof fn lemma_org_write_needs_blanket(s: &Store, c: Cipher, user: Seq<char>)
    requires
        c.wf(),
        c.organization_uuid is Some,
    ensures
        spec_has_blanket_access(s, user, c.organization_uuid->0@) ==> spec_write_accessible(s, c, user),
        !spec_is_privileged(s, user, c.organization_uuid->0@) ==> !spec_write_accessible(s, c, user),
{
    if !spec_is_privileged(s, user, c.organization_uuid->0@) && spec_has_blanket_access(
        s,
        user,
        c.organization_uuid->0@,
    ) {
        let i = choose|i: int| #[trigger]
            membership_at(s, i, user, c.organization_uuid->0@) && s.users_organizations@[i].access_all;
        assert(membership_at(s, i, user, c.organization_uuid->0@));
    }
}

/// In a well-formed store, a member of the owning organization without
/// blanket access and with the Manager or Member role cannot write an
/// organization cipher, whatever collections that member is assigned to.
pub proof fn lemma_plain_member_cannot_write(s: &Store, c: Cipher, user: Seq<char>, i: int)
    requires
        s.wf(),
        c.wf(),
        c.organization_uuid is Some,
        membership_at(s, i, user, c.organization_uuid->0@),
        !s.users_organizations@[i].access_all,
        !s.users_organizations@[i].atype.spec_is_admin_or_owner(),
    ensures
        !spec_write_accessible(s, c, user),
{
    let o = c.organization_uuid->0@;
    if spec_has_blanket_access(s, user, o) {
        let k = choose|k: int| #[trigger] membership_at(s, k, user, o) && s.users_organizations@[k].access_all;
        let rows = s.users_organizations@;
        if k < i {
            assert(rows[k].user_uuid@ == rows[i].user_uuid@);
        } else if i < k {
            assert(rows[i].user_uuid@ == rows[k].user_uuid@);
        }
    }
}

} // verus!
