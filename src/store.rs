//! The store: the tables the core reads and writes, held in memory.
use vstd::prelude::*;
use crate::model::{
    Attachment, Cipher, Collection, CollectionCipher, CollectionUser, Event, Folder, FolderCipher,
    Table, UserOrganization, VaultError,
};

verus! {

/// All tables of the store. `failing` names a table whose writes the store
/// refuses, as an unavailable or constraint-violating backend would.
pub struct Store {
    pub users_organizations: Vec<UserOrganization>,
    pub collections: Vec<Collection>,
    pub users_collections: Vec<CollectionUser>,
    pub ciphers: Vec<Cipher>,
    pub ciphers_collections: Vec<CollectionCipher>,
    pub folders: Vec<Folder>,
    pub folders_ciphers: Vec<FolderCipher>,
    pub attachments: Vec<Attachment>,
    pub events: Vec<Event>,
    pub failing: Option<Table>,
}

/// A row with the id by which it is removed: the cipher it refers to, or its
/// own id for ciphers and events.
pub trait RowKey: Sized {
    spec fn row_key(&self) -> Seq<char>;

    fn key_ref(&self) -> (r: &String)
        ensures
            r@ == self.row_key(),
    ;

    fn cloned_row(&self) -> (r: Self)
        ensures
            r == *self,
    ;
}

impl RowKey for FolderCipher {
    open spec fn row_key(&self) -> Seq<char> {
        self.cipher_uuid@
    }

    fn key_ref(&self) -> (r: &String) {
        &self.cipher_uuid
    }

    fn cloned_row(&self) -> (r: Self) {
        FolderCipher { cipher_uuid: self.cipher_uuid.clone(), folder_uuid: self.folder_uuid.clone() }
    }
}

impl RowKey for CollectionCipher {
    open spec fn row_key(&self) -> Seq<char> {
        self.cipher_uuid@
    }

    fn key_ref(&self) -> (r: &String) {
        &self.cipher_uuid
    }

    fn cloned_row(&self) -> (r: Self) {
        CollectionCipher {
            cipher_uuid: self.cipher_uuid.clone(),
            collection_uuid: self.collection_uuid.clone(),
        }
    }
}

impl RowKey for Attachment {
    open spec fn row_key(&self) -> Seq<char> {
        self.cipher_uuid@
    }

    fn key_ref(&self) -> (r: &String) {
        &self.cipher_uuid
    }

    fn cloned_row(&self) -> (r: Self) {
        Attachment {
            id: self.id.clone(),
            cipher_uuid: self.cipher_uuid.clone(),
            file_name: self.file_name.clone(),
        }
    }
}

impl RowKey for Event {
    open spec fn row_key(&self) -> Seq<char> {
        self.uuid@
    }

    fn key_ref(&self) -> (r: &String) {
        &self.uuid
    }

    fn cloned_row(&self) -> (r: Self) {
        self.cloned()
    }
}

impl RowKey for Cipher {
    open spec fn row_key(&self) -> Seq<char> {
        self.uuid@
    }

    fn key_ref(&self) -> (r: &String) {
        &self.uuid
    }

    fn cloned_row(&self) -> (r: Self) {
        self.cloned()
    }
}

/// Keeps the rows whose key is not `u`.
pub open spec fn not_keyed<T: RowKey>(u: Seq<char>) -> spec_fn(T) -> bool {
    |x: T| x.row_key() != u
}

/// The rows of `v` whose key is not `key`, in their order.
pub fn without_key<T: RowKey>(v: &Vec<T>, key: &String) -> (r: Vec<T>)
    ensures
        r@ == v@.filter(not_keyed::<T>(key@)),
{
    let mut kept: Vec<T> = Vec::new();
    let mut i: usize = 0;
    while i < v.len()
        invariant
            i <= v.len(),
            kept@ == v@.subrange(0, i as int).filter(not_keyed::<T>(key@)),
        decreases v.len() - i,
    {
        proof {
            assert(v@.subrange(0, i + 1) =~= v@.subrange(0, i as int).push(v@[i as int]));
            v@.subrange(0, i as int).lemma_filter_push(v@[i as int], not_keyed::<T>(key@));
            assert(not_keyed::<T>(key@)(v@[i as int]) == (v@[i as int].row_key()
                != key@));
        }
        if !v[i].key_ref().eq(key) {
            kept.push(v[i].cloned_row());
        }
        i = i + 1;
    }
    assert(v@.subrange(0, v.len() as int) =~= v@);
    kept
}

/// No two rows of `s` share a key.
pub open spec fn keys_unique<T: RowKey>(s: Seq<T>) -> bool {
    forall|a: int, b: int| 0 <= a < b < s.len() ==> #[trigger] s[a].row_key() != #[trigger] s[b].row_key()
}

/// Keeping some rows keeps the keys unique.
pub proof fn lemma_filter_keys_unique<T: RowKey>(s: Seq<T>, p: spec_fn(T) -> bool)
    requires
        keys_unique(s),
    ensures
        keys_unique(s.filter(p)),
    decreases s.len(),
{
    reveal(Seq::filter);
    if s.len() > 0 {
        let d = s.drop_last();
        assert forall|a: int, b: int| 0 <= a < b < d.len() implies #[trigger] d[a].row_key() != #[trigger] d[b].row_key() by {
            assert(d[a] == s[a] && d[b] == s[b]);
        }
        lemma_filter_keys_unique(d, p);
        let f = d.filter(p);
        if p(s.last()) {
            let g = f.push(s.last());
            assert forall|a: int, b: int| 0 <= a < b < g.len() implies #[trigger] g[a].row_key() != #[trigger] g[b].row_key() by {
                assert(g[a] == f[a]);
                if b == f.len() {
                    let x = f[a];
                    assert(f.contains(x));
                    d.lemma_filter_contains_rev(p, x);
                    let i = choose|i: int| 0 <= i < d.len() && d[i] == x;
                    assert(s[i] == x);
                    assert(s[i].row_key() != s[s.len() - 1].row_key());
                } else {
                    assert(g[b] == f[b]);
                }
            }
        }
    }
}

/// Replacing the row keyed like `x` by `x` keeps the keys unique.
pub proof fn lemma_upsert_keys_unique<T: RowKey>(s: Seq<T>, x: T)
    requires
        keys_unique(s),
    ensures
        keys_unique(s.filter(not_keyed::<T>(x.row_key())).push(x)),
{
    let p = not_keyed::<T>(x.row_key());
    lemma_filter_keys_unique(s, p);
    let f = s.filter(p);
    let g = f.push(x);
    assert forall|a: int, b: int| 0 <= a < b < g.len() implies #[trigger] g[a].row_key() != #[trigger] g[b].row_key() by {
        assert(g[a] == f[a]);
        s.lemma_filter_pred(p, a);
        if b < f.len() {
            assert(g[b] == f[b]);
        }
    }
}

impl Store {
    /// The keys of the data model: cipher ids and event ids are unique, and a
    /// user has at most one membership per organization.
    pub open spec fn wf(&self) -> bool {
        &&& keys_unique(self.ciphers@)
        &&& keys_unique(self.events@)
        &&& forall|a: int, b: int|
            0 <= a < b < self.users_organizations@.len() ==> !(#[trigger] self.users_organizations@[a].user_uuid@
                == #[trigger] self.users_organizations@[b].user_uuid@ && self.users_organizations@[a].org_uuid@
                == self.users_organizations@[b].org_uuid@)
    }

    /// An empty store that accepts every write.
    pub fn new() -> (r: Store)
        ensures
            r.users_organizations@.len() == 0,
            r.collections@.len() == 0,
            r.users_collections@.len() == 0,
            r.ciphers@.len() == 0,
            r.ciphers_collections@.len() == 0,
            r.folders@.len() == 0,
            r.folders_ciphers@.len() == 0,
            r.attachments@.len() == 0,
            r.events@.len() == 0,
            r.failing is None,
            r.wf(),
    {
        Store {
            users_organizations: Vec::new(),
            collections: Vec::new(),
            users_collections: Vec::new(),
            ciphers: Vec::new(),
            ciphers_collections: Vec::new(),
            folders: Vec::new(),
            folders_ciphers: Vec::new(),
            attachments: Vec::new(),
            events: Vec::new(),
            failing: None,
        }
    }

    pub open spec fn spec_fails(&self, t: Table) -> bool {
        self.failing == Some(t)
    }

    /// Whether writes to table `t` are refused.
    pub fn fails(&self, t: Table) -> (r: bool)
        ensures
            r == self.spec_fails(t),
    {
        match self.failing {
            Some(f) => f == t,
            None => false,
        }
    }
}

} // verus!
