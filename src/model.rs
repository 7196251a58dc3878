//! The rows of the store and the enumerations they use.
use vstd::prelude::*;

verus! {

/// Errors the core reports.
#[derive(Debug, Clone, Copy, PartialEq, Eq, Structural)]
pub enum VaultError {
    /// A cipher must have exactly one owner: a user or an organization.
    InvalidOwner,
    /// A cipher type outside Login, SecureNote, Card, Identity.
    InvalidType,
    /// A mapping that the current state promised is missing from the store.
    InconsistentState,
    /// The store refused or could not perform a write.
    StoreFailure,
}

/// A member's role in an organization, from least to most restricted.
#[derive(Debug, Clone, Copy, PartialEq, Eq, Structural)]
pub enum UserOrgType {
    Owner,
    Admin,
    Manager,
    Member,
}

impl UserOrgType {
    pub open spec fn spec_is_admin_or_owner(self) -> bool {
        self is Owner || self is Admin
    }

    pub fn is_admin_or_owner(&self) -> (r: bool)
        ensures
            r == self.spec_is_admin_or_owner(),
    {
        match self {
            UserOrgType::Owner => true,
            UserOrgType::Admin => true,
            _ => false,
        }
    }
}

/// The tables of the store, named so that one of them can be marked as failing.
#[derive(Debug, Clone, Copy, PartialEq, Eq, Structural)]
pub enum Table {
    Ciphers,
    FoldersCiphers,
    CiphersCollections,
    Attachments,
    Events,
}

/// Clones an optional string, keeping its value.
pub fn clone_opt(o: &Option<String>) -> (r: Option<String>)
    ensures
        r == *o,
{
    match o {
        Some(s) => Some(s.clone()),
        None => None,
    }
}

/// A user's membership in an organization.
pub struct UserOrganization {
    pub user_uuid: String,
    pub org_uuid: String,
    pub access_all: bool,
    pub atype: UserOrgType,
}

/// A collection of an organization.
pub struct Collection {
    pub uuid: String,
    pub org_uuid: String,
}

/// An explicit assignment of a user to a collection.
pub struct CollectionUser {
    pub user_uuid: String,
    pub collection_uuid: String,
}

/// A cipher placed in a collection.
pub struct CollectionCipher {
    pub cipher_uuid: String,
    pub collection_uuid: String,
}

/// A user's personal folder.
pub struct Folder {
    pub uuid: String,
    pub user_uuid: String,
}

/// A cipher placed in a folder.
pub struct FolderCipher {
    pub cipher_uuid: String,
    pub folder_uuid: String,
}

impl FolderCipher {
    pub fn new(folder_uuid: &str, cipher_uuid: &str) -> (r: FolderCipher)
        ensures
            r.folder_uuid@ == folder_uuid@,
            r.cipher_uuid@ == cipher_uuid@,
    {
        FolderCipher { cipher_uuid: cipher_uuid.to_owned(), folder_uuid: folder_uuid.to_owned() }
    }
}

/// Metadata of a file attached to a cipher.
pub struct Attachment {
    pub id: String,
    pub cipher_uuid: String,
    pub file_name: String,
}

/// A vault item. Exactly one of `user_uuid` and `organization_uuid` is set,
/// and `type_` is 1 (Login), 2 (SecureNote), 3 (Card) or 4 (Identity).
pub struct Cipher {
    pub uuid: String,
    pub created_at: i64,
    pub updated_at: i64,
    pub user_uuid: Option<String>,
    pub organization_uuid: Option<String>,
    pub type_: i32,
    pub name: String,
    pub notes: Option<String>,
    pub fields: Option<String>,
    pub data: String,
    pub favorite: bool,
}

impl Cipher {
    /// Exactly one owner, and a known type.
    pub open spec fn wf(&self) -> bool {
        &&& (self.user_uuid is Some) != (self.organization_uuid is Some)
        &&& 1 <= self.type_ <= 4
    }

    pub fn cloned(&self) -> (r: Cipher)
        ensures
            r == *self,
    {
        Cipher {
            uuid: self.uuid.clone(),
            created_at: self.created_at,
            updated_at: self.updated_at,
            user_uuid: clone_opt(&self.user_uuid),
            organization_uuid: clone_opt(&self.organization_uuid),
            type_: self.type_,
            name: self.name.clone(),
            notes: clone_opt(&self.notes),
            fields: clone_opt(&self.fields),
            data: self.data.clone(),
            favorite: self.favorite,
        }
    }
}

/// An audit record.
pub struct Event {
    pub uuid: String,
    pub event_type: i32,
    pub user_uuid: Option<String>,
    pub org_uuid: Option<String>,
    pub cipher_uuid: Option<String>,
    pub collection_uuid: Option<String>,
    pub group_uuid: Option<String>,
    pub org_user_uuid: Option<String>,
    pub act_user_uuid: Option<String>,
    pub device_type: Option<i32>,
    pub ip_address: Option<String>,
    pub event_date: i64,
}

impl Event {
    pub fn cloned(&self) -> (r: Event)
        ensures
            r == *self,
    {
        Event {
            uuid: self.uuid.clone(),
            event_type: self.event_type,
            user_uuid: clone_opt(&self.user_uuid),
            org_uuid: clone_opt(&self.org_uuid),
            cipher_uuid: clone_opt(&self.cipher_uuid),
            collection_uuid: clone_opt(&self.collection_uuid),
            group_uuid: clone_opt(&self.group_uuid),
            org_user_uuid: clone_opt(&self.org_user_uuid),
            act_user_uuid: clone_opt(&self.act_user_uuid),
            device_type: self.device_type,
            ip_address: clone_opt(&self.ip_address),
            event_date: self.event_date,
        }
    }
}

/// The kinds of audited actions, with their wire codes.
#[derive(Debug, Clone, Copy, PartialEq, Eq, Structural)]
pub enum EventType {
    UserLoggedIn,
    UserChangedPassword,
    UserUpdated2fa,
    UserDisabled2fa,
    UserRecovered2fa,
    UserFailedLogIn,
    UserFailedLogIn2fa,
    UserClientExportedVault,
    CipherCreated,
    CipherUpdated,
    CipherDeleted,
    CipherAttachmentCreated,
    CipherAttachmentDeleted,
    CipherShared,
    CipherUpdatedCollections,
    CipherClientViewed,
    CipherClientToggledPasswordVisible,
    CipherClientToggledHiddenFieldVisible,
    CipherClientToggledCardCodeVisible,
    CipherClientCopiedPassword,
    CipherClientCopiedHiddenField,
    CipherClientCopiedCardCode,
    CipherClientAutofilled,
    CollectionCreated,
    CollectionUpdated,
    CollectionDeleted,
    OrganizationUserInvited,
    OrganizationUserConfirmed,
    OrganizationUserUpdated,
    OrganizationUserRemoved,
    OrganizationUserUpdatedGroups,
    OrganizationUpdated,
    OrganizationPurgedVault,
}

} // verus!
