//! Who may install apps, and whose storage a running app may use.
use crate::api::permissions::{Claims, UserRole};
use crate::http_error::HttpError;
use crate::refusal;
use crate::refusal::Refusal;
use crate::text;
use vstd::prelude::*;

verus! {

/// An account that is locked gets no new apps. The lookup has to come back; an
/// account of which it gave no lock is not locked.
pub fn ensure_tapp_install_allowed(looked_up: bool, install_disabled: Option<bool>) -> (r: Result<
    (),
    Refusal,
>)
    ensures
        if !looked_up {
            r matches Err(e) && e@ == refusal::fault(
                500,
                "Failed to check Tapp install permission"@,
            )
        } else if install_disabled == Some(true) {
            r matches Err(e) && e@ == refusal::fault(
                403,
                "Tapp installation is disabled for this account"@,
            )
        } else {
            r is Ok
        },
{
    if !looked_up {
        return Err(refusal::refuse(500, "Failed to check Tapp install permission"));
    }
    match install_disabled {
        Some(true) => Err(
            refusal::refuse(403, "Tapp installation is disabled for this account"),
        ),
        _ => Ok(()),
    }
}

/// The account of a requester, for what only accounts have: guest sessions have
/// none.
pub fn optional_authenticated_user_id(claims: &Option<Claims>) -> (r: Option<i32>)
    ensures
        match r {
            Some(n) => claims matches Some(c) && c.subject() == Some(n as int) && n >= 0,
            None => claims matches Some(c) ==> match c.subject() {
                Some(n) => n < 0,
                None => true,
            },
        },
{
    match claims {
        Some(c) => match c.subject_id() {
            Some(n) => {
                if n >= 0 {
                    Some(n)
                } else {
                    None
                }
            },
            None => None,
        },
        None => None,
    }
}

/// The subject that storage belongs to: an account or a guest session. Zero is
/// neither.
pub open spec fn storage_subject(claims: Claims) -> Option<int> {
    match claims.subject() {
        Some(n) if n != 0 => Some(n),
        _ => None,
    }
}

pub fn actor_subject_id(claims: &Claims) -> (r: Option<i32>)
    ensures
        match r {
            Some(n) => storage_subject(*claims) == Some(n as int),
            None => storage_subject(*claims) is None,
        },
{
    match claims.subject_id() {
        Some(n) => {
            if n != 0 {
                Some(n)
            } else {
                None
            }
        },
        None => None,
    }
}

#[derive(Clone, Copy, Debug, PartialEq, Eq, Structural)]
pub enum StoragePermission {
    StorageRead,
    StorageWrite,
}

/// What a running app has been granted.
pub struct RuntimeGrantContext {
    pub tapp_id: String,
    pub owner_id: i32,
    pub subject_id: i32,
    pub storage: Vec<StoragePermission>,
}

/// Why an app may not use storage.
#[derive(Clone, Copy, Debug, PartialEq, Eq, Structural)]
pub enum StorageAccessError {
    /// The grant is for another app.
    OtherTapp,
    /// The grant does not hold the permission.
    NotGranted(StoragePermission),
    /// The requester is neither an account nor a guest session.
    NoSubject,
    /// The grant belongs to another subject.
    SubjectMismatch,
}

/// The storage that an app may use: the installation's owner and the subject
/// whose private storage it is.
#[derive(Clone, Copy, Debug, PartialEq, Eq, Structural)]
pub struct TappStorageAccess {
    pub owner_id: i32,
    pub subject_id: i32,
}

/// The access that a grant gives to a requester: the grant has to belong to the
/// requester.
pub open spec fn access_of(grant: RuntimeGrantContext, claims: Claims) -> Result<
    TappStorageAccess,
    StorageAccessError,
> {
    match storage_subject(claims) {
        None => Err(StorageAccessError::NoSubject),
        Some(n) => if n == grant.subject_id {
            Ok(TappStorageAccess { owner_id: grant.owner_id, subject_id: grant.subject_id })
        } else {
            Err(StorageAccessError::SubjectMismatch)
        },
    }
}

impl TappStorageAccess {
    pub fn from_runtime_grant(grant: &RuntimeGrantContext, claims: &Claims) -> (r: Result<
        Self,
        StorageAccessError,
    >)
        ensures
            r == access_of(*grant, *claims),
    {
        match actor_subject_id(claims) {
            None => Err(StorageAccessError::NoSubject),
            Some(n) => {
                if n == grant.subject_id {
                    Ok(TappStorageAccess { owner_id: grant.owner_id, subject_id: grant.subject_id })
                } else {
                    Err(StorageAccessError::SubjectMismatch)
                }
            },
        }
    }
}

pub open spec fn grant_error(
    grant: RuntimeGrantContext,
    tapp_id: Seq<char>,
    permission: StoragePermission,
) -> Option<StorageAccessError> {
    if grant.tapp_id@ != tapp_id {
        Some(StorageAccessError::OtherTapp)
    } else if !grant.storage@.contains(permission) {
        Some(StorageAccessError::NotGranted(permission))
    } else {
        None
    }
}

fn require_runtime_storage_grant(
    grant: &RuntimeGrantContext,
    tapp_id: &str,
    permission: StoragePermission,
) -> (r: Result<(), StorageAccessError>)
    ensures
        match r {
            Ok(_) => grant_error(*grant, tapp_id@, permission) is None,
            Err(e) => grant_error(*grant, tapp_id@, permission) == Some(e),
        },
{
    if !text::eq(grant.tapp_id.as_str(), tapp_id) {
        return Err(StorageAccessError::OtherTapp);
    }
    let mut i: usize = 0;
    while i < grant.storage.len()
        invariant
            i <= grant.storage@.len(),
            forall|j: int| 0 <= j < i ==> grant.storage@[j] != permission,
            grant.tapp_id@ == tapp_id@,
        decreases grant.storage@.len() - i,
    {
        if grant.storage[i] == permission {
            assert(grant.storage@[i as int] == permission);
            return Ok(());
        }
        i = i + 1;
    }
    Err(StorageAccessError::NotGranted(permission))
}

pub open spec fn authorized(
    claims: Claims,
    grant: RuntimeGrantContext,
    tapp_id: Seq<char>,
    permission: StoragePermission,
) -> Result<TappStorageAccess, StorageAccessError> {
    match grant_error(grant, tapp_id, permission) {
        Some(e) => Err(e),
        None => access_of(grant, claims),
    }
}

/// Authorizes an app to read storage.
pub fn authorize_runtime_storage(claims: &Claims, grant: &RuntimeGrantContext, tapp_id: &str) -> (r:
    Result<TappStorageAccess, StorageAccessError>)
    ensures
        r == authorized(*claims, *grant, tapp_id@, StoragePermission::StorageRead),
{
    match require_runtime_storage_grant(grant, tapp_id, StoragePermission::StorageRead) {
        Ok(_) => TappStorageAccess::from_runtime_grant(grant, claims),
        Err(e) => Err(e),
    }
}

/// Authorizes an app to write storage.
pub fn authorize_runtime_storage_write(
    claims: &Claims,
    grant: &RuntimeGrantContext,
    tapp_id: &str,
) -> (r: Result<TappStorageAccess, StorageAccessError>)
    ensures
        r == authorized(*claims, *grant, tapp_id@, StoragePermission::StorageWrite),
{
    match require_runtime_storage_grant(grant, tapp_id, StoragePermission::StorageWrite) {
        Ok(_) => TappStorageAccess::from_runtime_grant(grant, claims),
        Err(e) => Err(e),
    }
}

/// Storage that is opened is always the requester's own.
pub proof fn storage_belongs_to_its_subject(
    claims: Claims,
    grant: RuntimeGrantContext,
    tapp_id: Seq<char>,
    permission: StoragePermission,
)
    ensures
        authorized(claims, grant, tapp_id, permission) matches Ok(access) ==> claims.subject()
            == Some(access.subject_id as int) && access.subject_id != 0 && grant.tapp_id@ == tapp_id
            && grant.storage@.contains(permission),
{
}

/// The role of an account that is signed in.
pub fn current_user_role(is_admin: bool) -> (r: UserRole)
    ensures
        r == (if is_admin {
            UserRole::Admin
        } else {
            UserRole::User
        }),
{
    if is_admin {
        UserRole::Admin
    } else {
        UserRole::User
    }
}

/// Looking for an app that is visible: the name has to be one, and the lookup has
/// to come back.
pub fn find_visible_tapp(valid_id: bool, looked_up: bool) -> (r: Result<(), Refusal>)
    ensures
        match r {
            Ok(_) => valid_id && looked_up,
            Err(e) => e@ == if !valid_id {
                refusal::fault(400, "Bad request"@)
            } else {
                refusal::fault(500, "Failed to find Tapp"@)
            } && !(valid_id && looked_up),
        },
{
    if !valid_id {
        return Err(refusal::refuse(400, "Bad request"));
    }
    if !looked_up {
        return Err(refusal::refuse(500, "Failed to find Tapp"));
    }
    Ok(())
}

/// Writing to an installation that may only be read is refused with the status
/// that belongs to that, where it is one.
pub fn installation_write_forbidden_error(status: u16, message: &str, code: &str) -> (r: HttpError)
    ensures
        r.status == if 100 <= status < 1000 {
            status
        } else {
            403
        },
        r.error@ == "Read-only installation resource"@,
        text::opt_view(r.message) == Some(message@),
        r.hint is None,
        text::opt_view(r.code) == Some(code@),
{
    HttpError {
        status: if 100 <= status && status < 1000 {
            status
        } else {
            403
        },
        error: "Read-only installation resource".to_owned(),
        message: Some(message.to_owned()),
        hint: None,
        code: Some(code.to_owned()),
    }
}

/// Permissions that an account of this role cannot be granted stop an
/// installation with a conflict.
pub fn filter_install_permissions(filtered: Result<Vec<String>, (String, String)>) -> (r: Result<
    Vec<String>,
    HttpError,
>)
    ensures
        match r {
            Ok(granted) => filtered == Ok::<Vec<String>, (String, String)>(granted),
            Err(e) => filtered matches Err(refused) && e.status == 409 && e.error == refused.0
                && e.message is None && e.hint is None && e.code == Some(refused.1),
        },
{
    match filtered {
        Ok(granted) => Ok(granted),
        Err((message, code)) => Err(
            HttpError { status: 409, error: message, message: None, hint: None, code: Some(code) },
        ),
    }
}

/// Storage is opened to whom the grant was made for, in the name of its owner,
/// and only for what was granted.
pub proof fn granted_storage_is_opened(
    claims: Claims,
    grant: RuntimeGrantContext,
    tapp_id: Seq<char>,
    permission: StoragePermission,
)
    ensures
        authorized(claims, grant, tapp_id, permission) is Ok <==> grant.tapp_id@ == tapp_id
            && grant.storage@.contains(permission) && claims.subject() == Some(
            grant.subject_id as int,
        ) && grant.subject_id != 0,
        authorized(claims, grant, tapp_id, permission) matches Ok(access) ==> access.owner_id
            == grant.owner_id && access.subject_id == grant.subject_id,
{
}

} // verus!
