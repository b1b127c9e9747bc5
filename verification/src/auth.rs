//! Who asks, and what they may do.
use vstd::prelude::*;

use crate::error::ApiError;
#[allow(unused_imports)]
use crate::error::{refusal, ApiErrorV};
use crate::paths::is_checkpoint_path;
#[allow(unused_imports)]
use crate::paths::checkpoint_of_path;
use crate::text::starts_with;
#[allow(unused_imports)]
use crate::text::has_prefix;

verus! {

/// Something that a credential may be allowed to do.
#[derive(Clone, Copy, Debug, PartialEq, Eq, Structural)]
pub enum Capability {
    Open,
    Query,
    Read,
    Save,
    Checkpoint,
    Delete,
    Stage,
    Status,
    Admin,
    MessageWrite,
    TaskWrite,
    CredentialManage,
}

/// A user with the credential they use, and what it allows.
#[derive(Debug)]
pub struct AuthContext {
    pub credential_id: u128,
    pub user_id: u128,
    pub capabilities: Vec<Capability>,
}

impl AuthContext {
    /// Whether the credential allows something.
    pub open spec fn allows(self, capability: Capability) -> bool {
        self.capabilities@.contains(capability)
    }

    /// Whether the credential allows something.
    pub fn can(&self, capability: Capability) -> (r: bool)
        ensures
            r == self.allows(capability),
    {
        let mut i: usize = 0;
        while i < self.capabilities.len()
            invariant
                i <= self.capabilities@.len(),
                forall|k: int| 0 <= k < i ==> self.capabilities@[k] != capability,
            decreases self.capabilities@.len() - i,
        {
            if self.capabilities[i] == capability {
                return true;
            }
            i = i + 1;
        }
        false
    }

    /// Refuses what the credential does not allow.
    pub fn require(&self, capability: Capability) -> (r: Result<(), ApiError>)
        ensures
            refusal(r) == if self.allows(capability) {
                None
            } else {
                Some(ApiErrorV::Capability(capability))
            },
    {
        if self.can(capability) {
            Ok(())
        } else {
            Err(ApiError::capability(capability))
        }
    }
}

/// Whether a path belongs to a conversation or a task, and whether its file name
/// identifies one.
#[derive(Clone, Copy, Debug, PartialEq, Eq, Structural)]
pub enum ManagedPath {
    Neither,
    Conversation { identified: bool },
    Task { identified: bool },
}

/// Why a conversation or a task is not written: the name does not identify one, or
/// the credential lacks the service's capability or the one to manage.
pub open spec fn service_refusal(
    auth: AuthContext,
    identified: bool,
    message: Seq<char>,
    service: Capability,
) -> Option<ApiErrorV> {
    if !identified {
        Some(ApiErrorV::Invalid(message))
    } else if !auth.allows(service) {
        Some(ApiErrorV::Capability(service))
    } else if !auth.allows(Capability::CredentialManage) && !auth.allows(Capability::Admin) {
        Some(ApiErrorV::Capability(Capability::CredentialManage))
    } else {
        None
    }
}

/// Why a path is not written with a credential.
pub open spec fn write_refusal(
    auth: AuthContext,
    path: Seq<char>,
    managed: ManagedPath,
) -> Option<ApiErrorV> {
    if !auth.allows(Capability::Save) {
        Some(ApiErrorV::Capability(Capability::Save))
    } else {
        match managed {
            ManagedPath::Conversation { identified } => service_refusal(
                auth,
                identified,
                "managed conversation paths require a lowercase canonical UUIDv7 filename"@,
                Capability::MessageWrite,
            ),
            ManagedPath::Task { identified } => service_refusal(
                auth,
                identified,
                "managed task paths require a lowercase canonical UUIDv7 filename"@,
                Capability::TaskWrite,
            ),
            ManagedPath::Neither => if checkpoint_of_path(path) is Some {
                if auth.allows(Capability::Checkpoint) {
                    None
                } else {
                    Some(ApiErrorV::Capability(Capability::Checkpoint))
                }
            } else if has_prefix(path, ".brunn/binaries/"@) && !auth.allows(Capability::Stage) {
                Some(ApiErrorV::Capability(Capability::Stage))
            } else {
                None
            },
        }
    }
}

fn require_service(
    auth: &AuthContext,
    identified: bool,
    message: &str,
    service: Capability,
) -> (r: Result<(), ApiError>)
    ensures
        refusal(r) == service_refusal(*auth, identified, message@, service),
{
    if !identified {
        return Err(ApiError::invalid(message));
    }
    if !auth.can(service) {
        return Err(ApiError::capability(service));
    }
    if !auth.can(Capability::CredentialManage) && !auth.can(Capability::Admin) {
        return Err(ApiError::capability(Capability::CredentialManage));
    }
    Ok(())
}

/// Refuses to write a path that the credential may not write. The managed parts of
/// the workspace each ask for a capability of their own.
pub fn require_write_capabilities(auth: &AuthContext, path: &str, managed: ManagedPath) -> (r:
    Result<(), ApiError>)
    ensures
        refusal(r) == write_refusal(*auth, path@, managed),
{
    match auth.require(Capability::Save) {
        Ok(_) => {},
        Err(e) => {
            return Err(e);
        },
    }
    match managed {
        ManagedPath::Conversation { identified } => require_service(
            auth,
            identified,
            "managed conversation paths require a lowercase canonical UUIDv7 filename",
            Capability::MessageWrite,
        ),
        ManagedPath::Task { identified } => require_service(
            auth,
            identified,
            "managed task paths require a lowercase canonical UUIDv7 filename",
            Capability::TaskWrite,
        ),
        ManagedPath::Neither => {
            if is_checkpoint_path(path) {
                auth.require(Capability::Checkpoint)
            } else if starts_with(path, ".brunn/binaries/") {
                auth.require(Capability::Stage)
            } else {
                Ok(())
            }
        },
    }
}

/// A path is written only with the capability to save; a conversation or a task
/// only with one to manage credentials or to administer as well.
pub proof fn lemma_managed_writes_are_guarded(
    auth: AuthContext,
    path: Seq<char>,
    managed: ManagedPath,
)
    requires
        write_refusal(auth, path, managed) is None,
    ensures
        auth.allows(Capability::Save),
        !(managed is Neither) ==> auth.allows(Capability::CredentialManage) || auth.allows(
            Capability::Admin,
        ),
        managed is Neither && checkpoint_of_path(path) is Some ==> auth.allows(
            Capability::Checkpoint,
        ),
{
}

}
