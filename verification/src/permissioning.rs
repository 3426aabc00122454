//! Permissions: who may carry out an action, until when and how often.

use crate::error::ContractError;
use crate::expiration::{BlockInfo, Expiration};
use crate::msg::Env;
use crate::text::{expiration_display, expiration_text};
use vstd::string::to_string_from_display_ensures;
use vstd::prelude::*;
use vstd::string::StringExecFns;

verus! {

/// The actions that need a permission.
#[derive(Debug, Clone, PartialEq, Eq)]
pub struct PermissionedActionsResponse {
    pub actions: Vec<String>,
}

/// What an actor may do with an action.
///
/// A blacklisted actor may not carry the action out until the expiration; a limited
/// one may while uses are left and before the expiration; a whitelisted one may
/// until the expiration. A permission without expiration never expires.
#[derive(Debug, Clone, Copy, PartialEq, Eq, Structural)]
pub enum Permission {
    Blacklisted(Option<Expiration>),
    Limited { expiration: Option<Expiration>, uses: u32 },
    Whitelisted(Option<Expiration>),
}

/// A change to the permissions of a contract.
#[derive(Debug, Clone, PartialEq, Eq)]
pub enum PermissioningMessage {
    SetPermission { actor: String, action: String, permission: Permission },
    RemovePermission { action: String, actor: String },
    PermissionAction { action: String },
    DisableActionPermissioning { action: String },
}

/// A permission, with the action and the actor that it is for.
#[derive(Debug, Clone, PartialEq, Eq)]
pub struct PermissionInfo {
    pub permission: Permission,
    pub action: String,
    pub actor: String,
}

/// Whether `expiration` names a point that has been reached in `block`.
pub open spec fn lapsed(expiration: Option<Expiration>, block: BlockInfo) -> bool {
    match expiration {
        Some(e) => e.expired(block),
        None => false,
    }
}

impl Default for Permission {
    fn default() -> (r: Self)
        ensures
            r == Permission::Whitelisted(None),
    {
        Permission::Whitelisted(None)
    }
}

impl Permission {
    pub fn blacklisted(expiration: Option<Expiration>) -> (r: Self)
        ensures
            r == Permission::Blacklisted(expiration),
    {
        Permission::Blacklisted(expiration)
    }

    pub fn whitelisted(expiration: Option<Expiration>) -> (r: Self)
        ensures
            r == Permission::Whitelisted(expiration),
    {
        Permission::Whitelisted(expiration)
    }

    pub fn limited(expiration: Option<Expiration>, uses: u32) -> (r: Self)
        ensures
            r == (Permission::Limited { expiration, uses }),
    {
        Permission::Limited { expiration, uses }
    }

    /// Whether the permission lets its actor act in `block`. A blacklisting holds
    /// the actor off until it lapses. A whitelisting lets them in until it lapses, a
    /// limited permission until it lapses or its uses are spent; after that they are
    /// let in only where the action is not strict about permissions.
    pub open spec fn permits(self, block: BlockInfo, strict: bool) -> bool {
        match self {
            Permission::Blacklisted(expiration) => lapsed(expiration, block),
            Permission::Limited { expiration, uses } => if lapsed(expiration, block) || uses
                == 0 {
                !strict
            } else {
                true
            },
            Permission::Whitelisted(expiration) => if lapsed(expiration, block) {
                !strict
            } else {
                true
            },
        }
    }

    /// Whether the permission lets its actor act now; see [`Permission::permits`].
    pub fn is_permissioned(&self, env: &Env, strict: bool) -> (r: bool)
        ensures
            r == self.permits(env.block, strict),
    {
        match self {
            Permission::Blacklisted(expiration) => {
                if let Some(expiration) = expiration {
                    if expiration.is_expired(&env.block) {
                        return true;
                    }
                }
                false
            },
            Permission::Limited { expiration, uses } => {
                if let Some(expiration) = expiration {
                    if expiration.is_expired(&env.block) {
                        return !strict;
                    }
                }
                if *uses == 0 {
                    return !strict;
                }
                true
            },
            Permission::Whitelisted(expiration) => {
                if let Some(expiration) = expiration {
                    if expiration.is_expired(&env.block) {
                        return !strict;
                    }
                }
                true
            },
        }
    }

    /// When the permission expires; never where it names no expiration.
    pub open spec fn expiration(self) -> Expiration {
        let named = match self {
            Permission::Blacklisted(expiration) => expiration,
            Permission::Limited { expiration, uses } => expiration,
            Permission::Whitelisted(expiration) => expiration,
        };
        match named {
            Some(e) => e,
            None => Expiration::Never,
        }
    }

    /// When the permission expires; never where it names no expiration.
    pub fn get_expiration(&self) -> (r: Expiration)
        ensures
            r == self.expiration(),
    {
        let named = match self {
            Permission::Blacklisted(expiration) => *expiration,
            Permission::Limited { expiration, uses } => *expiration,
            Permission::Whitelisted(expiration) => *expiration,
        };
        match named {
            Some(e) => e,
            None => Expiration::Never,
        }
    }

    /// The permission, written out: its kind, then its expiration if it names one,
    /// then for a limited permission the uses that are left, which `uses` holds
    /// written out; colons in between.
    pub open spec fn text(self, uses: Seq<char>) -> Seq<char> {
        match self {
            Permission::Blacklisted(Some(e)) => "blacklisted:"@ + expiration_display(e),
            Permission::Blacklisted(None) => "blacklisted"@,
            Permission::Limited { expiration: Some(e), uses: _ } => "limited:"@
                + expiration_display(e) + ":"@ + uses,
            Permission::Limited { expiration: None, uses: _ } => "limited:"@ + uses,
            Permission::Whitelisted(Some(e)) => "whitelisted:"@ + expiration_display(e),
            Permission::Whitelisted(None) => "whitelisted"@,
        }
    }

    /// The permission, written out; see [`Permission::text`]. The uses of a limited
    /// permission are written as `to_string` writes a number.
    pub fn to_text(&self) -> (r: String)
        ensures
            match *self {
                Permission::Limited { expiration, uses } => exists|written: String|
                    to_string_from_display_ensures::<u32>(&uses, written) && r@ == self.text(
                        written@,
                    ),
                _ => r@ == self.text(Seq::empty()),
            },
    {
        match self {
            Permission::Blacklisted(expiration) => {
                if let Some(expiration) = expiration {
                    let mut s = String::from_str("blacklisted:");
                    s.append(expiration_text(expiration).as_str());
                    s
                } else {
                    String::from_str("blacklisted")
                }
            },
            Permission::Limited { expiration, uses } => {
                let mut s = String::from_str("limited:");
                if let Some(expiration) = expiration {
                    s.append(expiration_text(expiration).as_str());
                    s.append(":");
                }
                let written = uses.to_string();
                s.append(written.as_str());
                s
            },
            Permission::Whitelisted(expiration) => {
                if let Some(expiration) = expiration {
                    let mut s = String::from_str("whitelisted:");
                    s.append(expiration_text(expiration).as_str());
                    s
                } else {
                    String::from_str("whitelisted")
                }
            },
        }
    }

    /// Spends one use of a limited permission, and fails where none is left. Other
    /// permissions are not counted and stay as they are.
    pub fn consume_use(&mut self) -> (r: Result<(), ContractError>)
        ensures
            match *old(self) {
                Permission::Limited { expiration, uses } => if uses == 0 {
                    r == Err::<(), ContractError>(ContractError::Underflow) && *final(self)
                        == *old(self)
                } else {
                    r is Ok && *final(self) == (Permission::Limited {
                        expiration,
                        uses: (uses - 1) as u32,
                    })
                },
                _ => r is Ok && *final(self) == *old(self),
            },
    {
        match *self {
            Permission::Limited { expiration, uses } => {
                if uses == 0 {
                    Err(ContractError::Underflow)
                } else {
                    *self = Permission::Limited { expiration, uses: uses - 1 };
                    Ok(())
                }
            },
            _ => Ok(()),
        }
    }
}

} // verus!
