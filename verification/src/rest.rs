//! The decision rules of the REST handlers.
//!
//! The handlers themselves are database plumbing; what they decide —
//! who may see a server, who may join or leave, which error comes back —
//! is stated and checked here on the values the queries return.

use vstd::prelude::*;
use crate::error::AppError;
use crate::ids::UserId;
use crate::models::ServerMember;

verus! {

/// Gate for channel listing and creation: members only.
pub fn require_member(is_member: bool) -> (r: Result<(), AppError>)
    ensures
        match r {
            Ok(_) => is_member,
            Err(e) => !is_member && (e matches AppError::Forbidden(m) && m@ == "Not a member"@),
        },
{
    if is_member {
        Ok(())
    } else {
        Err(AppError::Forbidden("Not a member".to_owned()))
    }
}

/// Gate for reading a server's details: members only.
pub fn require_server_member(is_member: bool) -> (r: Result<(), AppError>)
    ensures
        match r {
            Ok(_) => is_member,
            Err(e) => !is_member && (e matches AppError::Forbidden(m)
                && m@ == "You are not a member of this server"@),
        },
{
    if is_member {
        Ok(())
    } else {
        Err(AppError::Forbidden("You are not a member of this server".to_owned()))
    }
}

/// Whether a join attempt may proceed: the server must exist and be
/// public.
pub fn join_server_precheck(server_found: bool, is_public: bool) -> (r: Result<(), AppError>)
    ensures
        match r {
            Ok(_) => server_found && is_public,
            Err(e) => if !server_found {
                e matches AppError::NotFound(m) && m@ == "Server not found"@
            } else {
                !is_public && (e matches AppError::Forbidden(m) && m@ == "Server is not public"@)
            },
        },
{
    if !server_found {
        Err(AppError::NotFound("Server not found".to_owned()))
    } else if !is_public {
        Err(AppError::Forbidden("Server is not public".to_owned()))
    } else {
        Ok(())
    }
}

/// The outcome of the membership insert on a join: no row back means the
/// caller was a member already.
pub fn join_server_result(inserted: Option<ServerMember>) -> (r: Result<ServerMember, AppError>)
    ensures
        match r {
            Ok(m) => inserted matches Some(m2) && m == m2,
            Err(e) => inserted matches None && (e matches AppError::BadRequest(m)
                && m@ == "Already a member"@),
        },
{
    match inserted {
        Some(m) => Ok(m),
        None => Err(AppError::BadRequest("Already a member".to_owned())),
    }
}

/// Whether a leave attempt may proceed: the server must exist, and its
/// owner cannot leave it.
pub fn leave_server_check(server_found: bool, owner_id: UserId, user_id: UserId)
    -> (r: Result<(), AppError>)
    ensures
        match r {
            Ok(_) => server_found && owner_id != user_id,
            Err(e) => if !server_found {
                e matches AppError::NotFound(m) && m@ == "Server not found"@
            } else {
                owner_id == user_id && (e matches AppError::BadRequest(m)
                    && m@ == "Owner cannot leave the server"@)
            },
        },
{
    if !server_found {
        Err(AppError::NotFound("Server not found".to_owned()))
    } else if owner_id == user_id {
        Err(AppError::BadRequest("Owner cannot leave the server".to_owned()))
    } else {
        Ok(())
    }
}

/// The profile returned for the caller, or the not-found error when no
/// row exists.
pub fn profile_or_not_found(profile: Option<crate::models::Profile>)
    -> (r: Result<crate::models::Profile, AppError>)
    ensures
        match r {
            Ok(p) => profile matches Some(p2) && p == p2,
            Err(e) => profile matches None && (e matches AppError::NotFound(m)
                && m@ == "Profile not found"@),
        },
{
    match profile {
        Some(p) => Ok(p),
        None => Err(AppError::NotFound("Profile not found".to_owned())),
    }
}

} // verus!
