//! Authorization gates: pure decisions over a session snapshot.
//!
//! A gate is evaluated against one session value read once, so a session
//! change cannot produce an inconsistent decision mid-evaluation.  Gates
//! never fail: an absent credential or profile is always the most
//! restrictive case, and denial reveals nothing about the hidden resource.

use vstd::prelude::*;
use crate::errors::AuthError;
use crate::model::Credential;
use crate::model::Identity;
use crate::model::Role;
use crate::model::Session;
use crate::model::SessionV;

verus! {

/// Ownership rule: a resource owned by `owner` is revealed iff the
/// viewer's resolved role is elevated, or the viewer's credential
/// identity is the owner.  It stays hidden whenever the credential or the
/// profile is absent.
pub open spec fn any_elevated_or_self_spec(viewer: SessionV, owner: Seq<u8>) -> bool {
    match (viewer.credential, viewer.profile) {
        (Some(c), Some(p)) => p.role.is_elevated_spec() || c.identity == owner,
        _ => false,
    }
}

/// Implicit-self rule, for listings whose owner is the viewer, such as
/// the viewer's own bets: revealed iff the viewer is logged in,
/// regardless of role.
pub open spec fn elevated_or_implicit_self_spec(viewer: SessionV) -> bool {
    viewer.logged_in()
}

/// Decides whether a resource owned by `owner` is revealed to `viewer`.
/// Denial suppresses the content entirely; it is not an error.
pub fn for_any_elevated_or_self(viewer: &Session, owner: &Identity) -> (r: bool)
    ensures
        r == any_elevated_or_self_spec(viewer@, owner@),
{
    match (&viewer.credential, &viewer.profile) {
        (Some(c), Some(p)) => p.role.is_elevated() || c.identity == *owner,
        _ => false,
    }
}

/// Decides whether a viewer-owned listing is revealed to `viewer`.
pub fn for_elevated_or_implicit_self(viewer: &Session) -> (r: bool)
    ensures
        r == elevated_or_implicit_self_spec(viewer@),
{
    match (&viewer.credential, &viewer.profile) {
        (Some(_), Some(_)) => true,
        _ => false,
    }
}

/// The owner filter for listings of bets or judgeships: a viewer with the
/// plain User role sees only their own rows, so the filter is their
/// identity; an elevated viewer sees every row, and a viewer without a
/// resolved profile gets no filter (the surrounding rule already
/// suppresses the listing for them).
pub fn listing_owner_filter(viewer: &Session) -> (r: Option<&Identity>)
    ensures
        r is Some <==> (viewer@.profile matches Some(p) && p.role == Role::User),
        r matches Some(id) ==> (viewer@.profile matches Some(p) && id@ == p.identity),
{
    match &viewer.profile {
        Some(p) => match p.role {
            Role::User => Some(&p.identity),
            _ => None,
        },
        None => None,
    }
}

/// Hands out the credential to attach to an authenticated call, or
/// refuses because no complete session is present.  Every privileged
/// request goes through this guard; the credential itself stays opaque to
/// the caller beyond being attached verbatim.
pub fn credential_for_call(viewer: &Session) -> (r: Result<&Credential, AuthError>)
    ensures
        viewer@.logged_in() ==> (r matches Ok(c) && viewer@.credential == Some(c@)),
        !viewer@.logged_in() ==> r == Result::<&Credential, AuthError>::Err(
            AuthError::Rejected,
        ),
{
    match (&viewer.credential, &viewer.profile) {
        (Some(c), Some(_)) => Ok(c),
        _ => Err(AuthError::Rejected),
    }
}

/// The ownership gate is reflexive: a logged-in viewer is authorized for
/// every resource they own themselves, whatever their role.
pub proof fn lemma_gate_reflexive(viewer: SessionV, owner: Seq<u8>)
    requires
        viewer.logged_in(),
        viewer.credential matches Some(c) && c.identity == owner,
    ensures
        any_elevated_or_self_spec(viewer, owner),
{
}

/// The ownership gate denies a viewer without a credential or without a
/// resolved profile, whoever owns the resource.
pub proof fn lemma_gate_denies_unauthenticated(viewer: SessionV, owner: Seq<u8>)
    requires
        !viewer.logged_in(),
    ensures
        !any_elevated_or_self_spec(viewer, owner),
{
}

} // verus!
