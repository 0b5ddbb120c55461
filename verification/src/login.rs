//! The signed-challenge login protocol, client side.
//!
//! One login attempt walks `NoChallenge → ChallengeIssued → Verifying →
//! LoggedIn | Rejected`.  The remote service issues the challenge, verifies
//! the signature and resolves the profile; those exchanges are events fed
//! in by the surrounding runtime.  The decisions in between — parsing
//! user-supplied text before anything is sent, binding the challenge to
//! the claimed identity, and refusing every challenge that was already
//! submitted once — are made here and verified.

use vstd::prelude::*;
use crate::errors::AuthError;
use crate::keys::parse_identity;
use crate::keys::parse_signature;
use crate::keys::public_key_parse;
use crate::keys::signature_parse;
use crate::model::Credential;
use crate::model::Identity;

verus! {

/// Where a login attempt stands.
#[derive(Clone, Copy, Debug, PartialEq, Eq, Structural)]
pub enum LoginPhase {
    NoChallenge,
    ChallengeIssued,
    Verifying,
    LoggedIn,
    Rejected,
}

/// The client-side state of the login protocol: the current attempt and
/// the record of challenges that were already submitted once.  A consumed
/// challenge is never accepted again, whether the attempt it belonged to
/// succeeded or failed — replaying one is rejected outright.
pub struct LoginProtocol {
    phase: LoginPhase,
    claimed: Option<Identity>,
    challenge: Option<String>,
    consumed: Vec<String>,
}

impl LoginProtocol {
    pub closed spec fn phase(self) -> LoginPhase {
        self.phase
    }

    /// The identity the current attempt claims, as its serialized bytes.
    pub closed spec fn claimed_identity(self) -> Option<Seq<u8>> {
        match self.claimed {
            Some(id) => Some(id@),
            None => None,
        }
    }

    /// The challenge issued for the current attempt.
    pub closed spec fn issued_challenge(self) -> Option<Seq<char>> {
        match self.challenge {
            Some(ch) => Some(ch@),
            None => None,
        }
    }

    /// Every challenge that was ever submitted, in order.
    pub closed spec fn consumed_view(self) -> Seq<Seq<char>> {
        Seq::new(self.consumed@.len(), |i: int| self.consumed@[i]@)
    }

    pub open spec fn consumed_has(self, ch: Seq<char>) -> bool {
        self.consumed_view().contains(ch)
    }

    pub closed spec fn wf(self) -> bool {
        &&& self.claimed matches Some(id) ==> id.wf()
        &&& (self.phase is ChallengeIssued || self.phase is Verifying) ==> (self.claimed is Some
            && self.challenge is Some)
    }

    /// A fresh protocol: no attempt yet, nothing consumed.
    pub fn new() -> (p: LoginProtocol)
        ensures
            p.wf(),
            p.phase() is NoChallenge,
            p.claimed_identity() is None,
            p.issued_challenge() is None,
            p.consumed_view() == Seq::<Seq<char>>::empty(),
    {
        let p = LoginProtocol { phase: LoginPhase::NoChallenge, claimed: None, challenge: None, consumed: Vec::new() };
        proof {
            assert(p.consumed_view() =~= Seq::<Seq<char>>::empty());
        }
        p
    }

    /// Starts an attempt for the identity the user typed.  Malformed text
    /// fails with `MalformedInput` before anything reaches the server and
    /// leaves the protocol untouched; well-formed text restarts the
    /// attempt, and the returned identity is what the runtime asks the
    /// service to issue a challenge for.
    pub fn request_challenge(&mut self, identity_text: &str) -> (r: Result<Identity, AuthError>)
        requires
            old(self).wf(),
        ensures
            final(self).wf(),
            r is Ok <==> public_key_parse(identity_text@) is Some,
            r matches Ok(id) ==> {
                &&& public_key_parse(identity_text@) matches Some(b) && id@ == b && id.wf()
                &&& final(self).phase() is NoChallenge
                &&& final(self).claimed_identity() == Some(id@)
                &&& final(self).issued_challenge() is None
            },
            r matches Err(e) ==> e == AuthError::MalformedInput && *final(self) == *old(self),
            final(self).consumed_view() == old(self).consumed_view(),
    {
        match parse_identity(identity_text) {
            Ok(id) => {
                self.phase = LoginPhase::NoChallenge;
                self.claimed = Some(id.clone());
                self.challenge = None;
                proof {
                    assert(final(self).consumed_view() =~= old(self).consumed_view());
                }
                Ok(id)
            },
            Err(e) => Err(e),
        }
    }

    /// Records the challenge the service issued for the claimed identity:
    /// the attempt moves to `ChallengeIssued`.
    pub fn challenge_issued(&mut self, challenge: String)
        requires
            old(self).wf(),
            old(self).claimed_identity() is Some,
        ensures
            final(self).wf(),
            final(self).phase() is ChallengeIssued,
            final(self).claimed_identity() == old(self).claimed_identity(),
            final(self).issued_challenge() == Some(challenge@),
            final(self).consumed_view() == old(self).consumed_view(),
    {
        self.phase = LoginPhase::ChallengeIssued;
        self.challenge = Some(challenge);
        proof {
            assert(final(self).consumed_view() =~= old(self).consumed_view());
        }
    }

    /// Whether this completion would be accepted for submission: the
    /// attempt holds an issued challenge, the submitted challenge is that
    /// one, the identity is the claimed one, and the challenge was never
    /// submitted before.
    pub open spec fn completion_acceptable(self, id: Seq<u8>, ch: Seq<char>) -> bool {
        &&& self.phase() is ChallengeIssued
        &&& self.issued_challenge() == Some(ch)
        &&& self.claimed_identity() == Some(id)
        &&& !self.consumed_has(ch)
    }

    fn consumed_contains(&self, ch: &String) -> (b: bool)
        ensures
            b == self.consumed_has(ch@),
    {
        let n = self.consumed.len();
        let mut i: usize = 0;
        while i < n
            invariant
                n == self.consumed.len(),
                i <= n,
                forall|j: int| 0 <= j < i ==> self.consumed@[j]@ != ch@,
            decreases n - i,
        {
            if self.consumed[i] == *ch {
                proof {
                    assert(self.consumed_view()[i as int] == ch@);
                }
                return true;
            }
            i = i + 1;
        }
        proof {
            let cv = self.consumed_view();
            assert forall|j: int| 0 <= j < cv.len() implies cv[j] != ch@ by {
                assert(self.consumed_view()[j] == self.consumed@[j]@);
            }
            if self.consumed_has(ch@) {
                let j = choose|j: int|
                    0 <= j < self.consumed_view().len() && self.consumed_view()[j] == ch@;
                assert(false);
            }
        }
        false
    }

    /// What an accepted completion guarantees: the returned credential is
    /// exactly the parsed identity, the submitted challenge and the parsed
    /// signature; the attempt is `Verifying`; and the challenge has just
    /// been consumed.
    pub open spec fn complete_success_post(
        pre: LoginProtocol,
        post: LoginProtocol,
        r: Result<Credential, AuthError>,
        id: Seq<u8>,
        sig: Seq<u8>,
        ch: Seq<char>,
    ) -> bool {
        &&& r matches Ok(cred)
        &&& cred@.identity == id
        &&& cred@.challenge == ch
        &&& cred@.signature == sig
        &&& cred.wf()
        &&& post.phase() is Verifying
        &&& post.claimed_identity() == pre.claimed_identity()
        &&& post.issued_challenge() == pre.issued_challenge()
        &&& post.consumed_view() == pre.consumed_view().push(ch)
    }

    /// Completes the attempt with what the user typed.  Parse failures are
    /// `MalformedInput` and are never submitted.  A challenge that is not
    /// the issued one, an identity other than the claimed one, or a
    /// challenge already submitted once — replay — is `Rejected` and
    /// needs a fresh challenge.  An acceptable completion consumes the
    /// challenge, moves to `Verifying`, and hands back the credential the
    /// runtime submits to the service.
    pub fn complete(
        &mut self,
        identity_text: &str,
        signature_text: &str,
        challenge_text: &String,
    ) -> (r: Result<Credential, AuthError>)
        requires
            old(self).wf(),
        ensures
            final(self).wf(),
            public_key_parse(identity_text@) is None || signature_parse(signature_text@)
                is None ==> r == Result::<Credential, AuthError>::Err(
                AuthError::MalformedInput,
            ) && *final(self) == *old(self),
            public_key_parse(identity_text@) matches Some(id) ==> (signature_parse(
                signature_text@,
            ) is Some && !old(self).completion_acceptable(id, challenge_text@) ==> r
                == Result::<Credential, AuthError>::Err(AuthError::Rejected) && *final(self)
                == *old(self)),
            public_key_parse(identity_text@) matches Some(id) ==> (signature_parse(
                signature_text@,
            ) matches Some(sig) ==> (old(self).completion_acceptable(id, challenge_text@)
                ==> LoginProtocol::complete_success_post(
                *old(self),
                *final(self),
                r,
                id,
                sig,
                challenge_text@,
            ))),
    {
        let id = match parse_identity(identity_text) {
            Ok(id) => id,
            Err(e) => {
                return Err(e);
            },
        };
        let sig = match parse_signature(signature_text) {
            Ok(s) => s,
            Err(e) => {
                return Err(e);
            },
        };
        match self.phase {
            LoginPhase::ChallengeIssued => (),
            _ => {
                return Err(AuthError::Rejected);
            },
        }
        let issued_matches = match &self.challenge {
            Some(ch) => *ch == *challenge_text,
            None => false,
        };
        if !issued_matches {
            return Err(AuthError::Rejected);
        }
        let claimed_matches = match &self.claimed {
            Some(cid) => *cid == id,
            None => false,
        };
        if !claimed_matches {
            return Err(AuthError::Rejected);
        }
        if self.consumed_contains(challenge_text) {
            return Err(AuthError::Rejected);
        }
        self.consumed.push(challenge_text.clone());
        self.phase = LoginPhase::Verifying;
        proof {
            assert(final(self).consumed_view() =~= old(self).consumed_view().push(
                challenge_text@,
            ));
        }
        Ok(Credential { identity: id, challenge: challenge_text.clone(), signature: sig })
    }

    /// Records the service's verdict on the submitted credential.  A
    /// refusal is terminal for the attempt; acceptance keeps the attempt
    /// in `Verifying` until the profile is resolved.
    pub fn verify_outcome(&mut self, accepted: bool)
        requires
            old(self).wf(),
            old(self).phase() is Verifying,
        ensures
            final(self).wf(),
            accepted ==> *final(self) == *old(self),
            !accepted ==> final(self).phase() is Rejected && final(self).consumed_view() == old(
                self,
            ).consumed_view(),
    {
        if !accepted {
            self.phase = LoginPhase::Rejected;
            proof {
                assert(final(self).consumed_view() =~= old(self).consumed_view());
            }
        }
    }

    /// Records that the profile for the accepted credential was resolved:
    /// the attempt is logged in.  The runtime then commits the credential
    /// and profile to the session cell.
    pub fn profile_resolved(&mut self)
        requires
            old(self).wf(),
            old(self).phase() is Verifying,
        ensures
            final(self).wf(),
            final(self).phase() is LoggedIn,
            final(self).consumed_view() == old(self).consumed_view(),
            final(self).claimed_identity() == old(self).claimed_identity(),
    {
        self.phase = LoginPhase::LoggedIn;
        proof {
            assert(final(self).consumed_view() =~= old(self).consumed_view());
        }
    }
}

} // verus!
