//! Data model of the session core: identities, roles, credentials, profiles
//! and the session record itself.

use vstd::prelude::*;
use vstd::std_specs::cmp::PartialEqSpec;

verus! {

/// Length in bytes of a serialized public identity (compressed form).
pub const IDENTITY_LEN: usize = 33;

/// Length in bytes of a compact-serialized signature.
pub const SIGNATURE_LEN: usize = 64;

/// The role a profile resolves to.  Root and Admin are both "elevated" for
/// authorization gating; User is not, and Unauthenticated marks a profile
/// the service did not tie to a privileged account.
#[derive(Clone, Copy, Debug, PartialEq, Eq, Structural)]
pub enum Role {
    Root,
    Admin,
    User,
    Unauthenticated,
}

impl Role {
    /// Elevated means the role passes every ownership gate.
    pub open spec fn is_elevated_spec(self) -> bool {
        self == Role::Root || self == Role::Admin
    }

    pub fn is_elevated(&self) -> (r: bool)
        ensures
            r == self.is_elevated_spec(),
    {
        match self {
            Role::Root => true,
            Role::Admin => true,
            Role::User => false,
            Role::Unauthenticated => false,
        }
    }
}

/// An opaque public-key-like identifier, used both as a login principal and
/// as a resource-ownership key.  A value always holds exactly
/// `IDENTITY_LEN` bytes; it is immutable once created.
pub struct Identity {
    bytes: Vec<u8>,
}

impl View for Identity {
    type V = Seq<u8>;

    closed spec fn view(&self) -> Seq<u8> {
        self.bytes@
    }
}

impl Identity {
    pub open spec fn wf(self) -> bool {
        self@.len() == IDENTITY_LEN
    }

    /// Builds an identity from its serialized bytes; rejects any length
    /// other than `IDENTITY_LEN`.
    pub fn from_bytes(bytes: Vec<u8>) -> (r: Option<Identity>)
        ensures
            r is Some <==> bytes@.len() == IDENTITY_LEN,
            r matches Some(id) ==> id@ == bytes@ && id.wf(),
    {
        if bytes.len() == IDENTITY_LEN {
            Some(Identity { bytes })
        } else {
            None
        }
    }

    pub fn as_bytes(&self) -> (b: &Vec<u8>)
        ensures
            b@ == self@,
    {
        &self.bytes
    }

    /// Strict lexicographic comparison; with `lemma_bytes_lt_trichotomy`
    /// and `lemma_bytes_lt_transitive` identities are totally ordered.
    pub fn lt(&self, other: &Identity) -> (r: bool)
        ensures
            r == bytes_lt(self@, other@),
    {
        let a_len = self.bytes.len();
        let b_len = other.bytes.len();
        let n = if a_len < b_len {
            a_len
        } else {
            b_len
        };
        let mut i: usize = 0;
        proof {
            assert(self@.skip(0) =~= self@);
            assert(other@.skip(0) =~= other@);
        }
        while i < n
            invariant
                n <= self.bytes.len(),
                n <= other.bytes.len(),
                n == if self.bytes.len() < other.bytes.len() {
                    self.bytes.len()
                } else {
                    other.bytes.len()
                },
                i <= n,
                bytes_lt(self@, other@) == bytes_lt(
                    self@.skip(i as int),
                    other@.skip(i as int),
                ),
            decreases n - i,
        {
            let x = self.bytes[i];
            let y = other.bytes[i];
            proof {
                let sa = self@.skip(i as int);
                let sb = other@.skip(i as int);
                assert(sa[0] == self@[i as int] && sb[0] == other@[i as int]);
                assert(sa.drop_first() =~= self@.skip(i as int + 1));
                assert(sb.drop_first() =~= other@.skip(i as int + 1));
            }
            if x != y {
                return x < y;
            }
            i = i + 1;
        }
        proof {
            if a_len < b_len {
                assert(self@.skip(n as int).len() == 0 && other@.skip(n as int).len() > 0);
            } else if a_len > b_len {
                assert(other@.skip(n as int).len() == 0);
            } else {
                assert(self@.skip(n as int).len() == 0 && other@.skip(n as int).len() == 0);
            }
        }
        a_len < b_len
    }
}

/// Lexicographic order on byte sequences, a proper prefix ordering first.
pub open spec fn bytes_lt(a: Seq<u8>, b: Seq<u8>) -> bool
    decreases a.len(),
{
    if b.len() == 0 {
        false
    } else if a.len() == 0 {
        true
    } else if a[0] != b[0] {
        a[0] < b[0]
    } else {
        bytes_lt(a.drop_first(), b.drop_first())
    }
}

/// The order is total: for any two byte sequences exactly one of
/// `bytes_lt(a, b)`, `bytes_lt(b, a)` and `a == b` holds.  Together with
/// `lemma_bytes_lt_transitive` this makes identities totally ordered.
pub proof fn lemma_bytes_lt_trichotomy(a: Seq<u8>, b: Seq<u8>)
    ensures
        bytes_lt(a, b) || bytes_lt(b, a) || a == b,
        bytes_lt(a, b) ==> !bytes_lt(b, a) && a != b,
        bytes_lt(b, a) ==> !bytes_lt(a, b) && a != b,
    decreases a.len(),
{
    if a.len() == 0 && b.len() == 0 {
        assert(a =~= b);
    } else if a.len() > 0 && b.len() > 0 && a[0] == b[0] {
        lemma_bytes_lt_trichotomy(a.drop_first(), b.drop_first());
        if a.drop_first() == b.drop_first() {
            assert forall|k: int| 0 <= k < a.len() implies a[k] == b[k] by {
                if k > 0 {
                    assert(a[k] == a.drop_first()[k - 1]);
                    assert(b[k] == b.drop_first()[k - 1]);
                }
            }
            assert(a =~= b);
        }
        if a == b {
            assert(a.drop_first() =~= b.drop_first());
        }
    } else if a == b {
        assert(a.len() == b.len());
        if a.len() > 0 {
            assert(a[0] == b[0]);
        }
    }
}

/// The order is transitive.
pub proof fn lemma_bytes_lt_transitive(a: Seq<u8>, b: Seq<u8>, c: Seq<u8>)
    requires
        bytes_lt(a, b),
        bytes_lt(b, c),
    ensures
        bytes_lt(a, c),
    decreases a.len(),
{
    if a.len() > 0 && b.len() > 0 && c.len() > 0 && a[0] == b[0] && b[0] == c[0] {
        lemma_bytes_lt_transitive(a.drop_first(), b.drop_first(), c.drop_first());
    }
}

impl PartialEq for Identity {
    fn eq(&self, other: &Identity) -> (r: bool) {
        let r = self.bytes == other.bytes;
        proof {
            if r {
                assert(self.bytes@ =~= other.bytes@);
            } else {
                if self@ == other@ {
                    assert(self.bytes.eq_spec(&other.bytes));
                }
            }
        }
        r
    }
}

impl vstd::std_specs::cmp::PartialEqSpecImpl for Identity {
    open spec fn obeys_eq_spec() -> bool {
        true
    }

    open spec fn eq_spec(&self, other: &Identity) -> bool {
        self@ == other@
    }
}

impl Clone for Identity {
    fn clone(&self) -> (r: Self)
        ensures
            r@ == self@,
    {
        let bytes = self.bytes.clone();
        proof {
            assert(bytes@ =~= self.bytes@);
        }
        Identity { bytes }
    }
}

/// The triple presented on every authenticated call after login: the claimed
/// identity, the challenge it was issued, and the signature over that
/// challenge.
pub struct Credential {
    pub identity: Identity,
    pub challenge: String,
    pub signature: Vec<u8>,
}

/// Mathematical value of a `Credential`.
pub struct CredentialV {
    pub identity: Seq<u8>,
    pub challenge: Seq<char>,
    pub signature: Seq<u8>,
}

impl View for Credential {
    type V = CredentialV;

    open spec fn view(&self) -> CredentialV {
        CredentialV {
            identity: self.identity@,
            challenge: self.challenge@,
            signature: self.signature@,
        }
    }
}

impl CredentialV {
    pub open spec fn wf(self) -> bool {
        self.identity.len() == IDENTITY_LEN && self.signature.len() == SIGNATURE_LEN
    }
}

impl Credential {
    pub open spec fn wf(self) -> bool {
        self@.wf()
    }
}

impl Clone for Credential {
    fn clone(&self) -> (r: Self)
        ensures
            r@ == self@,
    {
        let signature = self.signature.clone();
        proof {
            assert(signature@ =~= self.signature@);
        }
        Credential {
            identity: self.identity.clone(),
            challenge: self.challenge.clone(),
            signature,
        }
    }
}

/// What the service resolves a logged-in identity to: its role and an
/// optional display name.  Resolved once per successful login and cached for
/// the session's lifetime.
pub struct Profile {
    pub identity: Identity,
    pub role: Role,
    pub name: Option<String>,
}

/// Mathematical value of a `Profile`.
pub struct ProfileV {
    pub identity: Seq<u8>,
    pub role: Role,
    pub name: Option<Seq<char>>,
}

impl View for Profile {
    type V = ProfileV;

    open spec fn view(&self) -> ProfileV {
        ProfileV {
            identity: self.identity@,
            role: self.role,
            name: match self.name {
                Some(ref n) => Some(n@),
                None => None,
            },
        }
    }
}

impl ProfileV {
    pub open spec fn wf(self) -> bool {
        self.identity.len() == IDENTITY_LEN
    }
}

impl Profile {
    pub open spec fn wf(self) -> bool {
        self@.wf()
    }
}

impl Clone for Profile {
    fn clone(&self) -> (r: Self)
        ensures
            r@ == self@,
    {
        Profile {
            identity: self.identity.clone(),
            role: self.role,
            name: match &self.name {
                Some(n) => Some(n.clone()),
                None => None,
            },
        }
    }
}

/// The session record: the current credential and the profile it resolved
/// to.  Both absent is the logged-out state; a profile is never present
/// without a credential.
pub struct Session {
    pub credential: Option<Credential>,
    pub profile: Option<Profile>,
}

/// Mathematical value of a `Session`.
pub struct SessionV {
    pub credential: Option<CredentialV>,
    pub profile: Option<ProfileV>,
}

/// View of an optional credential.
pub open spec fn opt_credential_view(c: Option<Credential>) -> Option<CredentialV> {
    match c {
        Some(c) => Some(c@),
        None => None,
    }
}

/// View of an optional profile.
pub open spec fn opt_profile_view(p: Option<Profile>) -> Option<ProfileV> {
    match p {
        Some(p) => Some(p@),
        None => None,
    }
}

impl View for Session {
    type V = SessionV;

    open spec fn view(&self) -> SessionV {
        SessionV {
            credential: opt_credential_view(self.credential),
            profile: opt_profile_view(self.profile),
        }
    }
}

impl SessionV {
    /// The session invariant: a profile is only ever present together with
    /// the credential that produced it, and both components are well formed.
    pub open spec fn wf(self) -> bool {
        &&& self.profile is Some ==> self.credential is Some
        &&& self.credential matches Some(c) ==> c.wf()
        &&& self.profile matches Some(p) ==> p.wf()
    }

    /// A viewer is logged in when both the credential and the resolved
    /// profile are present.
    pub open spec fn logged_in(self) -> bool {
        self.credential is Some && self.profile is Some
    }

    /// The logged-out session value.
    pub open spec fn logged_out_spec() -> SessionV {
        SessionV { credential: None, profile: None }
    }
}

impl Session {
    pub open spec fn wf(self) -> bool {
        self@.wf()
    }

    /// The default, logged-out session: no credential, no profile.
    pub fn logged_out() -> (s: Session)
        ensures
            s@ == SessionV::logged_out_spec(),
            s.wf(),
    {
        Session { credential: None, profile: None }
    }
}

impl Default for Session {
    fn default() -> (s: Session)
        ensures
            s@ == SessionV::logged_out_spec(),
            s.wf(),
    {
        Session::logged_out()
    }
}

impl Clone for Session {
    fn clone(&self) -> (r: Self)
        ensures
            r@ == self@,
    {
        Session {
            credential: match &self.credential {
                Some(c) => Some(c.clone()),
                None => None,
            },
            profile: match &self.profile {
                Some(p) => Some(p.clone()),
                None => None,
            },
        }
    }
}

} // verus!
