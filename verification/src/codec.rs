//! The persisted session record format.
//!
//! A session survives reloads as one storage value.  The record is a
//! character string: every byte of the session is carried as the character
//! with that code point, lengths are fixed-width base-256 numbers, and
//! one-character markers separate the optional parts.  Decoding is strict —
//! any malformed record yields nothing, so a corrupt store behaves exactly
//! like an empty one — and decoding is proved to invert encoding.

use vstd::prelude::*;
use vstd::arithmetic::div_mod::lemma_fundamental_div_mod;
use vstd::string::StrSliceExecFns;
use crate::model::Role;
use crate::model::Credential;
use crate::model::CredentialV;
use crate::model::Identity;
use crate::model::Profile;
use crate::model::ProfileV;
use crate::model::Session;
use crate::model::SessionV;
use crate::model::IDENTITY_LEN;
use crate::model::SIGNATURE_LEN;

verus! {

/// Width in characters of every encoded length field.
pub const LEN_DIGITS: usize = 8;

/// The character carrying one byte of the record.
pub open spec fn byte_char(b: u8) -> char {
    b as char
}

/// The byte a record character stands for, if its code point fits one.
pub open spec fn char_byte(c: char) -> Option<u8> {
    if (c as int) < 256 {
        Some(c as u8)
    } else {
        None
    }
}

pub open spec fn pow256(d: nat) -> int
    decreases d,
{
    if d == 0 {
        1
    } else {
        256 * pow256((d - 1) as nat)
    }
}

/// A number as `d` record characters, least significant first.
pub open spec fn num_chars(v: int, d: nat) -> Seq<char>
    decreases d,
{
    if d == 0 {
        Seq::empty()
    } else {
        seq![byte_char((v % 256) as u8)] + num_chars(v / 256, (d - 1) as nat)
    }
}

/// Reads back a number of `d` record characters.
pub open spec fn dec_num(cs: Seq<char>, d: nat) -> Option<int>
    decreases d,
{
    if d == 0 {
        Some(0)
    } else if cs.len() == 0 {
        None
    } else {
        match char_byte(cs[0]) {
            Some(b) => match dec_num(cs.drop_first(), (d - 1) as nat) {
                Some(r) => Some(b + 256 * r),
                None => None,
            },
            None => None,
        }
    }
}

pub open spec fn enc_len(n: int) -> Seq<char> {
    num_chars(n, LEN_DIGITS as nat)
}

pub open spec fn dec_len(cs: Seq<char>) -> Option<(int, Seq<char>)> {
    match dec_num(cs, LEN_DIGITS as nat) {
        Some(v) => Some((v, cs.skip(LEN_DIGITS as int))),
        None => None,
    }
}

/// Bytes carried verbatim, one character each.
pub open spec fn raw_chars(b: Seq<u8>) -> Seq<char> {
    Seq::new(b.len(), |i: int| byte_char(b[i]))
}

pub open spec fn all_byte_chars(cs: Seq<char>) -> bool {
    forall|i: int| 0 <= i < cs.len() ==> ((#[trigger] cs[i]) as int) < 256
}

pub open spec fn chars_bytes(cs: Seq<char>) -> Seq<u8> {
    Seq::new(cs.len(), |i: int| cs[i] as u8)
}

pub open spec fn enc_bytes(b: Seq<u8>) -> Seq<char> {
    enc_len(b.len() as int) + raw_chars(b)
}

pub open spec fn dec_bytes(cs: Seq<char>) -> Option<(Seq<u8>, Seq<char>)> {
    match dec_len(cs) {
        Some((n, rest)) => if 0 <= n <= rest.len() && all_byte_chars(rest.take(n)) {
            Some((chars_bytes(rest.take(n)), rest.skip(n)))
        } else {
            None
        },
        None => None,
    }
}

/// Text carried verbatim behind its length.
pub open spec fn enc_chars(s: Seq<char>) -> Seq<char> {
    enc_len(s.len() as int) + s
}

pub open spec fn dec_chars(cs: Seq<char>) -> Option<(Seq<char>, Seq<char>)> {
    match dec_len(cs) {
        Some((n, rest)) => if 0 <= n <= rest.len() {
            Some((rest.take(n), rest.skip(n)))
        } else {
            None
        },
        None => None,
    }
}

pub open spec fn role_char(r: Role) -> char {
    match r {
        Role::Root => 'r',
        Role::Admin => 'a',
        Role::User => 'u',
        Role::Unauthenticated => 'g',
    }
}

pub open spec fn role_of_char(c: char) -> Option<Role> {
    if c == 'r' {
        Some(Role::Root)
    } else if c == 'a' {
        Some(Role::Admin)
    } else if c == 'u' {
        Some(Role::User)
    } else if c == 'g' {
        Some(Role::Unauthenticated)
    } else {
        None
    }
}

pub open spec fn enc_credential(c: CredentialV) -> Seq<char> {
    enc_bytes(c.identity) + enc_chars(c.challenge) + enc_bytes(c.signature)
}

pub open spec fn dec_credential(cs: Seq<char>) -> Option<(CredentialV, Seq<char>)> {
    match dec_bytes(cs) {
        Some((identity, r1)) => if identity.len() == IDENTITY_LEN {
            match dec_chars(r1) {
                Some((challenge, r2)) => match dec_bytes(r2) {
                    Some((signature, r3)) => if signature.len() == SIGNATURE_LEN {
                        Some((CredentialV { identity, challenge, signature }, r3))
                    } else {
                        None
                    },
                    None => None,
                },
                None => None,
            }
        } else {
            None
        },
        None => None,
    }
}

pub open spec fn enc_name(name: Option<Seq<char>>) -> Seq<char> {
    match name {
        None => seq!['-'],
        Some(n) => seq!['N'] + enc_chars(n),
    }
}

pub open spec fn dec_name(cs: Seq<char>) -> Option<(Option<Seq<char>>, Seq<char>)> {
    if cs.len() == 0 {
        None
    } else if cs[0] == '-' {
        Some((None, cs.skip(1)))
    } else if cs[0] == 'N' {
        match dec_chars(cs.skip(1)) {
            Some((n, rest)) => Some((Some(n), rest)),
            None => None,
        }
    } else {
        None
    }
}

pub open spec fn enc_profile(p: ProfileV) -> Seq<char> {
    enc_bytes(p.identity) + seq![role_char(p.role)] + enc_name(p.name)
}

pub open spec fn dec_profile(cs: Seq<char>) -> Option<(ProfileV, Seq<char>)> {
    match dec_bytes(cs) {
        Some((identity, r1)) => if identity.len() == IDENTITY_LEN && r1.len() > 0 {
            match role_of_char(r1[0]) {
                Some(role) => match dec_name(r1.skip(1)) {
                    Some((name, r2)) => Some((ProfileV { identity, role, name }, r2)),
                    None => None,
                },
                None => None,
            }
        } else {
            None
        },
        None => None,
    }
}

pub open spec fn encode_session_spec(s: SessionV) -> Seq<char> {
    (match s.credential {
        None => seq!['-'],
        Some(c) => seq!['C'] + enc_credential(c),
    }) + (match s.profile {
        None => seq!['-'],
        Some(p) => seq!['P'] + enc_profile(p),
    })
}

pub open spec fn dec_credential_part(cs: Seq<char>) -> Option<(Option<CredentialV>, Seq<char>)> {
    if cs.len() == 0 {
        None
    } else if cs[0] == '-' {
        Some((None, cs.skip(1)))
    } else if cs[0] == 'C' {
        match dec_credential(cs.skip(1)) {
            Some((c, rest)) => Some((Some(c), rest)),
            None => None,
        }
    } else {
        None
    }
}

pub open spec fn dec_profile_part(cs: Seq<char>) -> Option<(Option<ProfileV>, Seq<char>)> {
    if cs.len() == 0 {
        None
    } else if cs[0] == '-' {
        Some((None, cs.skip(1)))
    } else if cs[0] == 'P' {
        match dec_profile(cs.skip(1)) {
            Some((p, rest)) => Some((Some(p), rest)),
            None => None,
        }
    } else {
        None
    }
}

/// The strict record parser: the whole input must be one well-formed
/// record, and the decoded session must satisfy the session invariant.
pub open spec fn decode_session_spec(cs: Seq<char>) -> Option<SessionV> {
    match dec_credential_part(cs) {
        Some((credential, r1)) => match dec_profile_part(r1) {
            Some((profile, r2)) => if r2.len() == 0 {
                let s = SessionV { credential, profile };
                if s.wf() {
                    Some(s)
                } else {
                    None
                }
            } else {
                None
            },
            None => None,
        },
        None => None,
    }
}

/// A session value small enough to encode: the invariant plus machine
/// bounds on the variable-length fields.
pub open spec fn encodable(s: SessionV) -> bool {
    &&& s.wf()
    &&& s.credential matches Some(c) ==> c.challenge.len() < pow256(LEN_DIGITS as nat)
    &&& s.profile matches Some(p) ==> (p.name matches Some(n) ==> n.len() < pow256(
        LEN_DIGITS as nat,
    ))
}

proof fn lemma_pow256_len_digits()
    ensures
        pow256(LEN_DIGITS as nat) == 0x1_0000_0000_0000_0000,
{
    assert(pow256(0) == 1);
    assert(pow256(1) == 256);
    assert(pow256(2) == 0x1_0000);
    assert(pow256(3) == 0x100_0000);
    assert(pow256(4) == 0x1_0000_0000);
    assert(pow256(5) == 0x100_0000_0000);
    assert(pow256(6) == 0x1_0000_0000_0000);
    assert(pow256(7) == 0x100_0000_0000_0000);
    assert(pow256(8) == 0x1_0000_0000_0000_0000);
}

proof fn lemma_num_chars_len(v: int, d: nat)
    ensures
        num_chars(v, d).len() == d,
    decreases d,
{
    if d > 0 {
        lemma_num_chars_len(v / 256, (d - 1) as nat);
    }
}

proof fn lemma_dec_num_roundtrip(v: int, d: nat, tail: Seq<char>)
    requires
        0 <= v < pow256(d),
    ensures
        dec_num(num_chars(v, d) + tail, d) == Some(v),
    decreases d,
{
    if d > 0 {
        let cs = num_chars(v, d) + tail;
        let b = (v % 256) as u8;
        lemma_fundamental_div_mod(v, 256);
        assert(cs[0] == byte_char(b));
        assert(char_byte(byte_char(b)) == Some(b));
        assert(cs.drop_first() =~= num_chars(v / 256, (d - 1) as nat) + tail);
        assert(0 <= v / 256 < pow256((d - 1) as nat)) by {
            assert(pow256(d) == 256 * pow256((d - 1) as nat));
        }
        lemma_dec_num_roundtrip(v / 256, (d - 1) as nat, tail);
    }
}

proof fn lemma_dec_num_bound(cs: Seq<char>, d: nat)
    ensures
        dec_num(cs, d) matches Some(r) ==> 0 <= r < pow256(d),
    decreases d,
{
    if d > 0 && cs.len() > 0 {
        lemma_dec_num_bound(cs.drop_first(), (d - 1) as nat);
    }
}

proof fn lemma_dec_len_enc(n: int, tail: Seq<char>)
    requires
        0 <= n < pow256(LEN_DIGITS as nat),
    ensures
        dec_len(enc_len(n) + tail) == Some((n, tail)),
{
    lemma_dec_num_roundtrip(n, LEN_DIGITS as nat, tail);
    lemma_num_chars_len(n, LEN_DIGITS as nat);
    assert((enc_len(n) + tail).skip(LEN_DIGITS as int) =~= tail);
}

proof fn lemma_raw_chars(b: Seq<u8>)
    ensures
        raw_chars(b).len() == b.len(),
        all_byte_chars(raw_chars(b)),
        chars_bytes(raw_chars(b)) == b,
{
    assert(chars_bytes(raw_chars(b)) =~= b);
}

proof fn lemma_dec_bytes_enc(b: Seq<u8>, tail: Seq<char>)
    requires
        b.len() < pow256(LEN_DIGITS as nat),
    ensures
        dec_bytes(enc_bytes(b) + tail) == Some((b, tail)),
{
    let n = b.len() as int;
    lemma_raw_chars(b);
    assert(enc_bytes(b) + tail =~= enc_len(n) + (raw_chars(b) + tail));
    lemma_dec_len_enc(n, raw_chars(b) + tail);
    assert((raw_chars(b) + tail).take(n) =~= raw_chars(b));
    assert((raw_chars(b) + tail).skip(n) =~= tail);
}

proof fn lemma_dec_chars_enc(s: Seq<char>, tail: Seq<char>)
    requires
        s.len() < pow256(LEN_DIGITS as nat),
    ensures
        dec_chars(enc_chars(s) + tail) == Some((s, tail)),
{
    let n = s.len() as int;
    assert(enc_chars(s) + tail =~= enc_len(n) + (s + tail));
    lemma_dec_len_enc(n, s + tail);
    assert((s + tail).take(n) =~= s);
    assert((s + tail).skip(n) =~= tail);
}

proof fn lemma_dec_credential_enc(c: CredentialV, tail: Seq<char>)
    requires
        c.wf(),
        c.challenge.len() < pow256(LEN_DIGITS as nat),
    ensures
        dec_credential(enc_credential(c) + tail) == Some((c, tail)),
{
    lemma_pow256_len_digits();
    let t1 = enc_chars(c.challenge) + (enc_bytes(c.signature) + tail);
    assert(enc_credential(c) + tail =~= enc_bytes(c.identity) + t1);
    lemma_dec_bytes_enc(c.identity, t1);
    lemma_dec_chars_enc(c.challenge, enc_bytes(c.signature) + tail);
    lemma_dec_bytes_enc(c.signature, tail);
    assert(CredentialV {
        identity: c.identity,
        challenge: c.challenge,
        signature: c.signature,
    } =~= c);
}

proof fn lemma_dec_name_enc(name: Option<Seq<char>>, tail: Seq<char>)
    requires
        name matches Some(n) ==> n.len() < pow256(LEN_DIGITS as nat),
    ensures
        dec_name(enc_name(name) + tail) == Some((name, tail)),
{
    match name {
        None => {
            assert((enc_name(name) + tail)[0] == '-');
            assert((enc_name(name) + tail).skip(1) =~= tail);
        },
        Some(n) => {
            let cs = enc_name(name) + tail;
            assert(cs[0] == 'N');
            assert(cs.skip(1) =~= enc_chars(n) + tail);
            lemma_dec_chars_enc(n, tail);
        },
    }
}

proof fn lemma_role_char_roundtrip(r: Role)
    ensures
        role_of_char(role_char(r)) == Some(r),
{
}

proof fn lemma_dec_profile_enc(p: ProfileV, tail: Seq<char>)
    requires
        p.wf(),
        p.name matches Some(n) ==> n.len() < pow256(LEN_DIGITS as nat),
    ensures
        dec_profile(enc_profile(p) + tail) == Some((p, tail)),
{
    lemma_pow256_len_digits();
    let t1 = seq![role_char(p.role)] + (enc_name(p.name) + tail);
    assert(enc_profile(p) + tail =~= enc_bytes(p.identity) + t1);
    lemma_dec_bytes_enc(p.identity, t1);
    assert(t1[0] == role_char(p.role));
    lemma_role_char_roundtrip(p.role);
    assert(t1.skip(1) =~= enc_name(p.name) + tail);
    lemma_dec_name_enc(p.name, tail);
    assert(ProfileV { identity: p.identity, role: p.role, name: p.name } =~= p);
}

/// Decoding inverts encoding: any encodable session value comes back from
/// its own record unchanged.  This is what lets a committed session survive
/// a reload through the store.
pub proof fn lemma_decode_encode(v: SessionV)
    requires
        encodable(v),
    ensures
        decode_session_spec(encode_session_spec(v)) == Some(v),
{
    lemma_pow256_len_digits();
    let full = encode_session_spec(v);
    let profile_part = match v.profile {
        None => seq!['-'],
        Some(p) => seq!['P'] + enc_profile(p),
    };
    match v.credential {
        None => {
            assert(full[0] == '-');
            assert(full.skip(1) =~= profile_part);
            assert(dec_credential_part(full) == Some((
                Option::<CredentialV>::None,
                profile_part,
            )));
        },
        Some(c) => {
            assert(full[0] == 'C');
            assert(full.skip(1) =~= enc_credential(c) + profile_part);
            lemma_dec_credential_enc(c, profile_part);
            assert(dec_credential_part(full) == Some((Some(c), profile_part)));
        },
    }
    match v.profile {
        None => {
            assert(profile_part[0] == '-');
            assert(profile_part.skip(1) =~= Seq::<char>::empty());
        },
        Some(p) => {
            assert(profile_part[0] == 'P');
            assert(profile_part.skip(1) =~= enc_profile(p) + Seq::<char>::empty());
            lemma_dec_profile_enc(p, Seq::<char>::empty());
            assert(dec_profile_part(profile_part) == Some((
                Some(p),
                Seq::<char>::empty(),
            )));
        },
    }
    assert(SessionV { credential: v.credential, profile: v.profile } =~= v);
}

/// Relies on std's String::push, which appends the given character.
#[verifier::external_body]
fn string_push(s: &mut String, c: char)
    ensures
        final(s)@ == old(s)@.push(c),
{
    s.push(c);
}

fn role_char_of(r: &Role) -> (c: char)
    ensures
        c == role_char(*r),
{
    match r {
        Role::Root => 'r',
        Role::Admin => 'a',
        Role::User => 'u',
        Role::Unauthenticated => 'g',
    }
}

fn push_num(out: &mut String, n: u64)
    ensures
        final(out)@ == old(out)@ + enc_len(n as int),
{
    let mut cur: u64 = n;
    let mut k: usize = 0;
    while k < LEN_DIGITS
        invariant
            k <= LEN_DIGITS,
            out@ + num_chars(cur as int, (LEN_DIGITS - k) as nat) == old(out)@ + enc_len(
                n as int,
            ),
        decreases LEN_DIGITS - k,
    {
        let ghost before = out@;
        let ghost d = (LEN_DIGITS - k) as nat;
        let b = (cur % 256) as u8;
        string_push(out, b as char);
        proof {
            assert(num_chars(cur as int, d) == seq![byte_char(b)] + num_chars(
                cur as int / 256,
                (d - 1) as nat,
            ));
            assert(out@ + num_chars(cur as int / 256, (d - 1) as nat) =~= before + num_chars(
                cur as int,
                d,
            ));
        }
        cur = cur / 256;
        k = k + 1;
    }
    proof {
        assert(out@ + num_chars(cur as int, 0) =~= out@);
    }
}

fn push_bytes(out: &mut String, b: &Vec<u8>)
    ensures
        final(out)@ == old(out)@ + enc_bytes(b@),
{
    push_num(out, b.len() as u64);
    let n = b.len();
    let mut i: usize = 0;
    while i < n
        invariant
            n == b.len(),
            i <= n,
            out@ == old(out)@ + enc_len(b@.len() as int) + raw_chars(b@.take(i as int)),
        decreases n - i,
    {
        let ghost before = out@;
        let c = b[i] as char;
        string_push(out, c);
        proof {
            assert(raw_chars(b@.take(i as int + 1)) =~= raw_chars(b@.take(i as int)).push(
                byte_char(b@[i as int]),
            ));
            assert(out@ =~= old(out)@ + enc_len(b@.len() as int) + raw_chars(
                b@.take(i as int + 1),
            ));
        }
        i = i + 1;
    }
    proof {
        assert(b@.take(n as int) =~= b@);
        assert(out@ =~= old(out)@ + enc_bytes(b@));
    }
}

fn push_chars(out: &mut String, s: &String)
    ensures
        final(out)@ == old(out)@ + enc_chars(s@),
        s@.len() <= usize::MAX,
{
    let n = s.as_str().unicode_len();
    push_num(out, n as u64);
    let mut i: usize = 0;
    while i < n
        invariant
            n == s@.len(),
            i <= n,
            out@ == old(out)@ + enc_len(s@.len() as int) + s@.take(i as int),
        decreases n - i,
    {
        let c = s.as_str().get_char(i);
        string_push(out, c);
        proof {
            assert(s@.take(i as int + 1) =~= s@.take(i as int).push(s@[i as int]));
            assert(out@ =~= old(out)@ + enc_len(s@.len() as int) + s@.take(i as int + 1));
        }
        i = i + 1;
    }
    proof {
        assert(s@.take(n as int) =~= s@);
        assert(out@ =~= old(out)@ + enc_chars(s@));
    }
}

/// Writes a session as its persisted record.  The record is proved to
/// decode back to the very session it was written from.
pub fn encode_session(s: &Session) -> (r: String)
    requires
        s.wf(),
    ensures
        r@ == encode_session_spec(s@),
        decode_session_spec(r@) == Some(s@),
{
    let mut out = String::new();
    match &s.credential {
        None => {
            string_push(&mut out, '-');
            proof {
                assert(out@ =~= seq!['-']);
            }
        },
        Some(c) => {
            string_push(&mut out, 'C');
            push_bytes(&mut out, c.identity.as_bytes());
            push_chars(&mut out, &c.challenge);
            push_bytes(&mut out, &c.signature);
            proof {
                assert(out@ =~= seq!['C'] + enc_credential(c@));
            }
        },
    }
    let ghost cred_part = out@;
    proof {
        assert(cred_part == match s@.credential {
            None => seq!['-'],
            Some(c) => seq!['C'] + enc_credential(c),
        });
    }
    match &s.profile {
        None => {
            string_push(&mut out, '-');
            proof {
                assert(out@ =~= cred_part + seq!['-']);
            }
        },
        Some(p) => {
            string_push(&mut out, 'P');
            push_bytes(&mut out, p.identity.as_bytes());
            let rc = role_char_of(&p.role);
            string_push(&mut out, rc);
            match &p.name {
                None => {
                    string_push(&mut out, '-');
                },
                Some(nm) => {
                    string_push(&mut out, 'N');
                    push_chars(&mut out, nm);
                },
            }
            proof {
                assert(out@ =~= cred_part + (seq!['P'] + enc_profile(p@)));
            }
        },
    }
    proof {
        assert(out@ =~= encode_session_spec(s@));
        assert(encodable(s@)) by {
            lemma_pow256_len_digits();
        }
        lemma_decode_encode(s@);
    }
    out
}

proof fn lemma_pow256_pos(d: nat)
    ensures
        pow256(d) >= 1,
    decreases d,
{
    if d > 0 {
        lemma_pow256_pos((d - 1) as nat);
    }
}

proof fn lemma_pow256_monotonic(a: nat, b: nat)
    requires
        a <= b,
    ensures
        pow256(a) <= pow256(b),
    decreases b,
{
    if a < b {
        lemma_pow256_monotonic(a, (b - 1) as nat);
        lemma_pow256_pos((b - 1) as nat);
    }
}

proof fn lemma_dec_num_short(cs: Seq<char>, d: nat)
    requires
        cs.len() < d,
    ensures
        dec_num(cs, d) is None,
    decreases d,
{
    if d > 0 && cs.len() > 0 {
        lemma_dec_num_short(cs.drop_first(), (d - 1) as nat);
    }
}

proof fn lemma_dec_num_invalid(cs: Seq<char>, d: nat, j: int)
    requires
        0 <= j < d,
        j < cs.len(),
        char_byte(cs[j]) is None,
    ensures
        dec_num(cs, d) is None,
    decreases d,
{
    if j > 0 && char_byte(cs[0]) is Some {
        lemma_dec_num_invalid(cs.drop_first(), (d - 1) as nat, j - 1);
    }
}

fn read_num(s: &str, pos: usize) -> (r: Option<(u64, usize)>)
    requires
        pos <= s@.len(),
    ensures
        r matches Some((v, p2)) ==> dec_num(s@.skip(pos as int), LEN_DIGITS as nat) == Some(
            v as int,
        ) && p2 == pos + LEN_DIGITS && p2 <= s@.len(),
        r is None ==> dec_num(s@.skip(pos as int), LEN_DIGITS as nat) is None,
{
    let total = s.unicode_len();
    if total - pos < LEN_DIGITS {
        proof {
            lemma_dec_num_short(s@.skip(pos as int), LEN_DIGITS as nat);
        }
        return None;
    }
    let mut value: u64 = 0;
    let mut i: usize = LEN_DIGITS;
    while i > 0
        invariant
            pos + LEN_DIGITS <= s@.len(),
            s@.len() <= usize::MAX,
            i <= LEN_DIGITS,
            dec_num(s@.skip(pos as int + i as int), (LEN_DIGITS - i) as nat) == Some(
                value as int,
            ),
            value < pow256((LEN_DIGITS - i) as nat),
        decreases i,
    {
        i = i - 1;
        let c = s.get_char(pos + i);
        let cp = c as u32;
        if cp >= 256 {
            proof {
                assert(s@.skip(pos as int)[i as int] == s@[pos as int + i as int]);
                lemma_dec_num_invalid(s@.skip(pos as int), LEN_DIGITS as nat, i as int);
            }
            return None;
        }
        let b = cp as u8;
        proof {
            lemma_pow256_len_digits();
            lemma_pow256_monotonic((LEN_DIGITS - i - 1) as nat, 7);
            assert(pow256(7) == 0x100_0000_0000_0000) by {
                assert(pow256(0) == 1);
                assert(pow256(1) == 256);
                assert(pow256(2) == 0x1_0000);
                assert(pow256(3) == 0x100_0000);
                assert(pow256(4) == 0x1_0000_0000);
                assert(pow256(5) == 0x100_0000_0000);
                assert(pow256(6) == 0x1_0000_0000_0000);
                assert(pow256(7) == 0x100_0000_0000_0000);
            }
        }
        let new_value: u64 = value * 256 + (b as u64);
        proof {
            let cs = s@.skip(pos as int + i as int);
            assert(cs.len() > 0);
            assert(cs[0] == s@[pos as int + i as int]);
            assert(char_byte(cs[0]) == Some(b));
            assert(cs.drop_first() =~= s@.skip(pos as int + i as int + 1));
            assert(dec_num(cs, (LEN_DIGITS - i) as nat) == Some(b + 256 * (value as int)));
            assert(pow256((LEN_DIGITS - i) as nat) == 256 * pow256((LEN_DIGITS - i - 1) as nat));
        }
        value = new_value;
    }
    proof {
        assert(s@.skip(pos as int + 0) =~= s@.skip(pos as int));
    }
    Some((value, pos + LEN_DIGITS))
}

fn read_bytes(s: &str, pos: usize) -> (r: Option<(Vec<u8>, usize)>)
    requires
        pos <= s@.len(),
    ensures
        r matches Some((b, p2)) ==> dec_bytes(s@.skip(pos as int)) == Some((
            b@,
            s@.skip(p2 as int),
        )) && pos <= p2 <= s@.len(),
        r is None ==> dec_bytes(s@.skip(pos as int)) is None,
{
    let ghost cs = s@.skip(pos as int);
    let nvp = read_num(s, pos);
    match nvp {
        None => {
            return None;
        },
        Some((nv, p1)) => {
            proof {
                lemma_dec_num_bound(cs, LEN_DIGITS as nat);
                lemma_pow256_len_digits();
                assert(cs.skip(LEN_DIGITS as int) =~= s@.skip(p1 as int));
            }
            let ghost rest = s@.skip(p1 as int);
            let total = s.unicode_len();
            if nv > (total - p1) as u64 {
                return None;
            }
            let n = nv as usize;
            let mut acc: Vec<u8> = Vec::new();
            let mut j: usize = 0;
            while j < n
                invariant
                    s@.len() <= usize::MAX,
                    p1 + n <= s@.len(),
                    nv as int == n as int,
                    j <= n,
                    pos <= s@.len(),
                    cs == s@.skip(pos as int),
                    rest == s@.skip(p1 as int),
                    dec_len(cs) == Some((nv as int, rest)),
                    acc@.len() == j,
                    forall|k: int| 0 <= k < j ==> (((#[trigger] s@[p1 + k]) as int) < 256),
                    forall|k: int| 0 <= k < j ==> acc@[k] == (#[trigger] s@[p1 + k]) as u8,
                decreases n - j,
            {
                let c = s.get_char(p1 + j);
                let cp = c as u32;
                if cp >= 256 {
                    proof {
                        assert(rest.take(nv as int)[j as int] == s@[p1 as int + j as int]);
                        assert(!all_byte_chars(rest.take(nv as int)));
                    }
                    return None;
                }
                acc.push(cp as u8);
                j = j + 1;
            }
            proof {
                assert forall|k: int| 0 <= k < nv as int implies ((#[trigger] rest.take(
                    nv as int,
                )[k]) as int) < 256 by {
                    assert(rest.take(nv as int)[k] == s@[p1 + k]);
                }
                assert(all_byte_chars(rest.take(nv as int)));
                assert forall|k: int| 0 <= k < nv as int implies chars_bytes(
                    rest.take(nv as int),
                )[k] == acc@[k] by {
                    assert(rest.take(nv as int)[k] == s@[p1 + k]);
                }
                assert(chars_bytes(rest.take(nv as int)) =~= acc@);
                assert(rest.skip(nv as int) =~= s@.skip(p1 as int + n as int));
            }
            Some((acc, p1 + n))
        },
    }
}

fn read_chars(s: &str, pos: usize) -> (r: Option<(String, usize)>)
    requires
        pos <= s@.len(),
    ensures
        r matches Some((t, p2)) ==> dec_chars(s@.skip(pos as int)) == Some((
            t@,
            s@.skip(p2 as int),
        )) && pos <= p2 <= s@.len(),
        r is None ==> dec_chars(s@.skip(pos as int)) is None,
{
    let ghost cs = s@.skip(pos as int);
    let nvp = read_num(s, pos);
    match nvp {
        None => {
            return None;
        },
        Some((nv, p1)) => {
            proof {
                lemma_dec_num_bound(cs, LEN_DIGITS as nat);
                lemma_pow256_len_digits();
                assert(cs.skip(LEN_DIGITS as int) =~= s@.skip(p1 as int));
            }
            let ghost rest = s@.skip(p1 as int);
            let total = s.unicode_len();
            if nv > (total - p1) as u64 {
                return None;
            }
            let n = nv as usize;
            let mut acc = String::new();
            let mut j: usize = 0;
            while j < n
                invariant
                    s@.len() <= usize::MAX,
                    p1 + n <= s@.len(),
                    nv as int == n as int,
                    j <= n,
                    rest == s@.skip(p1 as int),
                    acc@.len() == j,
                    forall|k: int| 0 <= k < j ==> acc@[k] == (#[trigger] s@[p1 + k]),
                decreases n - j,
            {
                let c = s.get_char(p1 + j);
                string_push(&mut acc, c);
                j = j + 1;
            }
            proof {
                assert forall|k: int| 0 <= k < nv as int implies acc@[k] == rest.take(
                    nv as int,
                )[k] by {
                    assert(rest.take(nv as int)[k] == s@[p1 + k]);
                }
                assert(acc@ =~= rest.take(nv as int));
                assert(rest.skip(nv as int) =~= s@.skip(p1 as int + n as int));
            }
            Some((acc, p1 + n))
        },
    }
}

fn role_of_char_exec(c: char) -> (r: Option<Role>)
    ensures
        r == role_of_char(c),
{
    if c == 'r' {
        Some(Role::Root)
    } else if c == 'a' {
        Some(Role::Admin)
    } else if c == 'u' {
        Some(Role::User)
    } else if c == 'g' {
        Some(Role::Unauthenticated)
    } else {
        None
    }
}

/// Reads a persisted record back into a session.  Any malformation — wrong
/// lengths, unknown markers, trailing content, or a profile without a
/// credential — yields `None`, so a corrupt record behaves exactly like a
/// missing one.
#[verifier::rlimit(40)]
#[verifier::spinoff_prover]
pub fn decode_session(text: &str) -> (r: Option<Session>)
    ensures
        r matches Some(sess) ==> decode_session_spec(text@) == Some(sess@) && sess.wf(),
        r is None ==> decode_session_spec(text@) is None,
{
    let total = text.unicode_len();
    if total == 0 {
        return None;
    }
    let c0 = text.get_char(0);
    let credential: Option<Credential>;
    let cred_end: usize;
    if c0 == '-' {
        credential = None;
        cred_end = 1;
    } else if c0 == 'C' {
        match read_bytes(text, 1) {
            None => {
                return None;
            },
            Some((idb, p1)) => {
                match Identity::from_bytes(idb) {
                    None => {
                        return None;
                    },
                    Some(identity) => {
                        match read_chars(text, p1) {
                            None => {
                                return None;
                            },
                            Some((challenge, p2)) => {
                                match read_bytes(text, p2) {
                                    None => {
                                        return None;
                                    },
                                    Some((signature, p3)) => {
                                        if signature.len() != SIGNATURE_LEN {
                                            return None;
                                        }
                                        credential = Some(
                                            Credential { identity, challenge, signature },
                                        );
                                        cred_end = p3;
                                    },
                                }
                            },
                        }
                    },
                }
            },
        }
    } else {
        return None;
    }
    proof {
        assert(dec_credential_part(text@) == Some((
            crate::model::opt_credential_view(credential),
            text@.skip(cred_end as int),
        )));
    }
    let ghost r1 = text@.skip(cred_end as int);
    if cred_end == total {
        proof {
            assert(r1 =~= Seq::<char>::empty());
        }
        return None;
    }
    let c1 = text.get_char(cred_end);
    proof {
        assert(r1[0] == text@[cred_end as int]);
    }
    let profile: Option<Profile>;
    let prof_end: usize;
    if c1 == '-' {
        profile = None;
        prof_end = cred_end + 1;
        proof {
            assert(r1.skip(1) =~= text@.skip(prof_end as int));
        }
    } else if c1 == 'P' {
        proof {
            assert(r1.skip(1) =~= text@.skip(cred_end as int + 1));
        }
        match read_bytes(text, cred_end + 1) {
            None => {
                return None;
            },
            Some((idb2, q1)) => {
                match Identity::from_bytes(idb2) {
                    None => {
                        return None;
                    },
                    Some(pidentity) => {
                        let ghost pr1 = text@.skip(q1 as int);
                        if q1 == total {
                            proof {
                                assert(pr1 =~= Seq::<char>::empty());
                            }
                            return None;
                        }
                        let rc = text.get_char(q1);
                        proof {
                            assert(pr1[0] == text@[q1 as int]);
                        }
                        match role_of_char_exec(rc) {
                            None => {
                                return None;
                            },
                            Some(prole) => {
                                proof {
                                    assert(pr1.skip(1) =~= text@.skip(q1 as int + 1));
                                }
                                if q1 + 1 == total {
                                    proof {
                                        assert(pr1.skip(1) =~= Seq::<char>::empty());
                                    }
                                    return None;
                                }
                                let c3 = text.get_char(q1 + 1);
                                proof {
                                    assert(pr1.skip(1)[0] == text@[q1 as int + 1]);
                                }
                                if c3 == '-' {
                                    profile = Some(
                                        Profile { identity: pidentity, role: prole, name: None },
                                    );
                                    prof_end = q1 + 2;
                                    proof {
                                        assert(pr1.skip(1).skip(1) =~= text@.skip(
                                            prof_end as int,
                                        ));
                                    }
                                } else if c3 == 'N' {
                                    proof {
                                        assert(pr1.skip(1).skip(1) =~= text@.skip(
                                            q1 as int + 2,
                                        ));
                                    }
                                    match read_chars(text, q1 + 2) {
                                        None => {
                                            return None;
                                        },
                                        Some((nm, q2)) => {
                                            profile = Some(
                                                Profile {
                                                    identity: pidentity,
                                                    role: prole,
                                                    name: Some(nm),
                                                },
                                            );
                                            prof_end = q2;
                                        },
                                    }
                                } else {
                                    return None;
                                }
                            },
                        }
                    },
                }
            },
        }
    } else {
        return None;
    }
    proof {
        assert(dec_profile_part(r1) == Some((
            crate::model::opt_profile_view(profile),
            text@.skip(prof_end as int),
        )));
    }
    if prof_end != total {
        return None;
    }
    proof {
        assert(text@.skip(prof_end as int) =~= Seq::<char>::empty());
    }
    if profile.is_some() && credential.is_none() {
        return None;
    }
    let sess = Session { credential, profile };
    proof {
        assert(decode_session_spec(text@) == Some(sess@));
    }
    Some(sess)
}

} // verus!
