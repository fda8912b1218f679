//! The capability record: an immutable-once-issued authorization grant with
//! a path scope, a permission bitmask, an absolute expiration instant, an
//! owning principal and an optional keyed signature, together with its wire
//! token codec and the HMAC signing and verification of its content.

use vstd::prelude::*;
use vstd::string::StrSliceExecFns;
use vstd::string::StringExecFns;
use crate::GnosError;
use crate::crypto::b64_decode;
use crate::crypto::b64_encode;
use crate::crypto::b64_of;
use crate::crypto::hmac_check;
use crate::crypto::hmac_sig;
use crate::crypto::hmac_sign;
use crate::path::scope_contains;
use crate::path::path_contains;
use crate::text::all_nibs;
use crate::text::hex_extend;
use crate::text::hex_str;
use crate::text::hex_value;
use crate::text::parse_hex;
use crate::text::push_char;

verus! {

/// The operations a capability can gate. Listing is an alias of reading.
#[derive(Debug, Clone, Copy, PartialEq, Eq, Structural)]
pub enum Operation {
    Read,
    Write,
    Execute,
    List,
}

impl Operation {
    /// The permission bit the operation is gated by; a List is gated exactly
    /// as a Read.
    pub open spec fn bit(self) -> u8 {
        match self {
            Operation::Read => 0b100,
            Operation::Write => 0b010,
            Operation::Execute => 0b001,
            Operation::List => 0b100,
        }
    }

    /// The exec counterpart of [`Operation::bit`].
    pub fn to_bit(&self) -> (b: u8)
        ensures
            b == self.bit(),
    {
        match self {
            Operation::Read => 0b100,
            Operation::Write => 0b010,
            Operation::Execute => 0b001,
            Operation::List => 0b100,
        }
    }
}

/// Bound on the character count of each textual field of a capability, so
/// that the wire payload and the signing input stay within the input limits
/// of the outside encoding calls.
pub const FIELD_LIMIT: u64 = 0x100_0000;

/// The mathematical content of a capability: its fields with every string
/// taken as its character sequence.
#[verifier::ext_equal]
pub ghost struct CapData {
    pub path: Seq<char>,
    pub permissions: u8,
    pub expiration: u64,
    pub owner: Seq<char>,
    pub issued_at: u64,
    pub signature: Option<Seq<char>>,
}

impl CapData {
    /// Whether the operation's bit is set in the permission mask.
    pub open spec fn allows_op(self, operation: Operation) -> bool {
        self.permissions & operation.bit() != 0
    }

    /// Whether every textual field is small enough for the wire codec and
    /// the signing input.
    pub open spec fn fits(self) -> bool {
        &&& self.path.len() <= FIELD_LIMIT
        &&& self.owner.len() <= FIELD_LIMIT
        &&& match self.signature {
            Some(s) => s.len() <= FIELD_LIMIT,
            None => true,
        }
    }
}

/// A path-scoped, time-limited authorization record. Never mutated after
/// signing; discarded on expiry or explicit revocation.
#[derive(Debug, PartialEq, Eq)]
pub struct Capability {
    pub path: String,
    pub permissions: u8,
    pub expiration: u64,
    pub owner: String,
    pub issued_at: u64,
    pub signature: Option<String>,
}

impl View for Capability {
    type V = CapData;

    open spec fn view(&self) -> CapData {
        CapData {
            path: self.path@,
            permissions: self.permissions,
            expiration: self.expiration,
            owner: self.owner@,
            issued_at: self.issued_at,
            signature: match self.signature {
                Some(s) => Some(s@),
                None => None,
            },
        }
    }
}

impl Clone for Capability {
    fn clone(&self) -> (r: Self)
        ensures
            r == *self,
    {
        Capability {
            path: self.path.clone(),
            permissions: self.permissions,
            expiration: self.expiration,
            owner: self.owner.clone(),
            issued_at: self.issued_at,
            signature: match &self.signature {
                Some(s) => Some(s.clone()),
                None => None,
            },
        }
    }
}

impl Capability {
    /// A fresh, unsigned capability issued at `now` and expiring `duration`
    /// seconds later.
    pub fn new(path: String, permissions: u8, owner: String, duration: u64, now: u64) -> (r: Self)
        requires
            now + duration <= u64::MAX,
        ensures
            r@ == (CapData {
                path: path@,
                permissions: permissions,
                expiration: (now + duration) as u64,
                owner: owner@,
                issued_at: now,
                signature: None,
            }),
    {
        Capability {
            path,
            permissions,
            expiration: now + duration,
            owner,
            issued_at: now,
            signature: None,
        }
    }

    /// Whether the operation's bit is set in the permission mask.
    pub open spec fn spec_allows(self, operation: Operation) -> bool {
        self.permissions & operation.bit() != 0
    }

    /// True exactly when the operation's bit is set; a List is allowed
    /// exactly when a Read is.
    pub fn allows(&self, operation: Operation) -> (r: bool)
        ensures
            r == self.spec_allows(operation),
    {
        self.permissions & operation.to_bit() != 0
    }

    /// True exactly when `now` is strictly after the expiration; a
    /// capability checked at its expiration instant is not yet expired.
    pub fn is_expired(&self, now: u64) -> (r: bool)
        ensures
            r == (now > self.expiration),
    {
        now > self.expiration
    }

    /// True exactly when the target path is the capability's scope or a
    /// descendant of it, by path-segment containment.
    pub fn is_valid_for_path(&self, target: &str) -> (r: bool)
        ensures
            r == scope_contains(self@.path, target@),
    {
        path_contains(self.path.as_str(), target)
    }
}

/// A List operation is gated exactly as a Read operation, on every
/// capability.
pub proof fn lemma_list_is_read(c: Capability)
    ensures
        c.spec_allows(Operation::List) == c.spec_allows(Operation::Read),
{
}

/// The self-describing wire payload of a capability: every string field is
/// length-prefixed, every number fixed-width hexadecimal, the optional
/// signature behind a one-character tag.
pub open spec fn payload_of(c: CapData) -> Seq<char> {
    hex_str(c.path.len() as int, 16) + c.path + hex_str(c.permissions as int, 2) + hex_str(
        c.expiration as int,
        16,
    ) + hex_str(c.owner.len() as int, 16) + c.owner + hex_str(c.issued_at as int, 16) + (match c
        .signature {
        None => seq!['0'],
        Some(s) => seq!['1'] + hex_str(s.len() as int, 16) + s,
    })
}

/// The fixed recognizable prefix every token carries.
pub open spec fn token_prefix() -> Seq<char> {
    seq!['g', 'n', 'o', 's', '.']
}

/// The wire token of a capability: the fixed prefix followed by the URL-safe
/// base64 form of the payload.
pub open spec fn spec_token(c: CapData) -> Seq<char> {
    token_prefix() + b64_of(payload_of(c))
}

pub open spec fn has_token_prefix(t: Seq<char>) -> bool {
    t.len() >= 5 && t.subrange(0, 5) == token_prefix()
}

/// What follows the prefix of a token.
pub open spec fn token_body(t: Seq<char>) -> Seq<char> {
    t.skip(5)
}

/// Whether the characters at `pos` form a hexadecimal field of width `w`.
pub open spec fn hex_at(s: Seq<char>, pos: int, w: int) -> bool {
    pos + w <= s.len() && all_nibs(s.subrange(pos, pos + w))
}

/// The number the hexadecimal field at `pos` of width `w` denotes.
pub open spec fn hex_num(s: Seq<char>, pos: int, w: int) -> int {
    hex_value(s.subrange(pos, pos + w))
}

/// The exact inverse of [`payload_of`]: `None` on any sequence that is not a
/// payload the encoder produces.
pub open spec fn parse_payload(s: Seq<char>) -> Option<CapData> {
    if !hex_at(s, 0, 16) {
        None
    } else {
        let plen = hex_num(s, 0, 16);
        if 16 + plen > s.len() || plen > FIELD_LIMIT as int {
            None
        } else {
            let path = s.subrange(16, 16 + plen);
            let p1 = 16 + plen;
            if !hex_at(s, p1, 2) {
                None
            } else {
                let permissions = hex_num(s, p1, 2) as u8;
                let p2 = p1 + 2;
                if !hex_at(s, p2, 16) {
                    None
                } else {
                    let expiration = hex_num(s, p2, 16) as u64;
                    let p3 = p2 + 16;
                    if !hex_at(s, p3, 16) {
                        None
                    } else {
                        let olen = hex_num(s, p3, 16);
                        let p4 = p3 + 16;
                        if p4 + olen > s.len() || olen > FIELD_LIMIT as int {
                            None
                        } else {
                            let owner = s.subrange(p4, p4 + olen);
                            let p5 = p4 + olen;
                            if !hex_at(s, p5, 16) {
                                None
                            } else {
                                let issued_at = hex_num(s, p5, 16) as u64;
                                let p6 = p5 + 16;
                                if p6 + 1 > s.len() {
                                    None
                                } else if s[p6] == '0' {
                                    if s.len() == p6 + 1 {
                                        Some(
                                            CapData {
                                                path,
                                                permissions,
                                                expiration,
                                                owner,
                                                issued_at,
                                                signature: None,
                                            },
                                        )
                                    } else {
                                        None
                                    }
                                } else if s[p6] == '1' {
                                    let p7 = p6 + 1;
                                    if !hex_at(s, p7, 16) {
                                        None
                                    } else {
                                        let slen = hex_num(s, p7, 16);
                                        let p8 = p7 + 16;
                                        if s.len() == p8 + slen && slen <= FIELD_LIMIT as int {
                                            Some(
                                                CapData {
                                                    path,
                                                    permissions,
                                                    expiration,
                                                    owner,
                                                    issued_at,
                                                    signature: Some(s.subrange(p8, p8 + slen)),
                                                },
                                            )
                                        } else {
                                            None
                                        }
                                    }
                                } else {
                                    None
                                }
                            }
                        }
                    }
                }
            }
        }
    }
}

/// The payload parser is the exact inverse of the payload encoder.
#[verifier::rlimit(60)]
pub proof fn lemma_payload_round_trip(c: CapData)
    requires
        c.fits(),
    ensures
        parse_payload(payload_of(c)) == Some(c),
{
    crate::text::lemma_pow16_values();
    let s = payload_of(c);
    let plen = c.path.len() as int;
    let olen = c.owner.len() as int;
    let a0 = hex_str(plen, 16);
    let a1 = c.path;
    let a2 = hex_str(c.permissions as int, 2);
    let a3 = hex_str(c.expiration as int, 16);
    let a4 = hex_str(olen, 16);
    let a5 = c.owner;
    let a6 = hex_str(c.issued_at as int, 16);
    let a7 = match c.signature {
        None => seq!['0'],
        Some(sig) => seq!['1'] + hex_str(sig.len() as int, 16) + sig,
    };
    crate::text::lemma_hex_str_len(plen, 16);
    crate::text::lemma_hex_str_len(c.permissions as int, 2);
    crate::text::lemma_hex_str_len(c.expiration as int, 16);
    crate::text::lemma_hex_str_len(olen, 16);
    crate::text::lemma_hex_str_len(c.issued_at as int, 16);
    crate::text::lemma_hex_str_nibs(plen, 16);
    crate::text::lemma_hex_str_nibs(c.permissions as int, 2);
    crate::text::lemma_hex_str_nibs(c.expiration as int, 16);
    crate::text::lemma_hex_str_nibs(olen, 16);
    crate::text::lemma_hex_str_nibs(c.issued_at as int, 16);
    crate::text::lemma_hex_round_trip(plen, 16);
    crate::text::lemma_hex_round_trip(c.permissions as int, 2);
    crate::text::lemma_hex_round_trip(c.expiration as int, 16);
    crate::text::lemma_hex_round_trip(olen, 16);
    crate::text::lemma_hex_round_trip(c.issued_at as int, 16);
    let p2 = 16 + plen;
    let p3 = p2 + 2;
    let p4 = p3 + 16;
    let p5 = p4 + 16;
    let p6 = p5 + olen;
    let p7 = p6 + 16;
    assert(s.subrange(0, 16) =~= a0);
    assert(s.subrange(16, p2) =~= a1);
    assert(s.subrange(p2, p3) =~= a2);
    assert(s.subrange(p3, p4) =~= a3);
    assert(s.subrange(p4, p5) =~= a4);
    assert(s.subrange(p5, p6) =~= a5);
    assert(s.subrange(p6, p7) =~= a6);
    match c.signature {
        None => {
            assert(s[p7] == '0');
            assert(s.len() == p7 + 1);
        },
        Some(sig) => {
            let slen = sig.len() as int;
            crate::text::lemma_hex_str_len(slen, 16);
            crate::text::lemma_hex_str_nibs(slen, 16);
            crate::text::lemma_hex_round_trip(slen, 16);
            assert(s[p7] == '1');
            assert(s.subrange(p7 + 1, p7 + 17) =~= hex_str(slen, 16));
            assert(s.subrange(p7 + 17, p7 + 17 + slen) =~= sig);
            assert(s.len() == p7 + 17 + slen);
        },
    }
    let parsed = parse_payload(s);
    assert(parsed matches Some(d) && d =~= c);
}

/// The token prefix and body of any encoded token are what the encoder put
/// there, and decoding the payload restores the capability: the wire codec
/// round-trips every capability.
pub proof fn lemma_token_round_trip(c: CapData)
    requires
        c.fits(),
    ensures
        has_token_prefix(spec_token(c)),
        token_body(spec_token(c)) == b64_of(payload_of(c)),
        parse_payload(payload_of(c)) == Some(c),
{
    let t = spec_token(c);
    assert(t.subrange(0, 5) =~= token_prefix());
    assert(t.skip(5) =~= b64_of(payload_of(c)));
    lemma_payload_round_trip(c);
}

/// Whether an error is a denial carrying the given reason.
pub open spec fn denied_with(e: GnosError, msg: Seq<char>) -> bool {
    e matches GnosError::PermissionDenied(m) && m@ == msg
}

/// Whether a token string carries the prefix and a body whose decoded
/// payload parses to the given capability content.
pub open spec fn token_decodes_to(t: Seq<char>, d: CapData) -> bool {
    has_token_prefix(t) && (exists|p: Seq<char>|
        b64_of(p) == token_body(t) && parse_payload(p) == Some(d))
}

/// Whether the body of a token has at most one base64 preimage. True of
/// every token, but visible to a proof only where the decoder ran.
pub open spec fn token_unique(t: Seq<char>) -> bool {
    forall|p: Seq<char>, q: Seq<char>|
        b64_of(p) == token_body(t) && b64_of(q) == token_body(t) ==> p == q
}

/// Any token decodes to at most one capability content, on a token whose
/// body is known to have a unique preimage.
pub proof fn lemma_token_decode_unique(t: Seq<char>, d1: CapData, d2: CapData)
    requires
        token_unique(t),
        token_decodes_to(t, d1),
        token_decodes_to(t, d2),
    ensures
        d1 == d2,
{
    let p1 = choose|p: Seq<char>| b64_of(p) == token_body(t) && parse_payload(p) == Some(d1);
    let p2 = choose|p: Seq<char>| b64_of(p) == token_body(t) && parse_payload(p) == Some(d2);
    assert(p1 == p2);
}

/// Everything the parser accepts has fields within the wire size bound.
#[verifier::rlimit(30)]
pub proof fn lemma_parse_fits(p: Seq<char>)
    ensures
        parse_payload(p) matches Some(d) ==> d.fits(),
{
    match parse_payload(p) {
        Some(d) => {
            let plen = hex_num(p, 0, 16);
            crate::text::lemma_hex_value_bound(p.subrange(0, 16));
            let o_pos = 34 + plen;
            let olen = hex_num(p, o_pos, 16);
            crate::text::lemma_hex_value_bound(p.subrange(o_pos, o_pos + 16));
            let s_pos = 67 + plen + olen;
            crate::text::lemma_hex_value_bound(p.subrange(s_pos, s_pos + 16));
            assert(d.fits());
        },
        None => {},
    }
}

/// The exec counterpart of [`parse_payload`].
#[verifier::rlimit(60)]
pub fn parse_payload_str(s: &str) -> (r: Option<Capability>)
    ensures
        match r {
            Some(c) => parse_payload(s@) == Some(c@),
            None => parse_payload(s@) is None,
        },
{
    let len = s.unicode_len();
    if len < 16 {
        return None;
    }
    let plen64 = match parse_hex(s, 0, 16, len) {
        Some(v) => v,
        None => {
            return None;
        },
    };
    if plen64 > (len - 16) as u64 || plen64 > FIELD_LIMIT {
        return None;
    }
    let plen = plen64 as usize;
    let path = s.substring_char(16, 16 + plen).to_owned();
    let p2 = 16 + plen;
    if len - p2 < 2 {
        return None;
    }
    let perms64 = match parse_hex(s, p2, 2, len) {
        Some(v) => v,
        None => {
            return None;
        },
    };
    proof {
        crate::text::lemma_hex_value_bound(s@.subrange(p2 as int, p2 + 2));
        crate::text::lemma_pow16_values();
    }
    let permissions = perms64 as u8;
    let p3 = p2 + 2;
    if len - p3 < 16 {
        return None;
    }
    let expiration = match parse_hex(s, p3, 16, len) {
        Some(v) => v,
        None => {
            return None;
        },
    };
    let p4 = p3 + 16;
    if len - p4 < 16 {
        return None;
    }
    let olen64 = match parse_hex(s, p4, 16, len) {
        Some(v) => v,
        None => {
            return None;
        },
    };
    let p5 = p4 + 16;
    if olen64 > (len - p5) as u64 || olen64 > FIELD_LIMIT {
        return None;
    }
    let olen = olen64 as usize;
    let owner = s.substring_char(p5, p5 + olen).to_owned();
    let p6 = p5 + olen;
    if len - p6 < 16 {
        return None;
    }
    let issued_at = match parse_hex(s, p6, 16, len) {
        Some(v) => v,
        None => {
            return None;
        },
    };
    let p7 = p6 + 16;
    if len - p7 < 1 {
        return None;
    }
    let tag = s.get_char(p7);
    if tag == '0' {
        if len != p7 + 1 {
            return None;
        }
        Some(Capability { path, permissions, expiration, owner, issued_at, signature: None })
    } else if tag == '1' {
        let p8 = p7 + 1;
        if len - p8 < 16 {
            return None;
        }
        let slen64 = match parse_hex(s, p8, 16, len) {
            Some(v) => v,
            None => {
                return None;
            },
        };
        let p9 = p8 + 16;
        if slen64 != (len - p9) as u64 || slen64 > FIELD_LIMIT {
            return None;
        }
        let slen = slen64 as usize;
        let sig = s.substring_char(p9, p9 + slen).to_owned();
        Some(
            Capability {
                path,
                permissions,
                expiration,
                owner,
                issued_at,
                signature: Some(sig),
            },
        )
    } else {
        None
    }
}

impl Capability {
    /// Encodes the full record, signature included where present, as a
    /// compact, URL-safe, self-describing token carrying the fixed prefix.
    pub fn to_token(&self) -> (r: Result<String, GnosError>)
        requires
            self@.fits(),
        ensures
            r matches Ok(t) && t@ == spec_token(self@),
    {
        let mut payload = String::new();
        let path_len = self.path.as_str().unicode_len();
        hex_extend(&mut payload, path_len as u64, 16);
        payload.append(self.path.as_str());
        hex_extend(&mut payload, self.permissions as u64, 2);
        hex_extend(&mut payload, self.expiration, 16);
        let owner_len = self.owner.as_str().unicode_len();
        hex_extend(&mut payload, owner_len as u64, 16);
        payload.append(self.owner.as_str());
        hex_extend(&mut payload, self.issued_at, 16);
        match &self.signature {
            None => push_char(&mut payload, '0'),
            Some(sig) => {
                push_char(&mut payload, '1');
                let sig_len = sig.as_str().unicode_len();
                hex_extend(&mut payload, sig_len as u64, 16);
                payload.append(sig.as_str());
            },
        }
        proof {
            assert(payload@ =~= payload_of(self@));
            crate::text::lemma_hex_str_len(self@.path.len() as int, 16);
            crate::text::lemma_hex_str_len(self@.permissions as int, 2);
            crate::text::lemma_hex_str_len(self@.expiration as int, 16);
            crate::text::lemma_hex_str_len(self@.owner.len() as int, 16);
            crate::text::lemma_hex_str_len(self@.issued_at as int, 16);
            match self@.signature {
                None => {},
                Some(sig) => {
                    crate::text::lemma_hex_str_len(sig.len() as int, 16);
                },
            }
        }
        let encoded = b64_encode(payload.as_str());
        let mut token = String::new();
        push_char(&mut token, 'g');
        push_char(&mut token, 'n');
        push_char(&mut token, 'o');
        push_char(&mut token, 's');
        push_char(&mut token, '.');
        proof {
            assert(token@ =~= token_prefix());
        }
        token.append(encoded.as_str());
        Ok(token)
    }

    /// The exact inverse of [`Capability::to_token`]: rejects a missing
    /// prefix, an undecodable body and an unparseable payload with distinct
    /// denial reasons, and reconstructs the capability otherwise.
    pub fn from_token(token: &str) -> (r: Result<Capability, GnosError>)
        ensures
            !has_token_prefix(token@) ==> (r matches Err(e) && denied_with(
                e,
                "invalid token format"@,
            )),
            (has_token_prefix(token@) && (forall|p: Seq<char>| b64_of(p) != token_body(token@)))
                ==> (r matches Err(e) && denied_with(e, "invalid token encoding"@)),
            forall|p: Seq<char>|
                (has_token_prefix(token@) && b64_of(p) == token_body(token@) && parse_payload(p)
                    is None) ==> (r matches Err(e) && denied_with(e, "invalid token payload"@)),
            r matches Ok(c) ==> token_decodes_to(token@, c@) && token_unique(token@)
                && c@.fits(),
            forall|d: CapData| token_decodes_to(token@, d) ==> r matches Ok(_),
    {
        let len = token.unicode_len();
        let prefix_ok = len >= 5 && token.get_char(0) == 'g' && token.get_char(1) == 'n'
            && token.get_char(2) == 'o' && token.get_char(3) == 's' && token.get_char(4) == '.';
        if !prefix_ok {
            proof {
                assert(!has_token_prefix(token@)) by {
                    if token@.len() >= 5 && token@.subrange(0, 5) == token_prefix() {
                        assert(token@[0] == 'g' && token@[1] == 'n' && token@[2] == 'o'
                            && token@[3] == 's' && token@[4] == '.') by {
                            assert(forall|i: int|
                                0 <= i < 5 ==> token@.subrange(0, 5)[i] == token@[i]);
                        }
                    }
                }
            }
            return Err(GnosError::PermissionDenied(String::from_str("invalid token format")));
        }
        proof {
            assert(token@.subrange(0, 5) =~= token_prefix());
        }
        let body = token.substring_char(5, len);
        proof {
            assert(body@ =~= token_body(token@));
        }
        match b64_decode(body) {
            None => Err(GnosError::PermissionDenied(String::from_str("invalid token encoding"))),
            Some(payload) => {
                match parse_payload_str(payload.as_str()) {
                    None => Err(
                        GnosError::PermissionDenied(String::from_str("invalid token payload")),
                    ),
                    Some(cap) => {
                        proof {
                            lemma_parse_fits(payload@);
                        }
                        Ok(cap)
                    },
                }
            },
        }
    }
}

/// The canonical signing input: the path, the permission bits, the
/// expiration as epoch seconds and the owner, joined with a fixed delimiter.
pub open spec fn signing_input(c: CapData) -> Seq<char> {
    c.path + seq![':'] + hex_str(c.permissions as int, 2) + seq![':'] + hex_str(
        c.expiration as int,
        16,
    ) + seq![':'] + c.owner
}

/// Whether a capability's stored signature is exactly the keyed tag of its
/// canonical signing input under the given secret.
pub open spec fn spec_verified(c: CapData, secret: Seq<u8>) -> bool {
    c.signature matches Some(s) && s == hmac_sig(secret, signing_input(c))
}

impl Capability {
    /// Builds the canonical signing input of the record.
    fn signing_data(&self) -> (r: String)
        ensures
            r@ == signing_input(self@),
    {
        let mut data = String::new();
        data.append(self.path.as_str());
        push_char(&mut data, ':');
        hex_extend(&mut data, self.permissions as u64, 2);
        push_char(&mut data, ':');
        hex_extend(&mut data, self.expiration, 16);
        push_char(&mut data, ':');
        data.append(self.owner.as_str());
        proof {
            assert(data@ =~= signing_input(self@));
        }
        data
    }

    /// Computes the keyed tag over the canonical tuple and stores it. Any
    /// change to a field after signing invalidates the stored signature.
    pub fn sign(&mut self, secret: &[u8]) -> (r: Result<(), GnosError>)
        requires
            old(self)@.fits(),
        ensures
            r matches Ok(()),
            final(self)@ == (CapData {
                signature: Some(hmac_sig(secret@, signing_input(old(self)@))),
                ..old(self)@
            }),
            final(self)@.fits(),
    {
        proof {
            crate::text::lemma_hex_str_len(self@.permissions as int, 2);
            crate::text::lemma_hex_str_len(self@.expiration as int, 16);
        }
        let data = self.signing_data();
        self.signature = Some(hmac_sign(secret, data.as_str()));
        Ok(())
    }

    /// Recomputes the tag over the canonical tuple and compares it with the
    /// stored signature in constant time. Fail closed: an unsigned record
    /// never verifies, and neither does a stored signature that is not the
    /// canonical 43-character form of a tag.
    pub fn verify(&self, secret: &[u8]) -> (r: bool)
        requires
            self@.fits(),
        ensures
            r == spec_verified(self@, secret@),
            r ==> (self@.signature matches Some(s) && s.len() == 43),
    {
        proof {
            crate::text::lemma_hex_str_len(self@.permissions as int, 2);
            crate::text::lemma_hex_str_len(self@.expiration as int, 16);
        }
        match &self.signature {
            None => false,
            Some(sig) => {
                let data = self.signing_data();
                hmac_check(secret, data.as_str(), sig.as_str())
            },
        }
    }
}

/// The permission mask a textual permission description denotes: each
/// character grants one of read, write or execute; any other character makes
/// the description invalid.
pub open spec fn perm_mask(s: Seq<char>) -> Option<u8>
    decreases s.len(),
{
    if s.len() == 0 {
        Some(0)
    } else {
        match perm_mask(s.drop_last()) {
            None => None,
            Some(m) => if s.last() == 'r' {
                Some(m | 0b100)
            } else if s.last() == 'w' {
                Some(m | 0b010)
            } else if s.last() == 'x' {
                Some(m | 0b001)
            } else {
                None
            },
        }
    }
}

/// Whether a character is one of the three permission letters.
pub open spec fn is_perm_char(c: char) -> bool {
    c == 'r' || c == 'w' || c == 'x'
}

/// Parses a textual permission description such as "rw" into the permission
/// bitmask; the mask never carries a bit beyond the three defined. A
/// rejection names the first character that is no permission letter.
pub fn parse_permissions(perms: &str) -> (r: Result<u8, GnosError>)
    ensures
        match r {
            Ok(m) => perm_mask(perms@) == Some(m) && m < 8,
            Err(e) => perm_mask(perms@) is None && (e matches GnosError::InvalidPath(msg)
                && exists|i: int|
                0 <= i < perms@.len() && !is_perm_char(#[trigger] perms@[i]) && (forall|j: int|
                    0 <= j < i ==> is_perm_char(perms@[j])) && msg@
                    == "invalid permission character: "@.push(perms@[i])),
        },
{
    let len = perms.unicode_len();
    let mut m: u8 = 0;
    let mut i: usize = 0;
    proof {
        assert(perms@.subrange(0, 0) =~= Seq::<char>::empty());
    }
    while i < len
        invariant
            len == perms@.len(),
            0 <= i <= len,
            m < 8,
            perm_mask(perms@.subrange(0, i as int)) == Some(m),
            forall|j: int| 0 <= j < i ==> is_perm_char(#[trigger] perms@[j]),
        decreases len - i,
    {
        let c = perms.get_char(i);
        proof {
            assert(perms@.subrange(0, i + 1).drop_last() =~= perms@.subrange(0, i as int));
            assert(perms@.subrange(0, i + 1).last() == c);
            assert(m < 8 ==> ((m | 0b100u8) < 8 && (m | 0b010u8) < 8 && (m | 0b001u8) < 8))
                by (bit_vector);
        }
        if c == 'r' {
            m = m | 0b100;
        } else if c == 'w' {
            m = m | 0b010;
        } else if c == 'x' {
            m = m | 0b001;
        } else {
            let mut msg = String::from_str("invalid permission character: ");
            push_char(&mut msg, c);
            proof {
                lemma_perm_mask_extends_none(perms@, i as int);
                assert(!is_perm_char(perms@[i as int]));
            }
            return Err(GnosError::InvalidPath(msg));
        }
        i = i + 1;
    }
    proof {
        assert(perms@.subrange(0, len as int) =~= perms@);
    }
    Ok(m)
}

/// Once a prefix of the description fails to parse, the whole description
/// fails.
proof fn lemma_perm_mask_extends_none(s: Seq<char>, i: int)
    requires
        0 <= i < s.len(),
        perm_mask(s.subrange(0, i + 1)) is None,
    ensures
        perm_mask(s) is None,
    decreases s.len() - i,
{
    if i + 1 == s.len() {
        assert(s.subrange(0, i + 1) =~= s);
    } else {
        assert(s.subrange(0, i + 2).drop_last() =~= s.subrange(0, i + 1));
        lemma_perm_mask_extends_none(s, i + 1);
    }
}

/// Signing with a secret and then verifying with the same secret succeeds:
/// the stored signature is exactly the tag of the canonical signing input,
/// which does not depend on the signature field itself.
pub proof fn lemma_sign_then_verify(c: CapData, secret: Seq<u8>)
    ensures
        spec_verified(
            CapData { signature: Some(hmac_sig(secret, signing_input(c))), ..c },
            secret,
        ),
{
}

} // verus!
