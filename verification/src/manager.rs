//! The capability manager: the authorization service holding the active
//! capability set, a short-lived validation cache, a bounded append-only
//! audit log, and the expiry sweep. Every authorization outcome, granted or
//! denied, appends exactly one audit entry. The policy is fail-closed: a
//! request is authorized only by a presented token that validates or by an
//! unexpired entry of the active set.

use vstd::prelude::*;
use vstd::string::StrSliceExecFns;
use vstd::string::StringExecFns;
use crate::GnosError;
use crate::capability::CapData;
use crate::capability::Capability;
use crate::capability::FIELD_LIMIT;
use crate::capability::Operation;
use crate::capability::denied_with;
use crate::capability::has_token_prefix;
use crate::capability::parse_payload;
use crate::capability::token_body;
use crate::capability::lemma_token_decode_unique;
use crate::capability::signing_input;
use crate::capability::spec_token;
use crate::capability::spec_verified;
use crate::capability::token_decodes_to;
use crate::capability::token_unique;
use crate::config::SecurityConfig;
use crate::crypto::b64_of;
use crate::crypto::content_id;
use crate::crypto::digest_id;
use crate::crypto::hmac_sig;
use crate::path::scope_contains;
use crate::text::hex_extend;
use crate::text::hex_str;
use crate::text::push_char;
use crate::text::str_eq;

verus! {

/// The audit log's bound: the log never holds more entries for more than a
/// single insertion.
pub const AUDIT_LIMIT: usize = 10000;

/// How many of the oldest entries one eviction sweep drops.
pub const AUDIT_EVICT: usize = 5000;

/// How long a cache entry serves validations, in seconds.
pub const CACHE_FRESH_SECS: u64 = 60;

/// How long a cache entry survives the cleanup sweep, in seconds.
pub const CACHE_LIFE_SECS: u64 = 300;

/// One authorization outcome: when, what was attempted on which path, by
/// whom (or "unknown"), whether it was allowed, and the denial reason.
pub struct AuditEntry {
    pub timestamp: u64,
    pub operation: Operation,
    pub path: String,
    pub owner: String,
    pub success: bool,
    pub reason: Option<String>,
}

impl Clone for AuditEntry {
    fn clone(&self) -> (r: Self)
        ensures
            r == *self,
    {
        AuditEntry {
            timestamp: self.timestamp,
            operation: self.operation,
            path: self.path.clone(),
            owner: self.owner.clone(),
            success: self.success,
            reason: match &self.reason {
                Some(m) => Some(m.clone()),
                None => None,
            },
        }
    }
}

/// An active capability under its content-derived identifier.
pub struct ActiveEntry {
    pub id: String,
    pub cap: Capability,
}

impl Clone for ActiveEntry {
    fn clone(&self) -> (r: Self)
        ensures
            r == *self,
    {
        ActiveEntry { id: self.id.clone(), cap: self.cap.clone() }
    }
}

/// A validated token memoized with the instant it was cached.
pub struct CacheEntry {
    pub token: String,
    pub cap: Capability,
    pub cached_at: u64,
}

impl Clone for CacheEntry {
    fn clone(&self) -> (r: Self)
        ensures
            r == *self,
    {
        CacheEntry { token: self.token.clone(), cap: self.cap.clone(), cached_at: self.cached_at }
    }
}

/// A read-only snapshot of the manager's size counters.
pub struct CapabilityStats {
    pub active_capabilities: usize,
    pub cached_capabilities: usize,
    pub total_audit_entries: usize,
    pub successful_accesses: usize,
    pub failed_accesses: usize,
}

/// The content a capability's identifier is derived from: path, permission
/// bits, owner and issuance instant, joined with a fixed delimiter.
pub open spec fn id_input(c: CapData) -> Seq<char> {
    c.path + seq![':'] + hex_str(c.permissions as int, 2) + seq![':'] + c.owner + seq![':']
        + hex_str(c.issued_at as int, 16)
}

/// The content-derived identifier an active capability is stored under.
pub open spec fn cap_id(c: CapData) -> Seq<char> {
    content_id(id_input(c))
}

/// Whether a capability covers the path and operation and is unexpired at
/// `now`.
pub open spec fn grants_now(c: CapData, path: Seq<char>, op: Operation, now: u64) -> bool {
    scope_contains(c.path, path) && c.allows_op(op) && now <= c.expiration
}

/// The first entry of the active set, in insertion order, that grants the
/// request; the documented selection policy is first structural match, with
/// no specificity ranking.
pub open spec fn find_grant(
    entries: Seq<ActiveEntry>,
    path: Seq<char>,
    op: Operation,
    now: u64,
) -> Option<CapData>
    decreases entries.len(),
{
    if entries.len() == 0 {
        None
    } else if grants_now(entries[0].cap@, path, op, now) {
        Some(entries[0].cap@)
    } else {
        find_grant(entries.drop_first(), path, op, now)
    }
}

/// A grant is found exactly when some entry of the set grants the request.
pub proof fn lemma_find_grant_exists(
    entries: Seq<ActiveEntry>,
    path: Seq<char>,
    op: Operation,
    now: u64,
)
    ensures
        (find_grant(entries, path, op, now) is Some) <==> (exists|i: int|
            0 <= i < entries.len() && grants_now(#[trigger] entries[i].cap@, path, op, now)),
        find_grant(entries, path, op, now) matches Some(c) ==> grants_now(c, path, op, now),
    decreases entries.len(),
{
    if entries.len() > 0 {
        lemma_find_grant_exists(entries.drop_first(), path, op, now);
        if !grants_now(entries[0].cap@, path, op, now) {
            let rest = entries.drop_first();
            if find_grant(rest, path, op, now) is Some {
                let i = choose|i: int|
                    0 <= i < rest.len() && grants_now(#[trigger] rest[i].cap@, path, op, now);
                assert(entries[i + 1].cap@ == rest[i].cap@);
            }
            if exists|i: int|
                0 <= i < entries.len() && grants_now(#[trigger] entries[i].cap@, path, op, now) {
                let i = choose|i: int|
                    0 <= i < entries.len() && grants_now(
                        #[trigger] entries[i].cap@,
                        path,
                        op,
                        now,
                    );
                assert(rest[i - 1].cap@ == entries[i].cap@);
            }
        }
    }
}

/// Whether a token validates at `now` to the given capability content:
/// it decodes to it, the content is unexpired, and where signatures are
/// required its signature verifies under the signing secret.
pub open spec fn token_valid(
    require_sigs: bool,
    secret: Seq<u8>,
    t: Seq<char>,
    d: CapData,
    now: u64,
) -> bool {
    &&& token_decodes_to(t, d)
    &&& now <= d.expiration
    &&& (require_sigs ==> spec_verified(d, secret))
}

/// Whether a presented token authorizes the path and operation at `now`.
pub open spec fn ambient_grants(
    require_sigs: bool,
    secret: Seq<u8>,
    t: Seq<char>,
    path: Seq<char>,
    op: Operation,
    now: u64,
) -> bool {
    exists|d: CapData|
        token_valid(require_sigs, secret, t, d, now) && scope_contains(d.path, path)
            && d.allows_op(op)
}

/// Whether a cache entry survives the cleanup sweep at `now`: its
/// capability is unexpired and the entry is younger than the cache lifetime.
pub open spec fn cache_live(e: CacheEntry, now: u64) -> bool {
    now <= e.cap@.expiration && (now as int) < e.cached_at + CACHE_LIFE_SECS
}

/// Appending to the bounded audit log: when the log would exceed its bound,
/// the oldest entries are dropped in one sweep, never interleaved with
/// individual appends.
pub open spec fn audit_push(log: Seq<AuditEntry>, e: AuditEntry) -> Seq<AuditEntry> {
    if log.len() + 1 > AUDIT_LIMIT {
        log.push(e).skip(AUDIT_EVICT as int)
    } else {
        log.push(e)
    }
}

/// The audit log never exceeds its bound for more than the single insertion
/// that triggers eviction, and after an eviction the most recent entries are
/// retained in their original order.
pub proof fn lemma_audit_bounded(log: Seq<AuditEntry>, e: AuditEntry)
    requires
        log.len() <= AUDIT_LIMIT,
    ensures
        audit_push(log, e).len() <= AUDIT_LIMIT,
        log.len() < AUDIT_LIMIT ==> audit_push(log, e) == log.push(e),
        log.len() == AUDIT_LIMIT ==> audit_push(log, e).len() == AUDIT_LIMIT - AUDIT_EVICT + 1
            && (forall|i: int|
            0 <= i < audit_push(log, e).len() ==> audit_push(log, e)[i] == log.push(e)[i
                + AUDIT_EVICT]),
{
}

/// The authorization service. Its shared state is the active capability
/// set (scanned in insertion order), the validation cache, and the audit
/// log.
pub struct CapabilityManager {
    pub config: SecurityConfig,
    pub active: Vec<ActiveEntry>,
    pub cache: Vec<CacheEntry>,
    pub audit: Vec<AuditEntry>,
}

impl CapabilityManager {
    /// An active entry is stored under the identifier derived from its own
    /// content, and its fields are within the wire bounds.
    pub open spec fn active_entry_wf(e: ActiveEntry) -> bool {
        e.id@ == cap_id(e.cap@) && e.cap@.fits()
    }

    /// A cache entry memoizes a capability its token really decodes to,
    /// verified where signatures are required.
    pub open spec fn cache_entry_wf(e: CacheEntry, require_sigs: bool, secret: Seq<u8>) -> bool {
        &&& token_decodes_to(e.token@, e.cap@)
        &&& token_unique(e.token@)
        &&& (require_sigs ==> spec_verified(e.cap@, secret))
        &&& e.cap@.fits()
    }

    /// The manager's invariant: the audit log is within its bound and every
    /// stored entry is well formed.
    pub open spec fn wf(self) -> bool {
        &&& self.audit@.len() <= AUDIT_LIMIT
        &&& (forall|i: int|
            0 <= i < self.active@.len() ==> Self::active_entry_wf(#[trigger] self.active@[i]))
        &&& (forall|i: int|
            0 <= i < self.cache@.len() ==> Self::cache_entry_wf(
                #[trigger] self.cache@[i],
                self.config.require_signatures,
                self.config.hmac_secret@,
            ))
    }

    /// A fresh manager with empty state.
    pub fn new(config: SecurityConfig) -> (r: Self)
        ensures
            r.wf(),
            r.config == config,
            r.active@.len() == 0,
            r.cache@.len() == 0,
            r.audit@.len() == 0,
    {
        CapabilityManager { config, active: Vec::new(), cache: Vec::new(), audit: Vec::new() }
    }

    /// Appends one entry to the audit log, evicting the oldest entries in
    /// one sweep when the bound is crossed.
    fn push_audit(&mut self, entry: AuditEntry)
        ensures
            final(self).audit@ == audit_push(old(self).audit@, entry),
            final(self).active@ == old(self).active@,
            final(self).cache@ == old(self).cache@,
            final(self).config == old(self).config,
    {
        self.audit.push(entry);
        if self.audit.len() > AUDIT_LIMIT {
            let ghost full = self.audit@;
            let mut kept: Vec<AuditEntry> = Vec::new();
            let mut i: usize = AUDIT_EVICT;
            while i < self.audit.len()
                invariant
                    AUDIT_EVICT <= i <= self.audit@.len(),
                    self.audit@ == full,
                    kept@ =~= full.subrange(AUDIT_EVICT as int, i as int),
                decreases self.audit@.len() - i,
            {
                let e = self.audit[i].clone();
                kept.push(e);
                proof {
                    assert(kept@ =~= full.subrange(AUDIT_EVICT as int, i + 1));
                }
                i = i + 1;
            }
            self.audit = kept;
            proof {
                assert(self.audit@ =~= full.skip(AUDIT_EVICT as int));
            }
        }
    }

    /// The content-derived identifier of a capability.
    fn capability_id(cap: &Capability) -> (r: String)
        requires
            cap@.fits(),
        ensures
            r@ == cap_id(cap@),
    {
        proof {
            crate::text::lemma_hex_str_len(cap@.permissions as int, 2);
            crate::text::lemma_hex_str_len(cap@.issued_at as int, 16);
        }
        let mut data = String::new();
        data.append(cap.path.as_str());
        push_char(&mut data, ':');
        hex_extend(&mut data, cap.permissions as u64, 2);
        push_char(&mut data, ':');
        data.append(cap.owner.as_str());
        push_char(&mut data, ':');
        hex_extend(&mut data, cap.issued_at, 16);
        proof {
            assert(data@ =~= id_input(cap@));
        }
        digest_id(data.as_str())
    }

    /// Validates a presented token: consults the short-lived cache first;
    /// on a miss, decodes the token, rejects an expired capability, verifies
    /// the signature where required, and memoizes the validated capability.
    fn validate_token(&mut self, token: &str, now: u64) -> (r: Result<Capability, GnosError>)
        requires
            old(self).wf(),
        ensures
            final(self).wf(),
            final(self).active@ == old(self).active@,
            final(self).audit@ == old(self).audit@,
            final(self).config == old(self).config,
            match r {
                Ok(cap) => token_valid(
                    old(self).config.require_signatures,
                    old(self).config.hmac_secret@,
                    token@,
                    cap@,
                    now,
                ) && token_unique(token@) && cap@.fits(),
                Err(e) => (forall|d: CapData|
                    !token_valid(
                        old(self).config.require_signatures,
                        old(self).config.hmac_secret@,
                        token@,
                        d,
                        now,
                    )) && final(self).cache@ == old(self).cache@ && ({
                    ||| (e matches GnosError::CapabilityExpired && (exists|d: CapData|
                        token_decodes_to(token@, d) && now > d.expiration))
                    ||| (denied_with(e, "invalid signature"@) && old(
                        self,
                    ).config.require_signatures && (exists|d: CapData|
                        token_decodes_to(token@, d) && !spec_verified(
                            d,
                            old(self).config.hmac_secret@,
                        )))
                    ||| (denied_with(e, "invalid token format"@) && !has_token_prefix(token@))
                    ||| (denied_with(e, "invalid token encoding"@) && has_token_prefix(token@)
                        && (forall|p: Seq<char>| b64_of(p) != token_body(token@)))
                    ||| (denied_with(e, "invalid token payload"@) && (forall|p: Seq<char>|
                        b64_of(p) == token_body(token@) ==> parse_payload(p) is None))
                }),
            },
            final(self).cache@ == old(self).cache@ || (exists|e: CacheEntry|
                e.token@ == token@ && e.cached_at == now && #[trigger] Self::cache_entry_wf(
                    e,
                    old(self).config.require_signatures,
                    old(self).config.hmac_secret@,
                ) && final(self).cache@ == old(self).cache@.filter(
                    |ce: CacheEntry| ce.token@ != token@,
                ).push(e)),
    {
        let mut i: usize = 0;
        while i < self.cache.len()
            invariant
                old(self).wf(),
                *self == *old(self),
                0 <= i <= self.cache@.len(),
            decreases self.cache@.len() - i,
        {
            let hit = str_eq(self.cache[i].token.as_str(), token) && (now <= self.cache[i].cached_at
                || now - self.cache[i].cached_at < CACHE_FRESH_SECS) && !self.cache[i].cap.is_expired(
                now,
            );
            if hit {
                let cap = self.cache[i].cap.clone();
                return Ok(cap);
            }
            i = i + 1;
        }
        let cap = match Capability::from_token(token) {
            Ok(c) => c,
            Err(e) => {
                proof {
                    if has_token_prefix(token@) && !(forall|p: Seq<char>|
                        b64_of(p) != token_body(token@)) {
                        let p0 = choose|p: Seq<char>| b64_of(p) == token_body(token@);
                        assert forall|p: Seq<char>|
                            b64_of(p) == token_body(token@) implies parse_payload(p) is None by {
                            match parse_payload(p) {
                                Some(d) => {
                                    assert(token_decodes_to(token@, d));
                                },
                                None => {},
                            }
                        }
                        assert(parse_payload(p0) is None);
                    }
                }
                return Err(e);
            },
        };
        if cap.is_expired(now) {
            proof {
                assert forall|d: CapData|
                    !token_valid(
                        self.config.require_signatures,
                        self.config.hmac_secret@,
                        token@,
                        d,
                        now,
                    ) by {
                    if token_decodes_to(token@, d) {
                        lemma_token_decode_unique(token@, d, cap@);
                    }
                }
            }
            return Err(GnosError::CapabilityExpired);
        }
        if self.config.require_signatures {
            if !cap.verify(&self.config.hmac_secret) {
                proof {
                    assert forall|d: CapData|
                        !token_valid(
                            self.config.require_signatures,
                            self.config.hmac_secret@,
                            token@,
                            d,
                            now,
                        ) by {
                        if token_decodes_to(token@, d) {
                            lemma_token_decode_unique(token@, d, cap@);
                        }
                    }
                }
                return Err(GnosError::PermissionDenied(String::from_str("invalid signature")));
            }
        }
        let ghost oldcache = self.cache@;
        let mut kept: Vec<CacheEntry> = Vec::new();
        let mut j: usize = 0;
        proof {
            reveal(Seq::filter);
            assert(oldcache.subrange(0, 0).filter(|ce: CacheEntry| ce.token@ != token@)
                =~= Seq::<CacheEntry>::empty());
        }
        while j < self.cache.len()
            invariant
                old(self).wf(),
                self.cache@ == oldcache,
                self.active@ == old(self).active@,
                self.audit@ == old(self).audit@,
                self.config == old(self).config,
                0 <= j <= oldcache.len(),
                kept@ == oldcache.subrange(0, j as int).filter(
                    |ce: CacheEntry| ce.token@ != token@,
                ),
                forall|k: int|
                    0 <= k < kept@.len() ==> Self::cache_entry_wf(
                        #[trigger] kept@[k],
                        self.config.require_signatures,
                        self.config.hmac_secret@,
                    ),
            decreases oldcache.len() - j,
        {
            let keep = !str_eq(self.cache[j].token.as_str(), token);
            if keep {
                let e = self.cache[j].clone();
                kept.push(e);
            }
            proof {
                reveal(Seq::filter);
                let pred = |ce: CacheEntry| ce.token@ != token@;
                assert(oldcache.subrange(0, j + 1).drop_last() =~= oldcache.subrange(0, j as int));
                assert(oldcache.subrange(0, j + 1).last() == oldcache[j as int]);
                assert(kept@ == oldcache.subrange(0, j + 1).filter(pred));
            }
            j = j + 1;
        }
        let entry = CacheEntry { token: token.to_owned(), cap: cap.clone(), cached_at: now };
        kept.push(entry);
        self.cache = kept;
        proof {
            assert(oldcache.subrange(0, oldcache.len() as int) =~= oldcache);
            let e = self.cache@.last();
            assert(e.token@ == token@);
            assert(Self::cache_entry_wf(
                e,
                old(self).config.require_signatures,
                old(self).config.hmac_secret@,
            ));
            assert(self.cache@ == old(self).cache@.filter(
                |ce: CacheEntry| ce.token@ != token@,
            ).push(e));
        }
        Ok(cap)
    }

    /// The authorization decision for one operation on one path at `now`,
    /// with an optional ambient token from the calling context. The request
    /// is authorized exactly when the ambient token validates and covers the
    /// request, or some entry of the active set covers it unexpired; the
    /// scan honours insertion order with no specificity ranking. Every
    /// outcome appends exactly one audit entry before returning.
    pub fn check_permission(
        &mut self,
        path: &str,
        operation: Operation,
        ambient_token: Option<&str>,
        now: u64,
    ) -> (r: Result<(), GnosError>)
        requires
            old(self).wf(),
        ensures
            final(self).wf(),
            final(self).active@ == old(self).active@,
            final(self).config == old(self).config,
            (r matches Ok(())) == ({
                ||| (match ambient_token {
                    Some(t) => ambient_grants(
                        old(self).config.require_signatures,
                        old(self).config.hmac_secret@,
                        t@,
                        path@,
                        operation,
                        now,
                    ),
                    None => false,
                })
                ||| find_grant(old(self).active@, path@, operation, now) is Some
            }),
            r matches Err(e) ==> denied_with(e, "no valid capability found"@),
            final(self).cache@ == old(self).cache@ || (match ambient_token {
                Some(t) => exists|ce: CacheEntry|
                    ce.token@ == t@ && ce.cached_at == now && #[trigger] Self::cache_entry_wf(
                        ce,
                        old(self).config.require_signatures,
                        old(self).config.hmac_secret@,
                    ) && final(self).cache@ == old(self).cache@.filter(
                        |c: CacheEntry| c.token@ != t@,
                    ).push(ce),
                None => false,
            }),
            exists|e: AuditEntry|
                final(self).audit@ == #[trigger] audit_push(old(self).audit@, e) && e.timestamp
                    == now && e.operation == operation && e.path@ == path@ && e.success == (
                r matches Ok(_)) && (e.success ==> e.reason is None && ((match ambient_token {
                    Some(t) => exists|d: CapData|
                        token_valid(
                            old(self).config.require_signatures,
                            old(self).config.hmac_secret@,
                            t@,
                            d,
                            now,
                        ) && scope_contains(d.path, path@) && d.allows_op(operation) && e.owner@
                            == d.owner,
                    None => false,
                }) || (find_grant(old(self).active@, path@, operation, now) matches Some(c)
                    && e.owner@ == c.owner))) && (!e.success ==> e.owner@ == "unknown"@ && (
                e.reason matches Some(m) && m@ == "no valid capability found"@)),
    {
        let ghost rs = old(self).config.require_signatures;
        let ghost secret = old(self).config.hmac_secret@;
        match ambient_token {
            Some(t) => {
                match self.validate_token(t, now) {
                    Ok(cap) => {
                        if cap.is_valid_for_path(path) && cap.allows(operation) {
                            let entry = AuditEntry {
                                timestamp: now,
                                operation,
                                path: path.to_owned(),
                                owner: cap.owner.clone(),
                                success: true,
                                reason: None,
                            };
                            proof {
                                assert(token_valid(rs, secret, t@, cap@, now)
                                    && scope_contains(cap@.path, path@) && cap@.allows_op(
                                    operation,
                                ));
                            }
                            self.push_audit(entry);
                            return Ok(());
                        }
                        proof {
                            assert(!ambient_grants(rs, secret, t@, path@, operation, now)) by {
                                if ambient_grants(rs, secret, t@, path@, operation, now) {
                                    let d = choose|d: CapData|
                                        token_valid(rs, secret, t@, d, now) && scope_contains(
                                            d.path,
                                            path@,
                                        ) && d.allows_op(operation);
                                    lemma_token_decode_unique(t@, d, cap@);
                                }
                            }
                        }
                    },
                    Err(_) => {
                        proof {
                            assert(!ambient_grants(rs, secret, t@, path@, operation, now)) by {
                                if ambient_grants(rs, secret, t@, path@, operation, now) {
                                    let d = choose|d: CapData|
                                        token_valid(rs, secret, t@, d, now) && scope_contains(
                                            d.path,
                                            path@,
                                        ) && d.allows_op(operation);
                                    assert(!token_valid(rs, secret, t@, d, now));
                                }
                            }
                        }
                    },
                }
            },
            None => {},
        }
        let ghost entries = self.active@;
        proof {
            assert(entries.skip(0) =~= entries);
        }
        let mut i: usize = 0;
        while i < self.active.len()
            invariant
                old(self).wf(),
                self.wf(),
                self.active@ == entries,
                entries == old(self).active@,
                self.config == old(self).config,
                self.audit@ == old(self).audit@,
                self.cache@ == old(self).cache@ || (match ambient_token {
                    Some(t) => exists|ce: CacheEntry|
                        ce.token@ == t@ && ce.cached_at == now && #[trigger] Self::cache_entry_wf(
                            ce,
                            old(self).config.require_signatures,
                            old(self).config.hmac_secret@,
                        ) && self.cache@ == old(self).cache@.filter(
                            |c: CacheEntry| c.token@ != t@,
                        ).push(ce),
                    None => false,
                }),
                (match ambient_token {
                    Some(t) => !ambient_grants(
                        old(self).config.require_signatures,
                        old(self).config.hmac_secret@,
                        t@,
                        path@,
                        operation,
                        now,
                    ),
                    None => true,
                }),
                0 <= i <= entries.len(),
                find_grant(entries, path@, operation, now) == find_grant(
                    entries.skip(i as int),
                    path@,
                    operation,
                    now,
                ),
            decreases entries.len() - i,
        {
            let e = &self.active[i];
            proof {
                assert(entries.skip(i as int).len() > 0);
                assert(entries.skip(i as int)[0] == entries[i as int]);
            }
            if e.cap.is_valid_for_path(path) && e.cap.allows(operation) && !e.cap.is_expired(now) {
                let entry = AuditEntry {
                    timestamp: now,
                    operation,
                    path: path.to_owned(),
                    owner: e.cap.owner.clone(),
                    success: true,
                    reason: None,
                };
                proof {
                    assert(grants_now(entries.skip(i as int)[0].cap@, path@, operation, now));
                    assert(find_grant(entries, path@, operation, now) is Some);
                }
                self.push_audit(entry);
                return Ok(());
            }
            proof {
                assert(entries.skip(i as int).drop_first() =~= entries.skip(i + 1));
            }
            i = i + 1;
        }
        proof {
            assert(entries.skip(entries.len() as int).len() == 0);
            assert(find_grant(entries, path@, operation, now) is None);
        }
        let entry = AuditEntry {
            timestamp: now,
            operation,
            path: path.to_owned(),
            owner: String::from_str("unknown"),
            success: false,
            reason: Some(String::from_str("no valid capability found")),
        };
        self.push_audit(entry);
        Err(GnosError::PermissionDenied(String::from_str("no valid capability found")))
    }
}

/// The capability a grant constructs: the requested duration clamped to the
/// configured ceiling, issued at `now`, signed where signatures are
/// required.
pub open spec fn granted_cap(
    require_sigs: bool,
    secret: Seq<u8>,
    max_lifetime: u64,
    path: Seq<char>,
    permissions: u8,
    owner: Seq<char>,
    duration: u64,
    now: u64,
) -> CapData {
    let dur = if duration < max_lifetime {
        duration
    } else {
        max_lifetime
    };
    let base = CapData {
        path,
        permissions,
        expiration: (now + dur) as u64,
        owner,
        issued_at: now,
        signature: None,
    };
    if require_sigs {
        CapData { signature: Some(hmac_sig(secret, signing_input(base))), ..base }
    } else {
        base
    }
}

impl CapabilityManager {
    /// Constructs a capability for the path, clamped to the configured
    /// maximum lifetime, signs it where required, stores it in the active
    /// set under its content-derived identifier, and returns its wire token.
    pub fn grant_capability(
        &mut self,
        path: String,
        permissions: u8,
        owner: String,
        duration: u64,
        now: u64,
    ) -> (r: Result<String, GnosError>)
        requires
            old(self).wf(),
            path@.len() <= FIELD_LIMIT,
            owner@.len() <= FIELD_LIMIT,
            permissions < 8,
            now + old(self).config.max_token_lifetime <= u64::MAX,
        ensures
            final(self).wf(),
            final(self).cache@ == old(self).cache@,
            final(self).audit@ == old(self).audit@,
            final(self).config == old(self).config,
            ({
                let granted = granted_cap(
                    old(self).config.require_signatures,
                    old(self).config.hmac_secret@,
                    old(self).config.max_token_lifetime,
                    path@,
                    permissions,
                    owner@,
                    duration,
                    now,
                );
                r matches Ok(t) && t@ == spec_token(granted) && (exists|e: ActiveEntry|
                    e.id@ == cap_id(granted) && e.cap@ == granted && final(self).active@
                        == #[trigger] old(self).active@.push(e))
            }),
    {
        let dur = if duration < self.config.max_token_lifetime {
            duration
        } else {
            self.config.max_token_lifetime
        };
        let mut cap = Capability::new(path, permissions, owner, dur, now);
        if self.config.require_signatures {
            match cap.sign(&self.config.hmac_secret) {
                Ok(()) => {},
                Err(_) => {},
            }
        }
        let token = match cap.to_token() {
            Ok(t) => t,
            Err(e) => {
                return Err(e);
            },
        };
        let id = Self::capability_id(&cap);
        self.active.push(ActiveEntry { id, cap });
        Ok(token)
    }

    /// Decodes the token, recomputes its content-derived identifier, and
    /// removes every matching entry from the active set and the validation
    /// cache. Revoking a token that is unknown or already swept is not an
    /// error; only an undecodable token is rejected.
    pub fn revoke_capability(&mut self, token: &str) -> (r: Result<(), GnosError>)
        requires
            old(self).wf(),
        ensures
            final(self).wf(),
            final(self).audit@ == old(self).audit@,
            final(self).config == old(self).config,
            match r {
                Ok(()) => exists|d: CapData|
                    #[trigger] token_decodes_to(token@, d) && final(self).active@ == old(
                        self,
                    ).active@.filter(|e: ActiveEntry| e.id@ != cap_id(d)) && final(self).cache@
                        == old(self).cache@.filter(|ce: CacheEntry| cap_id(ce.cap@) != cap_id(d)),
                Err(_) => final(self).active@ == old(self).active@ && final(self).cache@ == old(
                    self,
                ).cache@,
            },
            (exists|d: CapData| #[trigger] token_decodes_to(token@, d)) ==> r matches Ok(()),
    {
        let cap = match Capability::from_token(token) {
            Ok(c) => c,
            Err(e) => {
                proof {
                    if has_token_prefix(token@) && !(forall|p: Seq<char>|
                        b64_of(p) != token_body(token@)) {
                        let p0 = choose|p: Seq<char>| b64_of(p) == token_body(token@);
                        assert forall|p: Seq<char>|
                            b64_of(p) == token_body(token@) implies parse_payload(p) is None by {
                            match parse_payload(p) {
                                Some(d) => {
                                    assert(token_decodes_to(token@, d));
                                },
                                None => {},
                            }
                        }
                        assert(parse_payload(p0) is None);
                    }
                }
                return Err(e);
            },
        };
        let id = Self::capability_id(&cap);
        let ghost oldactive = self.active@;
        let mut kept: Vec<ActiveEntry> = Vec::new();
        let mut i: usize = 0;
        proof {
            reveal(Seq::filter);
            assert(oldactive.subrange(0, 0).filter(|e: ActiveEntry| e.id@ != cap_id(cap@))
                =~= Seq::<ActiveEntry>::empty());
        }
        while i < self.active.len()
            invariant
                old(self).wf(),
                *self == *old(self),
                self.active@ == oldactive,
                id@ == cap_id(cap@),
                0 <= i <= oldactive.len(),
                kept@ == oldactive.subrange(0, i as int).filter(
                    |e: ActiveEntry| e.id@ != cap_id(cap@),
                ),
                forall|k: int|
                    0 <= k < kept@.len() ==> Self::active_entry_wf(#[trigger] kept@[k]),
            decreases oldactive.len() - i,
        {
            let keep = !str_eq(self.active[i].id.as_str(), id.as_str());
            if keep {
                let e = self.active[i].clone();
                kept.push(e);
            }
            proof {
                reveal(Seq::filter);
                let pred = |e: ActiveEntry| e.id@ != cap_id(cap@);
                assert(oldactive.subrange(0, i + 1).drop_last() =~= oldactive.subrange(
                    0,
                    i as int,
                ));
                assert(oldactive.subrange(0, i + 1).last() == oldactive[i as int]);
                assert(kept@ == oldactive.subrange(0, i + 1).filter(pred));
            }
            i = i + 1;
        }
        self.active = kept;
        proof {
            assert(oldactive.subrange(0, oldactive.len() as int) =~= oldactive);
        }
        let ghost oldcache = self.cache@;
        let mut kept_cache: Vec<CacheEntry> = Vec::new();
        let mut j: usize = 0;
        proof {
            reveal(Seq::filter);
            assert(oldcache.subrange(0, 0).filter(
                |ce: CacheEntry| cap_id(ce.cap@) != cap_id(cap@),
            ) =~= Seq::<CacheEntry>::empty());
        }
        while j < self.cache.len()
            invariant
                old(self).wf(),
                self.cache@ == oldcache,
                oldcache == old(self).cache@,
                self.config == old(self).config,
                id@ == cap_id(cap@),
                0 <= j <= oldcache.len(),
                kept_cache@ == oldcache.subrange(0, j as int).filter(
                    |ce: CacheEntry| cap_id(ce.cap@) != cap_id(cap@),
                ),
                forall|k: int|
                    0 <= k < kept_cache@.len() ==> Self::cache_entry_wf(
                        #[trigger] kept_cache@[k],
                        old(self).config.require_signatures,
                        old(self).config.hmac_secret@,
                    ),
            decreases oldcache.len() - j,
        {
            let entry_id = Self::capability_id(&self.cache[j].cap);
            let keep = !str_eq(entry_id.as_str(), id.as_str());
            if keep {
                let e = self.cache[j].clone();
                kept_cache.push(e);
            }
            proof {
                reveal(Seq::filter);
                let pred = |ce: CacheEntry| cap_id(ce.cap@) != cap_id(cap@);
                assert(oldcache.subrange(0, j + 1).drop_last() =~= oldcache.subrange(0, j as int));
                assert(oldcache.subrange(0, j + 1).last() == oldcache[j as int]);
                assert(kept_cache@ == oldcache.subrange(0, j + 1).filter(pred));
            }
            j = j + 1;
        }
        self.cache = kept_cache;
        proof {
            assert(oldcache.subrange(0, oldcache.len() as int) =~= oldcache);
        }
        Ok(())
    }

    /// Removes every active entry whose expiration has passed, and every
    /// cache entry that is expired or older than the cache lifetime,
    /// whichever strikes first.
    pub fn cleanup_expired(&mut self, now: u64)
        requires
            old(self).wf(),
        ensures
            final(self).wf(),
            final(self).audit@ == old(self).audit@,
            final(self).config == old(self).config,
            final(self).active@ == old(self).active@.filter(
                |e: ActiveEntry| now <= e.cap@.expiration,
            ),
            final(self).cache@ == old(self).cache@.filter(|ce: CacheEntry| cache_live(ce, now)),
    {
        let ghost oldactive = self.active@;
        let mut kept: Vec<ActiveEntry> = Vec::new();
        let mut i: usize = 0;
        proof {
            reveal(Seq::filter);
            assert(oldactive.subrange(0, 0).filter(|e: ActiveEntry| now <= e.cap@.expiration)
                =~= Seq::<ActiveEntry>::empty());
        }
        while i < self.active.len()
            invariant
                old(self).wf(),
                *self == *old(self),
                self.active@ == oldactive,
                0 <= i <= oldactive.len(),
                kept@ == oldactive.subrange(0, i as int).filter(
                    |e: ActiveEntry| now <= e.cap@.expiration,
                ),
                forall|k: int|
                    0 <= k < kept@.len() ==> Self::active_entry_wf(#[trigger] kept@[k]),
            decreases oldactive.len() - i,
        {
            let keep = !self.active[i].cap.is_expired(now);
            if keep {
                let e = self.active[i].clone();
                kept.push(e);
            }
            proof {
                reveal(Seq::filter);
                let pred = |e: ActiveEntry| now <= e.cap@.expiration;
                assert(oldactive.subrange(0, i + 1).drop_last() =~= oldactive.subrange(
                    0,
                    i as int,
                ));
                assert(oldactive.subrange(0, i + 1).last() == oldactive[i as int]);
                assert(kept@ == oldactive.subrange(0, i + 1).filter(pred));
            }
            i = i + 1;
        }
        self.active = kept;
        proof {
            assert(oldactive.subrange(0, oldactive.len() as int) =~= oldactive);
        }
        let ghost oldcache = self.cache@;
        let mut kept_cache: Vec<CacheEntry> = Vec::new();
        let mut j: usize = 0;
        proof {
            reveal(Seq::filter);
            assert(oldcache.subrange(0, 0).filter(|ce: CacheEntry| cache_live(ce, now))
                =~= Seq::<CacheEntry>::empty());
        }
        while j < self.cache.len()
            invariant
                old(self).wf(),
                self.cache@ == oldcache,
                oldcache == old(self).cache@,
                self.config == old(self).config,
                0 <= j <= oldcache.len(),
                kept_cache@ == oldcache.subrange(0, j as int).filter(
                    |ce: CacheEntry| cache_live(ce, now),
                ),
                forall|k: int|
                    0 <= k < kept_cache@.len() ==> Self::cache_entry_wf(
                        #[trigger] kept_cache@[k],
                        old(self).config.require_signatures,
                        old(self).config.hmac_secret@,
                    ),
            decreases oldcache.len() - j,
        {
            let e = &self.cache[j];
            let keep = !e.cap.is_expired(now) && (now <= e.cached_at || now - e.cached_at
                < CACHE_LIFE_SECS);
            if keep {
                let kc = self.cache[j].clone();
                kept_cache.push(kc);
            }
            proof {
                reveal(Seq::filter);
                let pred = |ce: CacheEntry| cache_live(ce, now);
                assert(oldcache.subrange(0, j + 1).drop_last() =~= oldcache.subrange(0, j as int));
                assert(oldcache.subrange(0, j + 1).last() == oldcache[j as int]);
                assert(kept_cache@ == oldcache.subrange(0, j + 1).filter(pred));
            }
            j = j + 1;
        }
        self.cache = kept_cache;
        proof {
            assert(oldcache.subrange(0, oldcache.len() as int) =~= oldcache);
        }
    }

    /// A snapshot copy of the audit log, oldest entry first.
    pub fn get_audit_log(&self) -> (r: Vec<AuditEntry>)
        ensures
            r@ == self.audit@,
    {
        let mut out: Vec<AuditEntry> = Vec::new();
        let mut i: usize = 0;
        while i < self.audit.len()
            invariant
                0 <= i <= self.audit@.len(),
                out@ =~= self.audit@.subrange(0, i as int),
            decreases self.audit@.len() - i,
        {
            let e = self.audit[i].clone();
            out.push(e);
            proof {
                assert(out@ =~= self.audit@.subrange(0, i + 1));
            }
            i = i + 1;
        }
        proof {
            assert(out@ =~= self.audit@);
        }
        out
    }

    /// A snapshot of the size counters: active and cached capabilities, and
    /// the audit log split into successful and failed accesses.
    pub fn get_stats(&self) -> (r: CapabilityStats)
        ensures
            r.active_capabilities == self.active@.len(),
            r.cached_capabilities == self.cache@.len(),
            r.total_audit_entries == self.audit@.len(),
            r.successful_accesses == self.audit@.filter(|e: AuditEntry| e.success).len(),
            r.failed_accesses == self.audit@.filter(|e: AuditEntry| !e.success).len(),
    {
        let mut successes: usize = 0;
        let mut failures: usize = 0;
        let mut i: usize = 0;
        proof {
            reveal(Seq::filter);
            assert(self.audit@.subrange(0, 0).filter(|e: AuditEntry| e.success)
                =~= Seq::<AuditEntry>::empty());
            assert(self.audit@.subrange(0, 0).filter(|e: AuditEntry| !e.success)
                =~= Seq::<AuditEntry>::empty());
        }
        while i < self.audit.len()
            invariant
                0 <= i <= self.audit@.len(),
                successes == self.audit@.subrange(0, i as int).filter(
                    |e: AuditEntry| e.success,
                ).len(),
                failures == self.audit@.subrange(0, i as int).filter(
                    |e: AuditEntry| !e.success,
                ).len(),
                successes + failures == i,
            decreases self.audit@.len() - i,
        {
            proof {
                reveal(Seq::filter);
                let win = self.audit@.subrange(0, i + 1);
                assert(win.drop_last() =~= self.audit@.subrange(0, i as int));
                assert(win.last() == self.audit@[i as int]);
            }
            if self.audit[i].success {
                successes = successes + 1;
            } else {
                failures = failures + 1;
            }
            i = i + 1;
        }
        proof {
            assert(self.audit@.subrange(0, self.audit@.len() as int) =~= self.audit@);
        }
        CapabilityStats {
            active_capabilities: self.active.len(),
            cached_capabilities: self.cache.len(),
            total_audit_entries: self.audit.len(),
            successful_accesses: successes,
            failed_accesses: failures,
        }
    }
}

/// After the expiry sweep, no surviving active entry is past its
/// expiration, and no surviving cache entry is expired or older than the
/// cache lifetime, independent of its own capability's expiration.
pub proof fn lemma_cleanup_sound(
    active: Seq<ActiveEntry>,
    kept_active: Seq<ActiveEntry>,
    cache: Seq<CacheEntry>,
    kept_cache: Seq<CacheEntry>,
    now: u64,
)
    requires
        kept_active == active.filter(|e: ActiveEntry| now <= e.cap@.expiration),
        kept_cache == cache.filter(|ce: CacheEntry| cache_live(ce, now)),
    ensures
        forall|i: int|
            0 <= i < kept_active.len() ==> now <= (#[trigger] kept_active[i]).cap@.expiration,
        forall|i: int| 0 <= i < kept_cache.len() ==> cache_live(#[trigger] kept_cache[i], now),
{
    broadcast use vstd::seq_lib::group_filter_ensures;

}

/// Grants are independent: revoking a capability removes exactly the entries
/// bearing its content-derived identifier, and every entry under any other
/// identifier survives the revocation.
pub proof fn lemma_revoke_independent(
    entries: Seq<ActiveEntry>,
    kept: Seq<ActiveEntry>,
    victim: CapData,
)
    requires
        kept == entries.filter(|e: ActiveEntry| e.id@ != cap_id(victim)),
    ensures
        forall|i: int| 0 <= i < kept.len() ==> (#[trigger] kept[i]).id@ != cap_id(victim),
        forall|i: int|
            0 <= i < entries.len() && entries[i].id@ != cap_id(victim) ==> kept.contains(
                #[trigger] entries[i],
            ),
{
    broadcast use vstd::seq_lib::group_filter_ensures;

}

} // verus!
