//! The audit log of operations that touch production: its operation names,
//! targets and results, and the filter by which entries are listed.
use vstd::prelude::*;
use crate::tally::{TallyKey, text_rank};
use crate::order::{lex_lt, KeyOrder};
use crate::types::str_eq;

verus! {

/// Copying production to staging, or discarding staging and copying again.
#[derive(Debug, Clone, Copy, PartialEq, Eq, Structural)]
pub enum SyncOp {
    Sync,
    Discard,
}

impl SyncOp {
    /// The operation name written to the audit log.
    pub fn as_str(&self) -> (r: &'static str)
        ensures
            r@ == (match self { SyncOp::Sync => "sync"@, SyncOp::Discard => "discard"@ }),
    {
        match self {
            SyncOp::Sync => "sync",
            SyncOp::Discard => "discard",
        }
    }
}

/// The database an audited operation worked on.
#[derive(Debug, Clone, Copy, PartialEq, Eq, Structural)]
pub enum AuditTarget {
    Prod,
    Stg,
}

/// Outcome of an audited operation.
#[derive(Debug, Clone, Copy, PartialEq, Eq, Structural)]
pub enum AuditResult {
    Success,
    Failure,
    DryRun,
}

/// Which audit entries to list: an exact operation name, a time range
/// (ISO 8601 texts, both ends included, compared as text) and a count limit.
pub struct AuditLogFilter {
    pub operation: Option<String>,
    pub from: Option<String>,
    pub to: Option<String>,
    pub limit: Option<usize>,
}

impl Default for AuditLogFilter {
    fn default() -> (r: Self)
        ensures
            r.operation is None,
            r.from is None,
            r.to is None,
            r.limit is None,
    {
        AuditLogFilter { operation: None, from: None, to: None, limit: None }
    }
}

/// Text `a` sorts no later than text `b` (byte-wise).
pub open spec fn text_le(a: Seq<char>, b: Seq<char>) -> bool {
    a == b || lex_lt(text_rank(a), text_rank(b))
}

impl AuditLogFilter {
    /// Limit when none is given.
    pub const DEFAULT_LIMIT: usize = 1000;
    /// Largest limit.
    pub const MAX_LIMIT: usize = 10_000;

    /// The number of entries to list: the given limit (1000 when absent),
    /// at most 10000.
    pub fn effective_limit(&self) -> (r: usize)
        ensures
            r == (match self.limit {
                Some(l) => if l > 10_000 { 10_000 } else { l },
                None => 1000,
            }),
    {
        let l = match self.limit {
            Some(l) => l,
            None => Self::DEFAULT_LIMIT,
        };
        if l > Self::MAX_LIMIT { Self::MAX_LIMIT } else { l }
    }

    /// An entry with this time and operation passes the filter.
    pub fn accepts(&self, timestamp: &String, operation: &str) -> (r: bool)
        ensures
            r == ((match self.operation { Some(o) => o@ == operation@, None => true })
                && (match self.from { Some(f) => text_le(f@, timestamp@), None => true })
                && (match self.to { Some(t) => text_le(timestamp@, t@), None => true })),
    {
        let op_ok = match &self.operation {
            Some(o) => str_eq(o.as_str(), operation),
            None => true,
        };
        let from_ok = match &self.from {
            Some(f) => f.compare(timestamp) != KeyOrder::Greater,
            None => true,
        };
        let to_ok = match &self.to {
            Some(t) => timestamp.compare(t) != KeyOrder::Greater,
            None => true,
        };
        proof {
            if self.from is Some {
                crate::order::lemma_lex_lt_total(text_rank(self.from->0@), text_rank(timestamp@));
                <String as TallyKey>::lemma_rank_key_injective(self.from->0@, timestamp@);
                if lex_lt(text_rank(timestamp@), text_rank(self.from->0@)) {
                    crate::order::lemma_lex_lt_asymmetric(text_rank(timestamp@), text_rank(self.from->0@));
                }
            }
            if self.to is Some {
                crate::order::lemma_lex_lt_total(text_rank(self.to->0@), text_rank(timestamp@));
                <String as TallyKey>::lemma_rank_key_injective(self.to->0@, timestamp@);
                if lex_lt(text_rank(self.to->0@), text_rank(timestamp@)) {
                    crate::order::lemma_lex_lt_asymmetric(text_rank(self.to->0@), text_rank(timestamp@));
                }
            }
        }
        op_ok && from_ok && to_ok
    }
}

} // verus!
