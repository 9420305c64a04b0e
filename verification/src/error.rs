use vstd::prelude::*;
use crate::text::push_str;

verus! {

/// Error type of the library.
///
/// Errors that carry a value of a database driver, of the I/O layer or of an
/// HTTP client are held as their message text.
#[derive(Debug)]
pub enum KijukuError {
    /// Database driver error (message text).
    Database(String),
    /// I/O error (message text).
    Io(String),
    /// The requested item does not exist.
    NotFound(String),
    /// Input failed validation.
    Validation(String),
    /// Parse or conversion error.
    Parse(String),
    /// Any other error.
    Other(String),
    /// HTTP error (message text).
    Http(String),
    /// Error reported by the D1 REST API.
    D1(String),
    /// Operation not supported by the backend.
    NotSupported(String),
    /// The staging database is locked by another session.
    StgBusy { stg_path: String, holder_pid: Option<u32> },
    /// The production database is locked by another session.
    ProdBusy { prod_path: String, holder_pid: Option<u32> },
    /// The promote gate failed; `failed_checks` lists `name: detail` entries.
    PromoteGateFailed { failed_checks: Vec<String> },
}

/// Result type of the library.
pub type Result<T> = core::result::Result<T, KijukuError>;

/// Texts joined with `sep`.
pub open spec fn joined(s: Seq<Seq<char>>, sep: Seq<char>) -> Seq<char>
    decreases s.len(),
{
    if s.len() == 0 {
        Seq::empty()
    } else if s.len() == 1 {
        s[0]
    } else {
        joined(s.drop_last(), sep) + sep + s.last()
    }
}

/// The message of an error.
pub open spec fn error_text(e: KijukuError) -> Seq<char> {
    match e {
        KijukuError::Database(m) => "Database error: "@ + m@,
        KijukuError::Io(m) => "IO error: "@ + m@,
        KijukuError::NotFound(m) => "Not found: "@ + m@,
        KijukuError::Validation(m) => "Validation error: "@ + m@,
        KijukuError::Parse(m) => "Parse error: "@ + m@,
        KijukuError::Other(m) => "Error: "@ + m@,
        KijukuError::Http(m) => "HTTP error: "@ + m@,
        KijukuError::D1(m) => "D1 error: "@ + m@,
        KijukuError::NotSupported(m) => "Not supported: "@ + m@,
        KijukuError::StgBusy { stg_path, .. } => "Stg is busy (locked by another session): "@ + stg_path@,
        KijukuError::ProdBusy { prod_path, .. } => "Prod is busy (locked by another promote/admin session): "@ + prod_path@,
        KijukuError::PromoteGateFailed { failed_checks } =>
            "Promote gate failed (prod not touched): "@ + joined(failed_checks@.map_values(|c: String| c@), "; "@),
    }
}

fn prefixed(p: &str, m: &String) -> (r: String)
    ensures
        r@ == p@ + m@,
{
    let mut s = String::new();
    push_str(&mut s, p);
    push_str(&mut s, m.as_str());
    assert(s@ =~= p@ + m@);
    s
}

impl KijukuError {
    /// The message of the error.
    pub fn message(&self) -> (r: String)
        ensures
            r@ == error_text(*self),
    {
        match self {
            KijukuError::Database(m) => prefixed("Database error: ", m),
            KijukuError::Io(m) => prefixed("IO error: ", m),
            KijukuError::NotFound(m) => prefixed("Not found: ", m),
            KijukuError::Validation(m) => prefixed("Validation error: ", m),
            KijukuError::Parse(m) => prefixed("Parse error: ", m),
            KijukuError::Other(m) => prefixed("Error: ", m),
            KijukuError::Http(m) => prefixed("HTTP error: ", m),
            KijukuError::D1(m) => prefixed("D1 error: ", m),
            KijukuError::NotSupported(m) => prefixed("Not supported: ", m),
            KijukuError::StgBusy { stg_path, .. } => prefixed("Stg is busy (locked by another session): ", stg_path),
            KijukuError::ProdBusy { prod_path, .. } =>
                prefixed("Prod is busy (locked by another promote/admin session): ", prod_path),
            KijukuError::PromoteGateFailed { failed_checks } => {
                let ghost cv = failed_checks@.map_values(|c: String| c@);
                let mut s = String::new();
                push_str(&mut s, "Promote gate failed (prod not touched): ");
                let ghost head = s@;
                let mut i: usize = 0;
                while i < failed_checks.len()
                    invariant
                        cv == failed_checks@.map_values(|c: String| c@),
                        i <= failed_checks@.len(),
                        s@ == head + joined(cv.take(i as int), "; "@),
                    decreases failed_checks@.len() - i,
                {
                    if i > 0 {
                        push_str(&mut s, "; ");
                    }
                    push_str(&mut s, failed_checks[i].as_str());
                    proof {
                        let t = cv.take(i + 1);
                        assert(t.drop_last() =~= cv.take(i as int));
                        assert(t.last() == failed_checks@[i as int]@);
                        if i == 0 {
                            assert(cv.take(0) =~= Seq::<Seq<char>>::empty());
                        }
                        assert(s@ =~= head + joined(t, "; "@));
                    }
                    i = i + 1;
                }
                assert(cv.take(cv.len() as int) =~= cv);
                s
            },
        }
    }
}

/// The message of an `Other` error.
pub open spec fn other_text(e: KijukuError) -> Option<Seq<char>> {
    match e {
        KijukuError::Other(m) => Some(m@),
        _ => None,
    }
}

/// An `Other` error with message `s`.
pub fn other_error(s: String) -> (e: KijukuError)
    ensures
        other_text(e) == Some(s@),
{
    KijukuError::Other(s)
}

} // verus!
