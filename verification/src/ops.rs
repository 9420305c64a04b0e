//! Command-line rules that do not touch a database: how operations are
//! classed for the production/staging split, and the `--detail` option.
use vstd::prelude::*;
use crate::diff::DiffDetail;
use crate::records::parsed_u64;
use crate::text::push_str;
use crate::types::str_eq;

verus! {

/// How an operation may run.
#[derive(Debug, Clone, Copy, PartialEq, Eq, Structural)]
pub enum OpClass {
    /// Changes nothing; allowed on production (read-only) and staging.
    Read,
    /// Changes data; runs on staging and reaches production by promote.
    StgPermitted,
    /// Irreversible; refused on staging, run on production behind a dry
    /// run, the trash and a pre-stash copy.
    StgRestricted,
}

/// Operations refused on staging.
pub open spec fn is_restricted_op(op: Seq<char>) -> bool {
    op == "mediaMv"@
        || op == "purgeTrash"@
        || op == "restore"@
}

/// Operations that change data and run on staging.
pub open spec fn is_permitted_op(op: Seq<char>) -> bool {
    op == "migrate"@
        || op == "createMedia"@
        || op == "updateMedia"@
        || op == "deleteMedia"@
        || op == "bulkCreateMedia"@
        || op == "bulkDeleteMedia"@
        || op == "bulkUpdateMedia"@
        || op == "createTag"@
        || op == "addTagToMedia"@
        || op == "removeTagFromMedia"@
        || op == "setMediaAttribute"@
        || op == "deleteMediaAttribute"@
        || op == "deleteAllMediaAttributes"@
        || op == "updateExist"@
        || op == "checkThumbnail"@
        || op == "updateThumbnail"@
        || op == "addMediaHash"@
        || op == "addMediaHashes"@
        || op == "deleteMediaHash"@
        || op == "deleteMediaHashes"@
        || op == "computeMediaHash"@
        || op == "computeMediaHashes"@
        || op == "backup"@
        || op == "promote"@
        || op == "setBackupLabel"@
        || op == "setBackupNote"@
        || op == "mediaCp"@
        || op == "mediaSync"@
        || op == "moveToTrash"@
        || op == "restoreFromTrash"@
}

/// The class of operation `op`; unknown names read.
pub fn classify_operation(op: &str) -> (r: OpClass)
    ensures
        r == (if is_restricted_op(op@) {
            OpClass::StgRestricted
        } else if is_permitted_op(op@) {
            OpClass::StgPermitted
        } else {
            OpClass::Read
        }),
{
    if str_eq(op, "mediaMv")
        || str_eq(op, "purgeTrash")
        || str_eq(op, "restore") {
        return OpClass::StgRestricted;
    }
    if str_eq(op, "migrate")
        || str_eq(op, "createMedia")
        || str_eq(op, "updateMedia")
        || str_eq(op, "deleteMedia")
        || str_eq(op, "bulkCreateMedia")
        || str_eq(op, "bulkDeleteMedia")
        || str_eq(op, "bulkUpdateMedia")
        || str_eq(op, "createTag")
        || str_eq(op, "addTagToMedia")
        || str_eq(op, "removeTagFromMedia")
        || str_eq(op, "setMediaAttribute")
        || str_eq(op, "deleteMediaAttribute")
        || str_eq(op, "deleteAllMediaAttributes")
        || str_eq(op, "updateExist")
        || str_eq(op, "checkThumbnail")
        || str_eq(op, "updateThumbnail")
        || str_eq(op, "addMediaHash")
        || str_eq(op, "addMediaHashes")
        || str_eq(op, "deleteMediaHash")
        || str_eq(op, "deleteMediaHashes")
        || str_eq(op, "computeMediaHash")
        || str_eq(op, "computeMediaHashes")
        || str_eq(op, "backup")
        || str_eq(op, "promote")
        || str_eq(op, "setBackupLabel")
        || str_eq(op, "setBackupNote")
        || str_eq(op, "mediaCp")
        || str_eq(op, "mediaSync")
        || str_eq(op, "moveToTrash")
        || str_eq(op, "restoreFromTrash") {
        return OpClass::StgPermitted;
    }
    OpClass::Read
}

/// The value of a text as `str::parse::<usize>` reads it.
pub open spec fn parsed_usize(s: Seq<char>) -> Option<usize> {
    match parsed_u64(s) {
        Some(v) => if v <= usize::MAX { Some(v as usize) } else { None },
        None => None,
    }
}

/// Message of a `limited=` value that is not a number.
pub open spec fn bad_limit_text(n: Seq<char>) -> Seq<char> {
    "無効な limited 値です: "@ + n + " (数値を指定してください)"@
}

/// Message of an unknown `--detail` value.
pub open spec fn bad_detail_text(s: Seq<char>) -> Seq<char> {
    "無効な --detail 値です: "@ + s + " (summary | limited=N | full のいずれかを指定してください)"@
}

/// The level of detail named by `--detail`: `summary`, `full` or
/// `limited=N`; anything else is an error.
pub fn parse_diff_detail(s: &str) -> (r: Result<DiffDetail, String>)
    ensures
        s@ == "summary"@ ==> r == Ok::<DiffDetail, String>(DiffDetail::SummaryOnly),
        s@ == "full"@ ==> r == Ok::<DiffDetail, String>(DiffDetail::Full),
        s@ != "summary"@ && s@ != "full"@ ==> {
            let p = "limited="@;
            if s@.len() >= p.len() && s@.take(p.len() as int) == p {
                let n = s@.skip(p.len() as int);
                match parsed_usize(n) {
                    Some(v) => r == Ok::<DiffDetail, String>(DiffDetail::Limited { n: v }),
                    None => r matches Err(m) && m@ == bad_limit_text(n),
                }
            } else {
                r matches Err(m) && m@ == bad_detail_text(s@)
            }
        },
{
    proof {
        reveal_strlit("summary");
        reveal_strlit("full");
    }
    if str_eq(s, "summary") {
        return Ok(DiffDetail::SummaryOnly);
    }
    if str_eq(s, "full") {
        return Ok(DiffDetail::Full);
    }
    proof {
        reveal_strlit("limited=");
    }
    let cs = crate::records::chars_of(s);
    let pre = crate::records::chars_of("limited=");
    if crate::records::prefix_is(&cs, &pre) {
        let n = crate::records::string_of(&cs, 8, cs.len());
        assert(n@ =~= s@.skip(8));
        let parsed = crate::records::parse_size(n.as_str());
        let ok = match parsed {
            Some(v) => v <= usize::MAX as u64,
            None => false,
        };
        if ok {
            let v = parsed.unwrap();
            Ok(DiffDetail::Limited { n: v as usize })
        } else {
            let mut m = String::new();
            push_str(&mut m, "無効な limited 値です: ");
            push_str(&mut m, n.as_str());
            push_str(&mut m, " (数値を指定してください)");
            Err(m)
        }
    } else {
        let mut m = String::new();
        push_str(&mut m, "無効な --detail 値です: ");
        push_str(&mut m, s);
        push_str(&mut m, " (summary | limited=N | full のいずれかを指定してください)");
        Err(m)
    }
}

} // verus!
