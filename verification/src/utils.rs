//! Early validation of a configured source-name filter against the fixed
//! vocabulary of recognized source names.

use vstd::prelude::*;

use crate::ast::{ParseError, ParseErrorKind};
use crate::expr::{expr_eval_spec, Expr};
use crate::strutil::strs_view;

verus! {

/// The views of the recognized source names.
pub open spec fn source_names_spec() -> Seq<Seq<char>> {
    seq![
        "MobiDBLite"@,
        "Gene3D"@,
        "ProSitePatterns"@,
        "PANTHER"@,
        "CDD"@,
        "Pfam"@,
        "SUPERFAMILY"@,
        "ProSiteProfiles"@,
        "PRINTS"@,
        "PIRSF"@,
        "TIGRFAM"@,
        "SMART"@,
        "Coils"@,
        "PIRSR"@,
        "SFLD"@,
    ]
}

/// The recognized source names, in their fixed order.
pub fn source_names() -> (r: Vec<&'static str>)
    ensures
        strs_view(r@) == source_names_spec(),
{
    let mut v: Vec<&'static str> = Vec::new();
    v.push("MobiDBLite");
    v.push("Gene3D");
    v.push("ProSitePatterns");
    v.push("PANTHER");
    v.push("CDD");
    v.push("Pfam");
    v.push("SUPERFAMILY");
    v.push("ProSiteProfiles");
    v.push("PRINTS");
    v.push("PIRSF");
    v.push("TIGRFAM");
    v.push("SMART");
    v.push("Coils");
    v.push("PIRSR");
    v.push("SFLD");
    proof {
        assert(strs_view(v@) =~= source_names_spec());
    }
    v
}

/// Rejects a source-name filter that the recognized source vocabulary,
/// taken as one tag set, does not satisfy: such a filter could never keep
/// a line.
pub fn validate_source_expr(source_expr: &Option<Expr>) -> (r: Result<(), ParseError>)
    ensures
        match source_expr {
            None => r is Ok,
            Some(e) => match expr_eval_spec(e@, source_names_spec()) {
                Ok(true) => r is Ok,
                Ok(false) => r matches Err(pe) && pe.kind == ParseErrorKind::InvalidSourceFilter,
                Err(k) => r matches Err(pe) && pe.kind == k,
            },
        },
{
    match source_expr {
        None => Ok(()),
        Some(expr) => {
            let names = source_names();
            match expr.matches(names.as_slice()) {
                Err(e) => Err(e),
                Ok(true) => Ok(()),
                Ok(false) => Err(ParseError::new(ParseErrorKind::InvalidSourceFilter)),
            }
        },
    }
}

} // verus!
