use vstd::prelude::*;

use crate::errors::OracleError;
use crate::strutil::str_eq;

verus! {

/// Settle a generic-procedure response. An explicit protocol-level error
/// field wins over everything else; a response with neither error nor
/// result is an error of its own; otherwise the result is handed out.
pub fn resolve_rpc_response<T>(result: Option<T>, error: Option<String>) -> (r: Result<
    T,
    OracleError,
>)
    ensures
        match error {
            Some(msg) => r matches Err(OracleError::Rpc(m)) && m@ == msg@,
            None => match result {
                Some(v) => r matches Ok(x) && x == v,
                None => r matches Err(e) && e is NoResult,
            },
        },
{
    match error {
        Some(msg) => Err(OracleError::Rpc(msg)),
        None => match result {
            Some(v) => Ok(v),
            None => Err(OracleError::NoResult),
        },
    }
}

/// Settle a batch-transaction response: the status field must equal the
/// success marker, and a missing transaction list stands for an empty one.
pub fn accept_tx_batch<T>(status: String, txs: Option<Vec<T>>) -> (r: Result<Vec<T>, OracleError>)
    ensures
        match r {
            Ok(v) => status@ == "OK"@ && (match txs {
                Some(t) => v == t,
                None => v@.len() == 0,
            }),
            Err(e) => status@ != "OK"@ && (e matches OracleError::BadStatus(m) && m@ == status@),
        },
{
    if str_eq(status.as_str(), "OK") {
        match txs {
            Some(t) => Ok(t),
            None => Ok(Vec::new()),
        }
    } else {
        Err(OracleError::BadStatus(status))
    }
}

} // verus!
