//! Client-side ledger helpers: the attribute a ledger server advertises
//! and symbol resolution over the `ledger.info` answer.

use vstd::prelude::*;
use vstd::string::StringSliceAdditionalSpecFns;

use crate::error::ManyError;
use crate::identity::{bytes_eq, Identity};

verus! {

/// The attribute id a ledger server advertises.
pub const LEDGER_MODULE_ATTRIBUTE_ID: u32 = 2;

/// The `ledger.info` answer: token identities with their local symbol
/// names.
#[derive(Debug)]
pub struct LedgerInfoReturns {
    pub local_names: Vec<(Identity, Vec<u8>)>,
}

/// Whether an attribute list contains an id.
pub fn has_attribute(attrs: &Vec<u32>, id: u32) -> (r: bool)
    ensures
        r == (exists|i: int| 0 <= i < attrs@.len() && attrs@[i] == id),
{
    let mut i: usize = 0;
    while i < attrs.len()
        invariant
            i <= attrs.len(),
            forall|j: int| 0 <= j < i ==> attrs@[j] != id,
        decreases attrs.len() - i,
    {
        if attrs[i] == id {
            return true;
        }
        i = i + 1;
    }
    false
}

/// The first token whose symbol equals `symbol`, if any.
pub fn find_symbol(info: &LedgerInfoReturns, symbol: &Vec<u8>) -> (r: Option<Identity>)
    ensures
        match r {
            Some(id) => exists|i: int|
                0 <= i < info.local_names@.len() && #[trigger] info.local_names@[i].1@ == symbol@
                    && info.local_names@[i].0@ == id@,
            None => forall|i: int|
                0 <= i < info.local_names@.len() ==> #[trigger] info.local_names@[i].1@ != symbol@,
        },
{
    let mut i: usize = 0;
    while i < info.local_names.len()
        invariant
            i <= info.local_names.len(),
            forall|j: int| 0 <= j < i ==> #[trigger] info.local_names@[j].1@ != symbol@,
        decreases info.local_names.len() - i,
    {
        if bytes_eq(&info.local_names[i].1, symbol) {
            let id = info.local_names[i].0.dup();
            proof {
                assert(info.local_names@[i as int].1@ == symbol@ && info.local_names@[i as int].0@
                    == id@);
            }
            return Some(id);
        }
        i = i + 1;
    }
    None
}

/// Resolves a symbol to its token identity; fails with the
/// symbol-not-found error exactly when no token carries the symbol.
pub fn get_token_id(info: &LedgerInfoReturns, symbol: &str) -> (r: Result<Identity, ManyError>)
    ensures
        match r {
            Ok(id) => exists|i: int|
                0 <= i < info.local_names@.len() && #[trigger] info.local_names@[i].1@
                    == symbol.spec_bytes() && info.local_names@[i].0@ == id@,
            Err(e) => e.code == crate::error::CODE_SYMBOL_NOT_FOUND && (forall|i: int|
                0 <= i < info.local_names@.len() ==> #[trigger] info.local_names@[i].1@
                    != symbol.spec_bytes()),
        },
{
    let sym = symbol.as_bytes_vec();
    match find_symbol(info, &sym) {
        Some(id) => Ok(id),
        None => Err(ManyError::symbol_not_found()),
    }
}

} // verus!
