//! Synthesis and validation of checksum-correct structured identifiers:
//! IBANs, bank account numbers, personal numbers, company and VAT numbers,
//! payment card numbers and SWIFT codes.
//!
//! Every identifier that is generated here is proved to pass the validation
//! of its own kind. Nothing says that an identifier was ever issued to
//! anybody: only its structure and its check digits are looked at.
//!
//! The functions are verified against the contracts written on them. The
//! contracts speak of character sequences (`Seq<char>`, the view of `str` and
//! `String`) and of digit sequences (`Seq<u8>` whose items are below ten).
//! What is taken on trust is named as such where it stands: the draws from
//! the caller's random source in `random`, and `String::push` in `text`.
//!
//! The modules, leaves first:
//! - `text`, `checksum`, `random`, `listing`, `grouping`: characters and
//!   digits, the check-digit algorithms, the random draws, country lists,
//!   and formatting in groups;
//! - `format`, `catalog`: codes described by fields, and catalogs of such
//!   descriptions by country;
//! - `iban`, `bank_account`, `personal_id`, `company_id`, `credit_card`,
//!   `swift`: the kinds of identifier.

pub mod text;
pub mod checksum;
pub mod random;
pub mod listing;
pub mod grouping;
pub mod format;
pub mod catalog;
pub mod iban;
pub mod bank_account;
pub mod personal_id;
pub mod company_id;
pub mod credit_card;
pub mod swift;

use vstd::prelude::*;

verus! {

/// A catalog of bank accounts, built anew for the caller to own.
pub fn bank_accounts() -> (r: bank_account::Registry)
    ensures
        bank_account::is_bank_catalog(r.catalog()),
{
    bank_account::Registry::new()
}

/// A catalog of personal numbers, built anew for the caller to own.
pub fn personal_ids() -> (r: personal_id::Registry)
    ensures
        personal_id::is_id_catalog(r.catalog()),
{
    personal_id::Registry::new()
}

/// A catalog of payment cards, built anew for the caller to own.
pub fn credit_cards() -> (r: credit_card::Registry)
    ensures
        r == credit_card::Registry,
{
    credit_card::Registry::new()
}

/// A catalog of company identifiers, built anew for the caller to own.
pub fn company_ids() -> (r: company_id::Registry)
    ensures
        r.listed() == company_id::generic::generic_table(),
{
    company_id::Registry::new()
}

/// A catalog of SWIFT codes, built anew for the caller to own.
pub fn swift_codes() -> (r: swift::Registry)
    ensures
        r == swift::Registry,
{
    swift::Registry::new()
}

} // verus!
