//! Checks of the texts that stand for keys, hashes and signatures.
use crate::error;
use crate::error::Error;
use crate::hex;
use crate::text;
use vstd::prelude::*;
use vstd::string::*;

verus! {

/// A text of exactly `count` bytes in hexadecimal, or why not.
pub open spec fn bytes_check(value: Seq<char>, count: nat, context: Seq<char>) -> Result<(), Seq<char>> {
    match hex::exact_bytes_of(value, count) {
        Ok(_) => Ok(()),
        Err(e) => Err(error::in_context(context, e)),
    }
}

pub open spec fn address_check(address: Seq<char>, label: Seq<char>) -> Result<(), Seq<char>> {
    bytes_check(address, 32, "invalid "@ + label + " address"@)
}

pub open spec fn hash_check(hash: Seq<char>, label: Seq<char>) -> Result<(), Seq<char>> {
    bytes_check(hash, 32, "invalid "@ + label)
}

pub open spec fn signature_check(signature: Seq<char>, label: Seq<char>) -> Result<(), Seq<char>> {
    bytes_check(signature, 64, "invalid "@ + label)
}

pub open spec fn stratum_header_check(header: Seq<char>) -> Result<(), Seq<char>> {
    bytes_check(header, 80, "invalid mine transaction proof header"@)
}

/// A transaction id has 32 or 64 bytes.
pub open spec fn protocol_id_check(value: Seq<char>, label: Seq<char>) -> Result<(), Seq<char>> {
    match hex::bytes_of(value) {
        Err(e) => Err(error::in_context("invalid "@ + label, e)),
        Ok(b) => if b.len() == 32 || b.len() == 64 {
            Ok(())
        } else {
            Err("invalid "@ + label + ": expected 32 or 64 bytes, got "@ + text::decimal(b.len()))
        },
    }
}

/// A text of exactly `count` bytes in hexadecimal.
pub fn validate_bytes(value: &str, count: usize, context: &str) -> (r: Result<(), Error>)
    ensures
        error::outcome(r) == bytes_check(value@, count as nat, context@),
{
    match hex::decode_hex_array(value, count) {
        Ok(_) => Ok(()),
        Err(e) => Err(e.context(context)),
    }
}

pub fn validate_address(address: &str, label: &str) -> (r: Result<(), Error>)
    ensures
        error::outcome(r) == address_check(address@, label@),
{
    let mut context = text::text("invalid ");
    context.append(label);
    context.append(" address");
    validate_bytes(address, 32, context.as_str())
}

pub fn validate_hash(hash: &str, label: &str) -> (r: Result<(), Error>)
    ensures
        error::outcome(r) == hash_check(hash@, label@),
{
    let mut context = text::text("invalid ");
    context.append(label);
    validate_bytes(hash, 32, context.as_str())
}

pub fn validate_signature(signature: &str, label: &str) -> (r: Result<(), Error>)
    ensures
        error::outcome(r) == signature_check(signature@, label@),
{
    let mut context = text::text("invalid ");
    context.append(label);
    validate_bytes(signature, 64, context.as_str())
}

pub fn validate_stratum_header(header: &str) -> (r: Result<(), Error>)
    ensures
        error::outcome(r) == stratum_header_check(header@),
{
    validate_bytes(header, 80, "invalid mine transaction proof header")
}

pub fn validate_protocol_id(value: &str, label: &str) -> (r: Result<(), Error>)
    ensures
        error::outcome(r) == protocol_id_check(value@, label@),
{
    let mut context = text::text("invalid ");
    context.append(label);
    match hex::decode_hex(value) {
        Err(e) => Err(e.context(context.as_str())),
        Ok(bytes) => {
            if bytes.len() == 32 || bytes.len() == 64 {
                Ok(())
            } else {
                context.append(": expected 32 or 64 bytes, got ");
                text::push_decimal(&mut context, bytes.len() as u128);
                Err(Error::of(context))
            }
        },
    }
}

} // verus!
