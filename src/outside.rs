use vstd::prelude::*;
use near_vm_logic::mocks::mock_external::MockedExternal;
use near_vm_logic::External;
use near_vm_logic::VMConfig;

verus! {

/// The SHA-256 digest of `data`.
pub uninterp spec fn sha256_of(data: Seq<u8>) -> Seq<u8>;

/// Whether `bytes` are well-formed UTF-8.
pub uninterp spec fn utf8_ok(bytes: Seq<u8>) -> bool;

/// The UTF-8 bytes of the text that the UTF-16 code units `units` encode, or
/// `None` when they are not well-formed UTF-16.
pub uninterp spec fn utf16_decoded(units: Seq<u16>) -> Option<Seq<u8>>;

/// Relies on near_vm_logic's `MockedExternal::sha256`, which hashes with
/// sha2's `Sha256::digest` and always returns `Ok`: a 32-byte digest that
/// depends on the bytes alone.
#[verifier::external_body]
pub(crate) fn sha256(data: &[u8]) -> (r: Vec<u8>)
    ensures
        r@ == sha256_of(data@),
        r@.len() == 32,
{
    match MockedExternal::new().sha256(data) {
        Ok(digest) => digest,
        Err(_) => Vec::new(),
    }
}

/// Relies on `std::str::from_utf8`: it accepts exactly the well-formed UTF-8
/// byte strings.
#[verifier::external_body]
pub(crate) fn is_utf8(bytes: &[u8]) -> (r: bool)
    ensures
        r == utf8_ok(bytes@),
{
    std::str::from_utf8(bytes).is_ok()
}

/// Relies on near_vm_logic's `VMConfig::free`: a regular operation costs no
/// gas, and the burnt-gas limits for ordinary and view calls are both
/// `u64::MAX`. Returns `(regular_op_cost, max_gas_burnt, max_gas_burnt_view)`.
#[verifier::external_body]
pub(crate) fn free_gas_config() -> (r: (u32, u64, u64))
    ensures
        r == (0u32, u64::MAX, u64::MAX),
{
    let c = VMConfig::free();
    (c.regular_op_cost, c.limit_config.max_gas_burnt, c.limit_config.max_gas_burnt_view)
}

/// Relies on `String::from_utf16`: it decodes exactly the well-formed UTF-16
/// unit strings; the text is handed back as its UTF-8 bytes.
#[verifier::external_body]
pub(crate) fn utf16_to_utf8(units: &[u16]) -> (r: Option<Vec<u8>>)
    ensures
        r matches Some(v) ==> utf16_decoded(units@) == Some(v@),
        r is None ==> utf16_decoded(units@) is None,
{
    match String::from_utf16(units) {
        Ok(s) => Some(s.into_bytes()),
        Err(_) => None,
    }
}

/// Relies on near_vm_logic's `VMConfig::default`: a regular operation costs
/// 3856371 gas, and the burnt-gas limits for ordinary and view calls are
/// both `2 * 10^14`. Returns `(regular_op_cost, max_gas_burnt,
/// max_gas_burnt_view)`.
#[verifier::external_body]
pub(crate) fn default_gas_config() -> (r: (u32, u64, u64))
    ensures
        r == (3856371u32, 200_000_000_000_000u64, 200_000_000_000_000u64),
{
    let c = VMConfig::default();
    (c.regular_op_cost, c.limit_config.max_gas_burnt, c.limit_config.max_gas_burnt_view)
}

} // verus!
