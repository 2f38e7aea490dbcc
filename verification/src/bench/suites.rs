//! The cipher suites of the TLS implementation.

use rustls::SupportedCipherSuite;
use vstd::prelude::*;

use super::names::CipherSuite;

verus! {

/// A cipher suite that `rustls` implements.
#[verifier::external_type_specification]
#[verifier::external_body]
pub struct ExSupportedCipherSuite(rustls::SupportedCipherSuite);

/// `SupportedCipherSuite::suite`: the number that identifies the suite in a handshake.
pub uninterp spec fn suite_id(suite: SupportedCipherSuite) -> u16;

/// `TLS13_AES_128_GCM_SHA256` of the `ring` provider, which has the number 0x1301.
#[verifier::external_body]
fn tls13_aes_128_gcm_sha256() -> (suite: SupportedCipherSuite)
    ensures
        suite_id(suite) == 0x1301,
{
    rustls::crypto::ring::cipher_suite::TLS13_AES_128_GCM_SHA256
}

/// `TLS13_AES_256_GCM_SHA384` of the `ring` provider, which has the number 0x1302.
#[verifier::external_body]
fn tls13_aes_256_gcm_sha384() -> (suite: SupportedCipherSuite)
    ensures
        suite_id(suite) == 0x1302,
{
    rustls::crypto::ring::cipher_suite::TLS13_AES_256_GCM_SHA384
}

/// `TLS13_CHACHA20_POLY1305_SHA256` of the `ring` provider, which has the number 0x1303.
#[verifier::external_body]
fn tls13_chacha20_poly1305_sha256() -> (suite: SupportedCipherSuite)
    ensures
        suite_id(suite) == 0x1303,
{
    rustls::crypto::ring::cipher_suite::TLS13_CHACHA20_POLY1305_SHA256
}

impl CipherSuite {
    /// The number that identifies the suite in a TLS 1.3 handshake.
    pub open spec fn tls13_id(self) -> u16 {
        match self {
            CipherSuite::Aes128 => 0x1301,
            CipherSuite::Aes256 => 0x1302,
            CipherSuite::Chacha20 => 0x1303,
        }
    }

    /// The implementation of the suite.
    pub fn as_rustls(self) -> (suite: SupportedCipherSuite)
        ensures
            suite_id(suite) == self.tls13_id(),
    {
        match self {
            CipherSuite::Aes128 => tls13_aes_128_gcm_sha256(),
            CipherSuite::Aes256 => tls13_aes_256_gcm_sha384(),
            CipherSuite::Chacha20 => tls13_chacha20_poly1305_sha256(),
        }
    }
}

/// Each choice is the TLS 1.3 suite of that name, by the number that the standard gives it.
pub proof fn law_suites_have_their_numbers(choice: CipherSuite, suite: SupportedCipherSuite)
    requires
        call_ensures(CipherSuite::as_rustls, (choice,), suite),
    ensures
        suite_id(suite) == 0x1301 <==> choice == CipherSuite::Aes128,
        suite_id(suite) == 0x1302 <==> choice == CipherSuite::Aes256,
        suite_id(suite) == 0x1303 <==> choice == CipherSuite::Chacha20,
{
}

} // verus!
