//! The instance configuration: the box hostname, the Git provider name,
//! and the shared API secret, stored base64-encoded.

use base64::Engine;
use vstd::prelude::*;
use vstd::string::StringSliceAdditionalSpecFns;

use crate::bytes::push_all;

verus! {

/// What the standard-alphabet base64 decoder yields for an input: a
/// function of the input bytes alone.
pub uninterp spec fn base64_standard_decode(s: Seq<u8>) -> Option<Seq<u8>>;

/// Relies on base64's `Engine::decode` with the `STANDARD`
/// general-purpose engine: decoding is a function of the input alone,
/// and fails exactly on inputs that are not valid standard base64.
#[verifier::external_body]
fn decode_base64(input: &Vec<u8>) -> (r: Option<Vec<u8>>)
    ensures
        match r {
            Some(v) => base64_standard_decode(input@) == Some(v@),
            None => base64_standard_decode(input@) is None,
        },
{
    base64::engine::general_purpose::STANDARD.decode(input).ok()
}

/// The instance configuration.
#[derive(Clone, Debug)]
pub struct Conf {
    /// The wildcard DNS zone this installation owns.
    pub hostname: Vec<u8>,
    /// The Git provider this installation talks to.
    pub provider: Vec<u8>,
    /// The shared secret as stored, base64-encoded.
    pub encoded_secret: Vec<u8>,
    /// The decoded shared secret.
    pub secret: Vec<u8>,
}

/// A configuration whose stored secret is not valid base64.
#[derive(Clone, Copy, Debug, PartialEq, Eq, Structural)]
pub struct InvalidSecret;

impl Conf {
    /// Assembles the configuration from its stored fields, decoding the
    /// secret. Fails exactly when the stored secret is not valid base64.
    pub fn from_parts(hostname: Vec<u8>, provider: Vec<u8>, secret: Vec<u8>) -> (r: Result<
        Conf,
        InvalidSecret,
    >)
        ensures
            match r {
                Ok(c) => {
                    &&& c.hostname@ == hostname@
                    &&& c.provider@ == provider@
                    &&& c.encoded_secret@ == secret@
                    &&& base64_standard_decode(secret@) == Some(c.secret@)
                },
                Err(_) => base64_standard_decode(secret@) is None,
            },
    {
        match decode_base64(&secret) {
            Some(decoded) => Ok(
                Conf { hostname, provider, encoded_secret: secret, secret: decoded },
            ),
            None => Err(InvalidSecret),
        }
    }

    /// The hostname the management API answers under:
    /// `--api--.{hostname}`.
    pub fn api_hostname(&self) -> (r: Vec<u8>)
        ensures
            r@ == ("--api--.").spec_bytes() + self.hostname@,
    {
        let mut out = crate::bytes::to_vec("--api--.".as_bytes());
        push_all(&mut out, self.hostname.as_slice());
        out
    }

    /// The wildcard domain the default certificate covers:
    /// `*.{hostname}`.
    pub fn wildcard_domain(&self) -> (r: Vec<u8>)
        ensures
            r@ == ("*.").spec_bytes() + self.hostname@,
    {
        let mut out = crate::bytes::to_vec("*.".as_bytes());
        push_all(&mut out, self.hostname.as_slice());
        out
    }
}

} // verus!
