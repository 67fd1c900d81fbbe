//! The parts of the User-based Security Model (RFC 3414) that the message codec needs:
//! protocol parameters and the two security parameter fields.

use vstd::prelude::*;

verus! {

/// A keyed-hash authentication protocol.
#[derive(Copy, Clone, Debug, PartialEq, Eq, Structural)]
pub enum AuthProtocol {
    /// HMAC-SHA-256, truncated to 24 bytes (RFC 7860).
    HmacSha256,
    /// HMAC-SHA-512, truncated to 48 bytes (RFC 7860).
    HmacSha512,
}

impl AuthProtocol {
    /// The length of a message authentication code in bytes.
    pub open spec fn spec_mac_len(self) -> nat {
        match self {
            AuthProtocol::HmacSha256 => 24,
            AuthProtocol::HmacSha512 => 48,
        }
    }

    /// The length of a message authentication code in bytes.
    pub fn mac_len(self) -> (n: usize)
        ensures
            n == self.spec_mac_len(),
    {
        match self {
            AuthProtocol::HmacSha256 => 24,
            AuthProtocol::HmacSha512 => 48,
        }
    }
}

/// The authentication parameters of an authenticated message: never empty.
#[derive(Debug, PartialEq, Eq)]
pub struct AuthenticationParams(Vec<u8>);

impl View for AuthenticationParams {
    type V = Seq<u8>;

    closed spec fn view(&self) -> Seq<u8> {
        self.0@
    }
}

impl AuthenticationParams {
    #[verifier::type_invariant]
    spec fn not_empty(self) -> bool {
        self.0@.len() > 0
    }

    /// The parameters that `bytes` hold, or `None` where there are none.
    pub fn from_wire(bytes: Vec<u8>) -> (params: Option<Self>)
        ensures
            match params {
                Some(value) => bytes@.len() > 0 && value@ == bytes@,
                None => bytes@.len() == 0,
            },
    {
        if bytes.len() == 0 {
            None
        } else {
            Some(AuthenticationParams(bytes))
        }
    }

    /// The bytes of the parameters.
    pub fn as_slice(&self) -> (bytes: &[u8])
        ensures
            bytes@ == self@,
            self@.len() > 0,
    {
        proof {
            use_type_invariant(self);
        }
        self.0.as_slice()
    }
}

impl Clone for AuthenticationParams {
    fn clone(&self) -> (copy: Self)
        ensures
            copy@ == self@,
    {
        let bytes = self.as_slice();
        AuthenticationParams(vstd::slice::slice_to_vec(bytes))
    }
}

/// The privacy parameters of an encrypted message: an eight-byte salt.
#[derive(Debug, PartialEq, Eq)]
pub struct PrivacySalt(Vec<u8>);

impl View for PrivacySalt {
    type V = Seq<u8>;

    closed spec fn view(&self) -> Seq<u8> {
        self.0@
    }
}

impl PrivacySalt {
    #[verifier::type_invariant]
    spec fn eight_bytes(self) -> bool {
        self.0@.len() == 8
    }

    /// The salt that `bytes` hold, or `None` where they are not eight.
    pub fn from_wire(bytes: Vec<u8>) -> (salt: Option<Self>)
        ensures
            match salt {
                Some(value) => bytes@.len() == 8 && value@ == bytes@,
                None => bytes@.len() != 8,
            },
    {
        if bytes.len() == 8 {
            Some(PrivacySalt(bytes))
        } else {
            None
        }
    }

    /// The bytes of the salt.
    pub fn as_slice(&self) -> (bytes: &[u8])
        ensures
            bytes@ == self@,
            self@.len() == 8,
    {
        proof {
            use_type_invariant(self);
        }
        self.0.as_slice()
    }
}

impl Clone for PrivacySalt {
    fn clone(&self) -> (copy: Self)
        ensures
            copy@ == self@,
    {
        let bytes = self.as_slice();
        PrivacySalt(vstd::slice::slice_to_vec(bytes))
    }
}

} // verus!
