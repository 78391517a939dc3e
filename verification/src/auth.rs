//! SRP-6a authentication (RFC 5054 2048-bit group, SHA-256). The modular
//! arithmetic itself is done by the srp crate behind trusted boundaries;
//! each result is a function of its arguments alone and is given a name
//! that the session's contracts speak of.

use vstd::prelude::*;

verus! {

/// ASCII-lowercased bytes: `A`..`Z` shifted to `a`..`z`, all else kept.
pub open spec fn ascii_lower(s: Seq<u8>) -> Seq<u8> {
    Seq::new(
        s.len(),
        |i: int|
            if 65 <= s[i] <= 90 {
                (s[i] + 32) as u8
            } else {
                s[i]
            },
    )
}

/// Lowercases the ASCII letters of a byte string.
pub fn to_ascii_lowercase_bytes(s: &Vec<u8>) -> (r: Vec<u8>)
    ensures
        r@ == ascii_lower(s@),
{
    let mut out: Vec<u8> = Vec::new();
    let n = s.len();
    let mut k: usize = 0;
    while k < n
        invariant
            n == s@.len(),
            k <= n,
            out@.len() == k,
            forall|t: int| 0 <= t < k ==> out@[t] == ascii_lower(s@)[t],
        decreases n - k,
    {
        let b = s[k];
        if 65 <= b && b <= 90 {
            out.push(b + 32);
        } else {
            out.push(b);
        }
        k = k + 1;
    }
    proof {
        assert(out@ =~= ascii_lower(s@));
    }
    out
}

/// The client's public SRP ephemeral value `A = g^a mod N` for the 2048-bit
/// group: a function of the secret `a` alone.
pub uninterp spec fn srp_a_pub_of(a: Seq<u8>) -> Seq<u8>;

/// The SRP private key `x = H(salt || H(username ":" password))` with
/// SHA-256: a function of its three arguments alone.
pub uninterp spec fn srp_x_of(username: Seq<u8>, password: Seq<u8>, salt: Seq<u8>) -> Seq<u8>;

/// The client proof `M1` for the 2048-bit group with SHA-256, or `None`
/// for a malicious public server value (`B mod N == 0`): a function of its
/// arguments alone.
pub uninterp spec fn srp_m1_of(
    username: Seq<u8>,
    salt: Seq<u8>,
    x: Seq<u8>,
    b_pub: Seq<u8>,
    a: Seq<u8>,
) -> Option<Seq<u8>>;

/// Relies on srp's `SrpClient::new` over `srp::groups::G_2048` followed by
/// `get_a_pub`: together they compute `A = g^a mod N`, a deterministic
/// function of `a`.
#[verifier::external_body]
pub(crate) fn srp_a_pub(a: &Vec<u8>) -> (r: Vec<u8>)
    ensures
        r@ == srp_a_pub_of(a@),
{
    srp::client::SrpClient::<sha2::Sha256>::new(a.as_slice(), &srp::groups::G_2048).get_a_pub()
}

/// Relies on srp's `srp_private_key` with SHA-256: the RFC 5054 private
/// key derivation, a deterministic function of its arguments.
#[verifier::external_body]
pub(crate) fn srp_private_key_sha256(username: &Vec<u8>, password: &Vec<u8>, salt: &Vec<u8>) -> (r:
    Vec<u8>)
    ensures
        r@ == srp_x_of(username@, password@, salt@),
{
    srp::client::srp_private_key::<sha2::Sha256>(
        username.as_slice(),
        password.as_slice(),
        salt.as_slice(),
    ).to_vec()
}

/// Relies on srp's `SrpClient::new` over `srp::groups::G_2048`,
/// `process_reply_with_username_and_salt` and `get_proof`: together they
/// compute the client proof `M1`, failing exactly on a malicious `B`; the
/// result is a deterministic function of the arguments.
#[verifier::external_body]
pub(crate) fn srp_client_proof(
    username: &Vec<u8>,
    salt: &Vec<u8>,
    private_key: &Vec<u8>,
    b_pub: &Vec<u8>,
    a: &Vec<u8>,
) -> (r: Option<Vec<u8>>)
    ensures
        match r {
            Some(m1) => srp_m1_of(username@, salt@, private_key@, b_pub@, a@) == Some(m1@),
            None => srp_m1_of(username@, salt@, private_key@, b_pub@, a@) is None,
        },
{
    let client = srp::client::SrpClient::<sha2::Sha256>::new(a.as_slice(), &srp::groups::G_2048);
    match client.process_reply_with_username_and_salt(
        username.as_slice(),
        salt.as_slice(),
        private_key.as_slice(),
        b_pub.as_slice(),
    ) {
        Ok(verifier) => Some(verifier.get_proof().to_vec()),
        Err(_) => None,
    }
}

} // verus!
