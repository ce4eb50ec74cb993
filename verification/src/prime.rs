//! The primality service: answers whether a number is prime, and frames the
//! answer as the one-line JSON document the wire protocol uses.

use vstd::prelude::*;

verus! {

/// A number is prime when it is at least two and no smaller number above
/// one divides it.
pub open spec fn spec_is_prime(n: nat) -> bool {
    n >= 2 && forall|m: nat| 2 <= m < n ==> #[trigger] (n % m) != 0
}

/// Relies on primal::is_prime (primal_check::miller_rabin), a deterministic
/// primality test covering all of u64.
#[verifier::external_body]
fn primal_is_prime(n: u64) -> (r: bool)
    ensures
        r == spec_is_prime(n as nat),
{
    primal::is_prime(n)
}

/// The answer to one primality request.
pub struct PrimeResponse {
    pub method: String,
    pub prime: bool,
}

/// Decides a primality request.
pub fn handle_is_prime(number: u64) -> (r: PrimeResponse)
    ensures
        r.method@ == "isPrime"@,
        r.prime == spec_is_prime(number as nat),
{
    PrimeResponse { method: String::from_str("isPrime"), prime: primal_is_prime(number) }
}

/// The response document for a given answer.
pub open spec fn response_json(prime: bool) -> Seq<char> {
    "{\"method\":\"isPrime\",\"prime\":"@ + (if prime {
        "true"@
    } else {
        "false"@
    }) + "}"@
}

/// Frames a response as its one-line JSON document.
pub fn prime_response_json(r: &PrimeResponse) -> (s: String)
    ensures
        s@ == response_json(r.prime),
{
    let mut s = String::from_str("{\"method\":\"isPrime\",\"prime\":");
    if r.prime {
        s.append("true");
    } else {
        s.append("false");
    }
    s.append("}");
    s
}

} // verus!
