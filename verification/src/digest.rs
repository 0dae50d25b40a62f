//! Operation identifiers: the SHA-256 digest of an operation's label,
//! computed by the Soroban host.
use soroban_sdk::{Bytes, Env};
use vstd::prelude::*;
use vstd::string::StringSliceAdditionalSpecFns;

verus! {

/// The Soroban environment, carried opaque: it is only handed to the host
/// when a digest is computed.
#[verifier::external_type_specification]
#[verifier::external_body]
pub struct ExEnv(Env);

/// The SHA-256 digest of a byte string, as the Soroban host computes it.
pub uninterp spec fn sha256_digest(data: Seq<u8>) -> Seq<u8>;

/// Calls `Crypto::sha256` of soroban-sdk on a copy of `data` made with
/// `Bytes::from_slice`, and returns the digest as an array.
/// The contract claims that the result is the SHA-256 digest of `data`, a
/// function of the bytes alone (the environment only hosts the computation).
/// Left unsaid: the host meters the work, and a budget too small for the
/// input makes the host abort the call.
#[verifier::external_body]
fn host_sha256(env: &Env, data: &[u8]) -> (digest: [u8; 32])
    ensures
        digest@ == sha256_digest(data@),
{
    env.crypto().sha256(&Bytes::from_slice(env, data)).to_array()
}

/// The identifier of the operation with the given label: the digest of the
/// label's UTF-8 bytes.
pub open spec fn op_key(label: &str) -> Seq<u8> {
    sha256_digest(label.spec_bytes())
}

/// Computes the identifier of the operation with the given label.
pub fn make_op_hash(env: &Env, label: &str) -> (hash: [u8; 32])
    ensures
        hash@ == op_key(label),
{
    host_sha256(env, label.as_bytes())
}

/// Compares two identifiers byte by byte.
pub fn same_hash(a: &[u8; 32], b: &[u8; 32]) -> (eq: bool)
    ensures
        eq == (a@ == b@),
{
    let mut i: usize = 0;
    while i < 32
        invariant
            i <= 32,
            a@.len() == 32,
            b@.len() == 32,
            forall|j: int| 0 <= j < i ==> a@[j] == b@[j],
        decreases 32 - i,
    {
        if a[i] != b[i] {
            assert(a@[i as int] != b@[i as int]);
            return false;
        }
        i = i + 1;
    }
    assert(a@ =~= b@);
    true
}

/// `a` comes strictly before `b` in lexicographic byte order: at the first
/// position where they differ, `a` holds the smaller byte.
pub open spec fn lex_lt(a: Seq<u8>, b: Seq<u8>) -> bool {
    exists|k: int|
        #![trigger a[k], b[k]]
        0 <= k < a.len() && k < b.len() && a[k] < b[k] && forall|j: int|
            0 <= j < k ==> a[j] == b[j]
}

/// Nothing comes before itself.
pub proof fn lemma_lex_lt_irreflexive(a: Seq<u8>)
    ensures
        !lex_lt(a, a),
{
}

/// Lexicographic order is transitive.
pub proof fn lemma_lex_lt_transitive(a: Seq<u8>, b: Seq<u8>, c: Seq<u8>)
    requires
        lex_lt(a, b),
        lex_lt(b, c),
    ensures
        lex_lt(a, c),
{
    let k1 = choose|k: int|
        #![trigger a[k], b[k]]
        0 <= k < a.len() && k < b.len() && a[k] < b[k] && forall|j: int|
            0 <= j < k ==> a[j] == b[j];
    let k2 = choose|k: int|
        #![trigger b[k], c[k]]
        0 <= k < b.len() && k < c.len() && b[k] < c[k] && forall|j: int|
            0 <= j < k ==> b[j] == c[j];
    let k = if k1 < k2 {
        k1
    } else {
        k2
    };
    assert(a[k] < c[k]);
    assert forall|j: int| 0 <= j < k implies a[j] == c[j] by {
        assert(a[j] == b[j]);
        assert(b[j] == c[j]);
    }
}

/// Two different byte strings of the same length are ordered one way or
/// the other.
pub proof fn lemma_lex_lt_total(a: Seq<u8>, b: Seq<u8>)
    requires
        a.len() == b.len(),
        a != b,
    ensures
        lex_lt(a, b) || lex_lt(b, a),
{
    assert(exists|k: int| 0 <= k < a.len() && a[k] != b[k]) by {
        if forall|k: int| 0 <= k < a.len() ==> a[k] == b[k] {
            assert(a =~= b);
        }
    }
    let d = choose|k: int| 0 <= k < a.len() && a[k] != b[k];
    let first = choose|k: int|
        0 <= k < a.len() && a[k] != b[k] && forall|j: int| 0 <= j < k ==> a[j] == b[j];
    assert(exists|k: int|
        0 <= k < a.len() && a[k] != b[k] && forall|j: int| 0 <= j < k ==> a[j] == b[j]) by {
        lemma_first_difference(a, b, d);
    }
    if a[first] < b[first] {
        assert(lex_lt(a, b));
    } else {
        assert(lex_lt(b, a));
    }
}

proof fn lemma_first_difference(a: Seq<u8>, b: Seq<u8>, d: int)
    requires
        a.len() == b.len(),
        0 <= d < a.len(),
        a[d] != b[d],
    ensures
        exists|k: int|
            0 <= k < a.len() && a[k] != b[k] && forall|j: int| 0 <= j < k ==> a[j] == b[j],
    decreases d,
{
    if exists|j: int| 0 <= j < d && a[j] != b[j] {
        let j = choose|j: int| 0 <= j < d && a[j] != b[j];
        lemma_first_difference(a, b, j);
    } else {
        assert(forall|j: int| 0 <= j < d ==> a[j] == b[j]);
    }
}

/// Compares two identifiers in lexicographic byte order.
pub fn hash_lt(a: &[u8; 32], b: &[u8; 32]) -> (lt: bool)
    ensures
        lt == lex_lt(a@, b@),
{
    let mut i: usize = 0;
    while i < 32
        invariant
            i <= 32,
            a@.len() == 32,
            b@.len() == 32,
            forall|j: int| 0 <= j < i ==> a@[j] == b@[j],
        decreases 32 - i,
    {
        if a[i] != b[i] {
            let lt = a[i] < b[i];
            proof {
                if lt {
                    assert(a@[i as int] < b@[i as int]);
                } else {
                    assert(!lex_lt(a@, b@)) by {
                        if lex_lt(a@, b@) {
                            let k = choose|k: int|
                                #![trigger a@[k], b@[k]]
                                0 <= k < a@.len() && k < b@.len() && a@[k] < b@[k] && forall|
                                    j: int,
                                | 0 <= j < k ==> a@[j] == b@[j];
                            if k < i {
                            } else if k > i {
                                assert(a@[i as int] == b@[i as int]);
                            } else {
                            }
                        }
                    }
                }
            }
            return lt;
        }
        i = i + 1;
    }
    assert(a@ =~= b@);
    proof {
        lemma_lex_lt_irreflexive(a@);
    }
    false
}

} // verus!
