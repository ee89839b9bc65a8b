//! The integer side of computing an embedding: how many tokens go into one
//! forward pass, and the truncation of the pooled vector to the stored
//! dimension. Normalisation is floating-point work done by the caller.

use vstd::prelude::*;

verus! {

/// Most tokens given to one forward pass; longer inputs are cut.
pub const MAX_EMBEDDING_TOKENS: usize = 512;

/// Why an embedding could not be computed.
#[derive(Clone, Copy, Debug, PartialEq, Eq, Structural)]
pub enum InferenceError {
    /// No model is loaded.
    ModelNotLoaded,
    /// Tokenisation gave no token.
    EmptyTokens,
    /// The inference engine failed.
    EngineFailed,
}

/// Number of tokens of a `n`-token input that go into the forward pass:
/// all of them up to `MAX_EMBEDDING_TOKENS`, the leading ones beyond. An
/// input without tokens cannot be embedded.
pub fn tokens_to_keep(n: usize) -> (r: Result<usize, InferenceError>)
    ensures
        r == if n == 0 {
            Err(InferenceError::EmptyTokens)
        } else if n > MAX_EMBEDDING_TOKENS {
            Ok(MAX_EMBEDDING_TOKENS)
        } else {
            Ok(n)
        },
{
    if n == 0 {
        Err(InferenceError::EmptyTokens)
    } else if n > MAX_EMBEDDING_TOKENS {
        Ok(MAX_EMBEDDING_TOKENS)
    } else {
        Ok(n)
    }
}

/// The first `dim` components of a pooled vector (all of them when it is
/// shorter): a nested-representation model keeps its coarse features first.
pub fn truncate_embedding(native: &[u32], dim: usize) -> (r: Vec<u32>)
    ensures
        r@ == native@.take(if dim < native@.len() { dim as int } else { native@.len() as int }),
{
    let n = if dim < native.len() {
        dim
    } else {
        native.len()
    };
    let mut out: Vec<u32> = Vec::new();
    let mut i: usize = 0;
    while i < n
        invariant
            n <= native@.len(),
            n == if dim < native@.len() { dim as int } else { native@.len() as int },
            0 <= i <= n,
            out@ == native@.take(i as int),
        decreases n - i,
    {
        out.push(native[i]);
        proof {
            assert(out@ =~= native@.take(i + 1));
        }
        i = i + 1;
    }
    out
}

} // verus!
