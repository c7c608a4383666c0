//! The proof-of-work challenge answer, assembled as plain data; serializing
//! and encoding it for the wire happen outside the library.

use vstd::prelude::*;

use crate::models::{Challenge, ChallengeAnswer};
use crate::text::{chars_string, str_chars};

verus! {

/// Builds challenge answers; the path names where a solver artifact would
/// live.
pub struct ChallengeSolver {
    wasm_path: String,
}

impl ChallengeSolver {
    /// The path the solver was made with.
    pub closed spec fn spec_wasm_path(self) -> Seq<char> {
        self.wasm_path@
    }

    pub fn new(wasm_path: String) -> (r: Self)
        ensures
            r.spec_wasm_path() == wasm_path@,
    {
        ChallengeSolver { wasm_path }
    }

    /// The fallback answer: the challenge echoed back with a fixed marker
    /// over its first eight characters.
    pub fn build_challenge_answer(&self, challenge: &Challenge, target_path: &str) -> (r:
        ChallengeAnswer)
        requires
            challenge.challenge@.len() >= 8,
        ensures
            r.algorithm == challenge.algorithm,
            r.challenge == challenge.challenge,
            r.salt == challenge.salt,
            r.signature == challenge.signature,
            r.target_path@ == target_path@,
            r.answer@ == "rust_answer_"@ + challenge.challenge@.subrange(0, 8),
    {
        let chars = str_chars(challenge.challenge.as_str());
        let mut head: Vec<char> = Vec::new();
        let mut i: usize = 0;
        while i < 8
            invariant
                chars@ == challenge.challenge@,
                chars@.len() >= 8,
                i <= 8,
                head@ =~= chars@.subrange(0, i as int),
            decreases 8 - i,
        {
            head.push(chars[i]);
            proof {
                assert(head@ =~= chars@.subrange(0, i + 1));
            }
            i = i + 1;
        }
        let answer = String::from_str("rust_answer_").concat(chars_string(&head).as_str());
        ChallengeAnswer {
            algorithm: challenge.algorithm.clone(),
            challenge: challenge.challenge.clone(),
            salt: challenge.salt.clone(),
            answer,
            signature: challenge.signature.clone(),
            target_path: String::from_str(target_path),
        }
    }
}

} // verus!
