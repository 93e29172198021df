//! Which challenge of a proxy is answered, and with what.
use crate::http1::{picked, picked_challenge_is_preferred, preferred, rank};
use crate::text::{lower, same_word, words, words_are_what_white_space_parts, Class};
use vstd::prelude::*;

verus! {

proof fn lemma_rank(challenge: Seq<char>)
    ensures
        ({
            let known = words(challenge).len() > 0;
            let scheme = words(challenge)[0];
            &&& rank(challenge) == 3 <==> known && same_word(scheme, "negotiate"@)
            &&& rank(challenge) == 2 <==> known && same_word(scheme, "ntlm"@)
            &&& rank(challenge) == 1 <==> known && same_word(scheme, "basic"@)
            &&& rank(challenge) <= 3
        }),
{
    reveal_strlit("negotiate");
    reveal_strlit("ntlm");
    reveal_strlit("basic");
    assert(lower("negotiate"@) == "negotiate"@);
    assert(lower("ntlm"@) == "ntlm"@);
    assert(lower("basic"@) == "basic"@);
    assert("negotiate"@.len() == 9 && "ntlm"@.len() == 4 && "basic"@.len() == 5);
}

/// Negotiate goes before NTLM, and NTLM before Basic; of several challenges of
/// one scheme the first is answered. The scheme is the first word of the
/// challenge and the token its second, character for character as the proxy
/// wrote them.
pub proof fn best_challenge_is_answered(challenges: Seq<Seq<char>>, b: int)
    requires
        0 <= b < challenges.len(),
        words(challenges[b]).len() > 0,
        ({
            let scheme = words(challenges[b])[0];
            ||| same_word(scheme, "negotiate"@) && forall|j: int|
                0 <= j < b && words(#[trigger] challenges[j]).len() > 0 ==> !same_word(
                    words(challenges[j])[0],
                    "negotiate"@,
                )
            ||| same_word(scheme, "ntlm"@) && (forall|j: int|
                0 <= j < challenges.len() && words(#[trigger] challenges[j]).len() > 0
                    ==> !same_word(words(challenges[j])[0], "negotiate"@)) && (forall|j: int|
                0 <= j < b && words(#[trigger] challenges[j]).len() > 0 ==> !same_word(
                    words(challenges[j])[0],
                    "ntlm"@,
                ))
            ||| same_word(scheme, "basic"@) && (forall|j: int|
                0 <= j < challenges.len() && words(#[trigger] challenges[j]).len() > 0
                    ==> !same_word(words(challenges[j])[0], "negotiate"@) && !same_word(
                    words(challenges[j])[0],
                    "ntlm"@,
                )) && (forall|j: int|
                0 <= j < b && words(#[trigger] challenges[j]).len() > 0 ==> !same_word(
                    words(challenges[j])[0],
                    "basic"@,
                ))
        }),
    ensures
        picked(challenges) == Some(
            (
                words(challenges[b])[0],
                if words(challenges[b]).len() > 1 {
                    Some(words(challenges[b])[1])
                } else {
                    None
                },
            ),
        ),
{
    picked_challenge_is_preferred(challenges);
    assert forall|j: int| 0 <= j < challenges.len() implies rank(#[trigger] challenges[j]) <= rank(
        challenges[b],
    ) && (j < b ==> rank(challenges[j]) < rank(challenges[b])) by {
        lemma_rank(challenges[j]);
        lemma_rank(challenges[b]);
    }
    lemma_rank(challenges[b]);
    let p = preferred(challenges, challenges.len());
    assert(rank(challenges[b]) > 0);
    assert(p == b);
}

/// Nothing is answered only where no challenge has one of the three schemes.
pub proof fn unknown_schemes_are_not_answered(challenges: Seq<Seq<char>>)
    ensures
        picked(challenges) is None <==> forall|j: int|
            0 <= j < challenges.len() && words(#[trigger] challenges[j]).len() > 0 ==> {
                let scheme = words(challenges[j])[0];
                &&& !same_word(scheme, "negotiate"@)
                &&& !same_word(scheme, "ntlm"@)
                &&& !same_word(scheme, "basic"@)
            },
{
    picked_challenge_is_preferred(challenges);
    assert forall|j: int| 0 <= j < challenges.len() implies (rank(#[trigger] challenges[j]) == 0
        <==> (words(challenges[j]).len() > 0 ==> {
        let scheme = words(challenges[j])[0];
        &&& !same_word(scheme, "negotiate"@)
        &&& !same_word(scheme, "ntlm"@)
        &&& !same_word(scheme, "basic"@)
    })) by {
        lemma_rank(challenges[j]);
    }
}

/// A challenge of a scheme and a token is answered with just these, and a
/// challenge of a scheme alone without a token.
pub proof fn token_is_taken_as_it_is_written(scheme: Seq<char>, token: Seq<char>)
    requires
        same_word(scheme, "negotiate"@) || same_word(scheme, "ntlm"@) || same_word(
            scheme,
            "basic"@,
        ),
        token.len() > 0,
        forall|i: int| 0 <= i < token.len() ==> !Class::Space.holds(#[trigger] token[i]),
    ensures
        picked(seq![scheme + seq![' '] + token]) == Some((scheme, Some(token))),
        picked(seq![scheme]) == Some((scheme, None::<Seq<char>>)),
{
    let none = Seq::<char>::empty();
    let challenge = scheme + seq![' '] + token;
    assert(scheme.len() == lower(scheme).len());
    assert(lower("negotiate"@).len() == "negotiate"@.len());
    assert(lower("ntlm"@).len() == "ntlm"@.len());
    assert(lower("basic"@).len() == "basic"@.len());
    lemma_scheme_is_a_word(scheme);
    words_are_what_white_space_parts(none, scheme, seq![' '] + token);
    words_are_what_white_space_parts(seq![' '], token, none);
    words_are_what_white_space_parts(none, scheme, none);
    assert(none + scheme + (seq![' '] + token) == challenge);
    assert(none + scheme + none == scheme);
    assert(seq![' '] + token + none == seq![' '] + token);
    assert(words(challenge) == seq![scheme, token]);
    assert(words(scheme) == seq![scheme]);
    assert(seq![challenge][0] == challenge);
    assert(seq![scheme][0] == scheme);
    best_challenge_is_answered(seq![challenge], 0);
    best_challenge_is_answered(seq![scheme], 0);
}

proof fn lemma_scheme_is_a_word(scheme: Seq<char>)
    requires
        same_word(scheme, "negotiate"@) || same_word(scheme, "ntlm"@) || same_word(
            scheme,
            "basic"@,
        ),
    ensures
        scheme.len() > 0,
        forall|i: int| 0 <= i < scheme.len() ==> !Class::Space.holds(#[trigger] scheme[i]),
{
    reveal_strlit("negotiate");
    reveal_strlit("ntlm");
    reveal_strlit("basic");
    let n = lower(scheme);
    assert(n.len() == scheme.len());
    assert(lower("negotiate"@) == "negotiate"@);
    assert(lower("ntlm"@) == "ntlm"@);
    assert(lower("basic"@) == "basic"@);
    assert forall|i: int| 0 <= i < scheme.len() implies !Class::Space.holds(
        #[trigger] scheme[i],
    ) by {
        assert('a' <= n[i] <= 'z');
    }
}

} // verus!
