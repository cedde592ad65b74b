//! The guarantees the encoder gives for every input: duplicate collapse is
//! idempotent, encoded words never hold two equal adjacent characters, every
//! character of an encoded word comes from a fixed output alphabet, and a
//! voiced obstruent never survives where devoicing applies — neither at the
//! end of an encoded word nor directly before a noisy consonant.

use crate::alphabet::Letters;
use crate::alphabet::in_output_alphabet;
use crate::alphabet::is_voiced;
use crate::alphabet::letters_contain;
use crate::alphabet::upper_word;
use crate::engine::Language;
use crate::engine::apply_all;
use crate::engine::apply_from;
use crate::engine::encode_spec;
use crate::engine::rules_of;
use crate::rules::Rule;
use crate::rules::rule_apply;
use crate::rules::russian_rules;
use crate::rules::ukrainian_prefix;
use vstd::prelude::*;

use crate::transforms::collapse;
use crate::transforms::devoice;
use crate::transforms::merge_pairs;
use crate::transforms::replace_last;
use crate::transforms::sift;
use crate::transforms::subst_char;
use crate::transforms::substitute;

verus! {

/// No two adjacent characters of `s` are equal.
pub open spec fn no_adjacent_duplicates(s: Seq<char>) -> bool {
    forall|i: int| 0 <= i && i + 1 < s.len() ==> #[trigger] s[i] != s[i + 1]
}

/// A collapsed word is never empty and starts as its input starts.
proof fn lemma_collapse_first(s: Seq<char>)
    requires
        s.len() > 0,
    ensures
        collapse(s).len() > 0,
        collapse(s)[0] == s[0],
    decreases s.len(),
{
    if s.len() >= 2 {
        lemma_collapse_first(s.skip(1));
        assert(s.skip(1)[0] == s[1]);
    }
}

/// A collapsed word is never empty and ends as its input ends.
pub proof fn lemma_collapse_last(s: Seq<char>)
    requires
        s.len() > 0,
    ensures
        collapse(s).len() > 0,
        collapse(s).last() == s.last(),
    decreases s.len(),
{
    if s.len() >= 2 {
        lemma_collapse_last(s.skip(1));
        assert(s.skip(1).last() == s.last());
        if s[0] != s[1] {
            assert((seq![s[0]] + collapse(s.skip(1))).last() == collapse(s.skip(1)).last());
        }
    }
}

/// Collapsing leaves no two equal adjacent characters.
pub proof fn lemma_collapse_clean(s: Seq<char>)
    ensures
        no_adjacent_duplicates(collapse(s)),
    decreases s.len(),
{
    if s.len() >= 2 {
        lemma_collapse_clean(s.skip(1));
        if s[0] != s[1] {
            lemma_collapse_first(s.skip(1));
            let t = seq![s[0]] + collapse(s.skip(1));
            assert(s.skip(1)[0] == s[1]);
            assert forall|i: int| 0 <= i && i + 1 < t.len() implies #[trigger] t[i] != t[i + 1] by {
                if i == 0 {
                    assert(t[0] == s[0]);
                    assert(t[1] == collapse(s.skip(1))[0]);
                } else {
                    assert(t[i] == collapse(s.skip(1))[i - 1]);
                    assert(t[i + 1] == collapse(s.skip(1))[i]);
                }
            }
        }
    }
}

/// A word without equal adjacent characters collapses to itself.
proof fn lemma_collapse_of_clean(s: Seq<char>)
    requires
        no_adjacent_duplicates(s),
    ensures
        collapse(s) == s,
    decreases s.len(),
{
    if s.len() >= 2 {
        assert(s[0] != s[1]);
        assert forall|i: int| 0 <= i && i + 1 < s.skip(1).len() implies #[trigger] s.skip(1)[i] != s.skip(1)[i
            + 1] by {
            assert(s.skip(1)[i] == s[i + 1]);
            assert(s.skip(1)[i + 1] == s[i + 2]);
        }
        lemma_collapse_of_clean(s.skip(1));
        assert(seq![s[0]] + s.skip(1) =~= s);
    }
}

/// Duplicate collapse is idempotent: collapsing a word twice yields the same
/// result as collapsing it once, for every word.
pub proof fn lemma_collapse_idempotent(s: Seq<char>)
    ensures
        collapse(collapse(s)) == collapse(s),
{
    lemma_collapse_clean(s);
    lemma_collapse_of_clean(collapse(s));
}

/// Collapsing introduces no character: a property of every character of the
/// input holds of every character of the output.
proof fn lemma_collapse_chars(s: Seq<char>, p: spec_fn(char) -> bool)
    requires
        forall|i: int| 0 <= i < s.len() ==> p(#[trigger] s[i]),
    ensures
        forall|i: int| 0 <= i < collapse(s).len() ==> p(#[trigger] collapse(s)[i]),
    decreases s.len(),
{
    if s.len() >= 2 {
        assert forall|i: int| 0 <= i < s.skip(1).len() implies p(#[trigger] s.skip(1)[i]) by {
            assert(s.skip(1)[i] == s[i + 1]);
        }
        lemma_collapse_chars(s.skip(1), p);
        if s[0] != s[1] {
            let t = seq![s[0]] + collapse(s.skip(1));
            assert forall|i: int| 0 <= i < t.len() implies p(#[trigger] t[i]) by {
                if i > 0 {
                    assert(t[i] == collapse(s.skip(1))[i - 1]);
                }
            }
        }
    }
}

/// Every character a sift keeps satisfies the sift's condition, and any
/// property of the characters it keeps carries over to the output.
proof fn lemma_sift_chars(s: Seq<char>, ls: Letters, keep: bool, p: spec_fn(char) -> bool)
    requires
        forall|i: int|
            0 <= i < s.len() && letters_contain(ls, #[trigger] s[i]) == keep ==> p(s[i]),
    ensures
        forall|i: int|
            0 <= i < sift(s, ls, keep).len() ==> letters_contain(
                ls,
                #[trigger] sift(s, ls, keep)[i],
            ) == keep && p(sift(s, ls, keep)[i]),
    decreases s.len(),
{
    if s.len() > 0 {
        assert forall|i: int|
            0 <= i < s.skip(1).len() && letters_contain(ls, #[trigger] s.skip(1)[i])
                == keep implies p(s.skip(1)[i]) by {
            assert(s.skip(1)[i] == s[i + 1]);
        }
        lemma_sift_chars(s.skip(1), ls, keep, p);
        let rest = sift(s.skip(1), ls, keep);
        if letters_contain(ls, s[0]) == keep {
            let t = seq![s[0]] + rest;
            assert forall|i: int|
                0 <= i < t.len() implies letters_contain(ls, #[trigger] t[i]) == keep && p(
                t[i],
            ) by {
                if i > 0 {
                    assert(t[i] == rest[i - 1]);
                }
            }
        }
    }
}

/// Merging pairs introduces only the replacement character.
proof fn lemma_merge_pairs_chars(
    s: Seq<char>,
    a: Letters,
    b: Letters,
    to: char,
    p: spec_fn(char) -> bool,
)
    requires
        p(to),
        forall|i: int| 0 <= i < s.len() ==> p(#[trigger] s[i]),
    ensures
        forall|i: int|
            0 <= i < merge_pairs(s, a, b, to).len() ==> p(#[trigger] merge_pairs(s, a, b, to)[i]),
    decreases s.len(),
{
    if s.len() >= 2 {
        let skipped: int = if letters_contain(a, s[0]) && letters_contain(b, s[1]) {
            2
        } else {
            1
        };
        assert forall|i: int| 0 <= i < s.skip(skipped).len() implies p(
            #[trigger] s.skip(skipped)[i],
        ) by {
            assert(s.skip(skipped)[i] == s[i + skipped]);
        }
        lemma_merge_pairs_chars(s.skip(skipped), a, b, to, p);
        let rest = merge_pairs(s.skip(skipped), a, b, to);
        let head: Seq<char> = if skipped == 2 {
            seq![to]
        } else {
            seq![s[0]]
        };
        let t = head + rest;
        assert forall|i: int| 0 <= i < t.len() implies p(#[trigger] t[i]) by {
            if i >= head.len() {
                assert(t[i] == rest[i - head.len()]);
            }
        }
    }
}

/// Devoicing introduces only the voiceless character; it never changes the
/// length of the word nor its last character.
proof fn lemma_devoice_chars(s: Seq<char>, v: char, w: char, p: spec_fn(char) -> bool)
    requires
        p(w),
        forall|i: int| 0 <= i < s.len() ==> p(#[trigger] s[i]),
    ensures
        forall|i: int| 0 <= i < devoice(s, v, w).len() ==> p(#[trigger] devoice(s, v, w)[i]),
    decreases s.len(),
{
    if s.len() >= 2 {
        let skipped: int = if s[0] == v && letters_contain(Letters::Noisy, s[1]) {
            2
        } else {
            1
        };
        assert forall|i: int| 0 <= i < s.skip(skipped).len() implies p(
            #[trigger] s.skip(skipped)[i],
        ) by {
            assert(s.skip(skipped)[i] == s[i + skipped]);
        }
        lemma_devoice_chars(s.skip(skipped), v, w, p);
        let rest = devoice(s.skip(skipped), v, w);
        let head: Seq<char> = if skipped == 2 {
            seq![w, s[1]]
        } else {
            seq![s[0]]
        };
        let t = head + rest;
        assert forall|i: int| 0 <= i < t.len() implies p(#[trigger] t[i]) by {
            if i >= head.len() {
                assert(t[i] == rest[i - head.len()]);
            }
        }
    }
}

/// Devoicing keeps the length of the word and its last character.
pub proof fn lemma_devoice_shape(s: Seq<char>, v: char, w: char)
    ensures
        devoice(s, v, w).len() == s.len(),
        s.len() > 0 ==> devoice(s, v, w).last() == s.last(),
    decreases s.len(),
{
    if s.len() >= 2 {
        let skipped: int = if s[0] == v && letters_contain(Letters::Noisy, s[1]) {
            2
        } else {
            1
        };
        lemma_devoice_shape(s.skip(skipped), v, w);
        if s.len() > skipped {
            assert(s.skip(skipped).last() == s.last());
        }
        let rest = devoice(s.skip(skipped), v, w);
        let head: Seq<char> = if skipped == 2 {
            seq![w, s[1]]
        } else {
            seq![s[0]]
        };
        if rest.len() > 0 {
            assert((head + rest).last() == rest.last());
        } else {
            assert((head + rest).last() == head.last());
            assert(s.len() == skipped);
            assert(head.last() == s.last());
        }
    }
}

/// A pair merge of a non-empty word is non-empty and ends in the replacement
/// character or in the last character of the input.
pub proof fn lemma_merge_pairs_shape(s: Seq<char>, a: Letters, b: Letters, to: char)
    requires
        s.len() > 0,
    ensures
        merge_pairs(s, a, b, to).len() > 0,
        merge_pairs(s, a, b, to).last() == to || merge_pairs(s, a, b, to).last() == s.last(),
    decreases s.len(),
{
    if s.len() >= 2 {
        let skipped: int = if letters_contain(a, s[0]) && letters_contain(b, s[1]) {
            2
        } else {
            1
        };
        let rest = merge_pairs(s.skip(skipped), a, b, to);
        let head: Seq<char> = if skipped == 2 {
            seq![to]
        } else {
            seq![s[0]]
        };
        if s.len() > skipped {
            lemma_merge_pairs_shape(s.skip(skipped), a, b, to);
            assert(s.skip(skipped).last() == s.last());
            assert((head + rest).last() == rest.last());
        } else {
            assert(s.skip(skipped).len() == 0);
            assert(rest.len() == 0);
            assert((head + rest).last() == head.last());
            assert(skipped == 2 ==> head.last() == to);
            assert(skipped == 1 ==> s.len() == 1 && head.last() == s.last());
        }
    }
}

/// Replacing the last character keeps the length; afterwards the word ends
/// in the replacement or in its old, unequal last character.
pub proof fn lemma_replace_last_shape(s: Seq<char>, v: char, w: char)
    ensures
        replace_last(s, v, w).len() == s.len(),
        s.len() > 0 ==> replace_last(s, v, w).last() == (if s.last() == v {
            w
        } else {
            s.last()
        }),
        forall|i: int|
            0 <= i < s.len() ==> #[trigger] replace_last(s, v, w)[i] == s[i] || replace_last(
                s,
                v,
                w,
            )[i] == w,
{
}

/// A substitution introduces only its replacement character; a property of
/// the replacement and of every unreplaced character holds of the output.
proof fn lemma_substitute_all(s: Seq<char>, ls: Letters, to: char, p: spec_fn(char) -> bool)
    requires
        p(to),
        forall|i: int| 0 <= i < s.len() && !letters_contain(ls, #[trigger] s[i]) ==> p(s[i]),
    ensures
        forall|i: int|
            0 <= i < substitute(s, ls, to).len() ==> p(#[trigger] substitute(s, ls, to)[i]),
{
    assert forall|i: int| 0 <= i < substitute(s, ls, to).len() implies p(
        #[trigger] substitute(s, ls, to)[i],
    ) by {
        assert(substitute(s, ls, to)[i] == (if letters_contain(ls, s[i]) {
            to
        } else {
            s[i]
        }));
    }
}

/// Replacing the last character introduces only the replacement.
proof fn lemma_replace_last_all(s: Seq<char>, v: char, w: char, p: spec_fn(char) -> bool)
    requires
        p(w),
        forall|i: int| 0 <= i < s.len() ==> p(#[trigger] s[i]),
    ensures
        forall|i: int|
            0 <= i < replace_last(s, v, w).len() ==> p(#[trigger] replace_last(s, v, w)[i]),
{
    lemma_replace_last_shape(s, v, w);
    assert forall|i: int| 0 <= i < replace_last(s, v, w).len() implies p(
        #[trigger] replace_last(s, v, w)[i],
    ) by {
        assert(replace_last(s, v, w)[i] == s[i] || replace_last(s, v, w)[i] == w);
    }
}

/// No two adjacent characters of `s` form a pair that `q` forbids.
pub open spec fn pair_free(s: Seq<char>, q: spec_fn(char, char) -> bool) -> bool {
    forall|i: int| 0 <= i && i + 1 < s.len() ==> !q(#[trigger] s[i], s[i + 1])
}

/// The forbidden pair "`v` stands directly before a noisy consonant".
pub open spec fn voiced_pair(v: char) -> spec_fn(char, char) -> bool {
    |a: char, b: char| a == v && letters_contain(Letters::Noisy, b)
}

/// The forbidden pair "`v` stands directly before another `v`".
pub open spec fn equal_pair(v: char) -> spec_fn(char, char) -> bool {
    |a: char, b: char| a == v && b == v
}

/// Adjacent pairs of a collapsed word are, character for character, adjacent
/// pairs of the input, so collapsing preserves any pair invariant.
proof fn lemma_collapse_pair_free(s: Seq<char>, q: spec_fn(char, char) -> bool)
    requires
        pair_free(s, q),
    ensures
        pair_free(collapse(s), q),
    decreases s.len(),
{
    if s.len() >= 2 {
        assert forall|i: int| 0 <= i && i + 1 < s.skip(1).len() implies !q(
            #[trigger] s.skip(1)[i],
            s.skip(1)[i + 1],
        ) by {
            assert(s.skip(1)[i] == s[i + 1]);
            assert(s.skip(1)[i + 1] == s[i + 2]);
        }
        lemma_collapse_pair_free(s.skip(1), q);
        if s[0] != s[1] {
            lemma_collapse_first(s.skip(1));
            let c1 = collapse(s.skip(1));
            let t = seq![s[0]] + c1;
            assert forall|i: int| 0 <= i && i + 1 < t.len() implies !q(#[trigger] t[i], t[i + 1]) by {
                if i == 0 {
                    assert(t[0] == s[0]);
                    assert(t[1] == c1[0]);
                    assert(c1[0] == s.skip(1)[0]);
                    assert(s.skip(1)[0] == s[1]);
                } else {
                    assert(t[i] == c1[i - 1]);
                    assert(t[i + 1] == c1[i]);
                }
            }
        }
    }
}

/// A substitution preserves a pair invariant that already holds of the
/// substituted characters.
proof fn lemma_substitute_pair_free(s: Seq<char>, ls: Letters, to: char, q: spec_fn(char, char) -> bool)
    requires
        forall|i: int|
            0 <= i && i + 1 < s.len() ==> !q(
                subst_char(ls, to, #[trigger] s[i]),
                subst_char(ls, to, s[i + 1]),
            ),
    ensures
        pair_free(substitute(s, ls, to), q),
{
    let t = substitute(s, ls, to);
    assert forall|i: int| 0 <= i && i + 1 < t.len() implies !q(#[trigger] t[i], t[i + 1]) by {
        assert(t[i] == subst_char(ls, to, s[i]));
        assert(t[i + 1] == subst_char(ls, to, s[i + 1]));
    }
}

/// The first character of a pair merge: the replacement when the word
/// starts with a matching pair, the unchanged first character otherwise.
proof fn lemma_merge_pairs_first(s: Seq<char>, a: Letters, b: Letters, to: char)
    requires
        s.len() > 0,
    ensures
        merge_pairs(s, a, b, to).len() > 0,
        merge_pairs(s, a, b, to)[0] == (if s.len() >= 2 && letters_contain(a, s[0])
            && letters_contain(b, s[1]) {
            to
        } else {
            s[0]
        }),
{
}

/// The first character after devoicing: the voiceless letter when the word
/// starts with a match, the unchanged first character otherwise.
proof fn lemma_devoice_first(s: Seq<char>, v: char, w: char)
    requires
        s.len() > 0,
    ensures
        devoice(s, v, w).len() > 0,
        devoice(s, v, w)[0] == (if s.len() >= 2 && s[0] == v && letters_contain(
            Letters::Noisy,
            s[1],
        ) {
            w
        } else {
            s[0]
        }),
{
}

/// A pair merge preserves a pair invariant that is also robust against the
/// replacement character standing in for a merged pair.
proof fn lemma_merge_pairs_pair_free(
    s: Seq<char>,
    a: Letters,
    b: Letters,
    to: char,
    q: spec_fn(char, char) -> bool,
)
    requires
        pair_free(s, q),
        forall|i: int|
            0 <= i && i + 1 < s.len() && letters_contain(a, s[i + 1]) ==> !q(#[trigger] s[i], to),
        forall|i: int|
            0 <= i && i + 1 < s.len() && letters_contain(b, #[trigger] s[i]) ==> !q(to, s[i + 1]),
        !q(to, to),
    ensures
        pair_free(merge_pairs(s, a, b, to), q),
    decreases s.len(),
{
    if s.len() >= 2 {
        let skipped: int = if letters_contain(a, s[0]) && letters_contain(b, s[1]) {
            2
        } else {
            1
        };
        assert forall|i: int| 0 <= i && i + 1 < s.skip(skipped).len() implies !q(
            #[trigger] s.skip(skipped)[i],
            s.skip(skipped)[i + 1],
        ) by {
            assert(s.skip(skipped)[i] == s[i + skipped]);
            assert(s.skip(skipped)[i + 1] == s[i + skipped + 1]);
        }
        assert forall|i: int|
            0 <= i && i + 1 < s.skip(skipped).len() && letters_contain(
                a,
                s.skip(skipped)[i + 1],
            ) implies !q(#[trigger] s.skip(skipped)[i], to) by {
            assert(s.skip(skipped)[i] == s[i + skipped]);
            assert(s.skip(skipped)[i + 1] == s[i + skipped + 1]);
        }
        assert forall|i: int|
            0 <= i && i + 1 < s.skip(skipped).len() && letters_contain(
                b,
                #[trigger] s.skip(skipped)[i],
            ) implies !q(to, s.skip(skipped)[i + 1]) by {
            assert(s.skip(skipped)[i] == s[i + skipped]);
            assert(s.skip(skipped)[i + 1] == s[i + skipped + 1]);
        }
        lemma_merge_pairs_pair_free(s.skip(skipped), a, b, to, q);
        let rest = merge_pairs(s.skip(skipped), a, b, to);
        let head: Seq<char> = if skipped == 2 {
            seq![to]
        } else {
            seq![s[0]]
        };
        let t = head + rest;
        assert forall|i: int| 0 <= i && i + 1 < t.len() implies !q(#[trigger] t[i], t[i + 1]) by {
            if i == 0 && rest.len() > 0 {
                lemma_merge_pairs_first(s.skip(skipped), a, b, to);
                assert(t[0] == head[0]);
                assert(t[1] == rest[0]);
                assert(s.skip(skipped).len() > 0);
                assert(s.skip(skipped)[0] == s[skipped]);
                if s.skip(skipped).len() >= 2 {
                    assert(s.skip(skipped)[1] == s[skipped + 1]);
                }
            } else if i >= 1 {
                assert(t[i] == rest[i - 1]);
                assert(t[i + 1] == rest[i]);
            }
        }
    }
}

/// Devoicing preserves a pair invariant that is also robust against the
/// voiceless letter standing in for the voiced one.
proof fn lemma_devoice_pair_free(s: Seq<char>, v: char, w: char, q: spec_fn(char, char) -> bool)
    requires
        pair_free(s, q),
        forall|i: int| 0 <= i && i + 1 < s.len() && s[i] == v ==> !q(w, #[trigger] s[i + 1]),
        forall|i: int| 0 <= i && i + 1 < s.len() && s[i + 1] == v ==> !q(#[trigger] s[i], w),
        !q(w, w),
    ensures
        pair_free(devoice(s, v, w), q),
    decreases s.len(),
{
    if s.len() >= 2 {
        let matched = s[0] == v && letters_contain(Letters::Noisy, s[1]);
        let skipped: int = if matched {
            2
        } else {
            1
        };
        assert forall|i: int| 0 <= i && i + 1 < s.skip(skipped).len() implies !q(
            #[trigger] s.skip(skipped)[i],
            s.skip(skipped)[i + 1],
        ) by {
            assert(s.skip(skipped)[i] == s[i + skipped]);
            assert(s.skip(skipped)[i + 1] == s[i + skipped + 1]);
        }
        assert forall|i: int|
            0 <= i && i + 1 < s.skip(skipped).len() && s.skip(skipped)[i] == v implies !q(
            w,
            #[trigger] s.skip(skipped)[i + 1],
        ) by {
            assert(s.skip(skipped)[i] == s[i + skipped]);
            assert(s.skip(skipped)[i + 1] == s[i + skipped + 1]);
        }
        assert forall|i: int|
            0 <= i && i + 1 < s.skip(skipped).len() && s.skip(skipped)[i + 1] == v implies !q(
            #[trigger] s.skip(skipped)[i],
            w,
        ) by {
            assert(s.skip(skipped)[i] == s[i + skipped]);
            assert(s.skip(skipped)[i + 1] == s[i + skipped + 1]);
        }
        lemma_devoice_pair_free(s.skip(skipped), v, w, q);
        let rest = devoice(s.skip(skipped), v, w);
        let head: Seq<char> = if matched {
            seq![w, s[1]]
        } else {
            seq![s[0]]
        };
        let t = head + rest;
        assert forall|i: int| 0 <= i && i + 1 < t.len() implies !q(#[trigger] t[i], t[i + 1]) by {
            if i + 1 < head.len() {
                assert(t[0] == w);
                assert(t[1] == s[1]);
            } else if i + 1 == head.len() && rest.len() > 0 {
                lemma_devoice_first(s.skip(skipped), v, w);
                assert(t[i] == head[i]);
                assert(t[i + 1] == rest[0]);
                assert(s.skip(skipped).len() > 0);
                assert(s.skip(skipped)[0] == s[skipped]);
                if s.skip(skipped).len() >= 2 {
                    assert(s.skip(skipped)[1] == s[skipped + 1]);
                }
            } else if i >= head.len() {
                assert(t[i] == rest[i - head.len()]);
                assert(t[i + 1] == rest[i + 1 - head.len()]);
            }
        }
    }
}

/// After devoicing `v` before noisy consonants, no `v` stands before a noisy
/// consonant any more, provided no two `v` stood adjacent (the scan consumes
/// the captured consonant, so an adjacent equal pair could hide one).
proof fn lemma_devoice_establish(s: Seq<char>, v: char, w: char)
    requires
        w != v,
        pair_free(s, equal_pair(v)),
    ensures
        pair_free(devoice(s, v, w), voiced_pair(v)),
    decreases s.len(),
{
    let q = voiced_pair(v);
    if s.len() >= 2 {
        let matched = s[0] == v && letters_contain(Letters::Noisy, s[1]);
        let skipped: int = if matched {
            2
        } else {
            1
        };
        assert forall|i: int| 0 <= i && i + 1 < s.skip(skipped).len() implies !(equal_pair(v))(
            #[trigger] s.skip(skipped)[i],
            s.skip(skipped)[i + 1],
        ) by {
            assert(s.skip(skipped)[i] == s[i + skipped]);
            assert(s.skip(skipped)[i + 1] == s[i + skipped + 1]);
        }
        lemma_devoice_establish(s.skip(skipped), v, w);
        let rest = devoice(s.skip(skipped), v, w);
        let head: Seq<char> = if matched {
            seq![w, s[1]]
        } else {
            seq![s[0]]
        };
        let t = head + rest;
        assert forall|i: int| 0 <= i && i + 1 < t.len() implies !q(#[trigger] t[i], t[i + 1]) by {
            if i + 1 < head.len() {
                assert(t[0] == w);
            } else if i + 1 == head.len() && rest.len() > 0 {
                lemma_devoice_first(s.skip(skipped), v, w);
                assert(t[i] == head[i]);
                assert(t[i + 1] == rest[0]);
                assert(s.skip(skipped)[0] == s[skipped]);
                if s.skip(skipped).len() >= 2 {
                    assert(s.skip(skipped)[1] == s[skipped + 1]);
                }
                if matched {
                    // the captured consonant is not `v`, else s held `v``v`
                    assert(head[i] == s[1]);
                    assert(s[1] == v ==> (equal_pair(v))(s[0], s[1]));
                } else {
                    // no match at the front: either the head is not `v`, or
                    // what follows is not noisy, and `v` after `v` is ruled out
                    assert(head[i] == s[0]);
                    if s[0] == v {
                        assert(!letters_contain(Letters::Noisy, s[1]));
                        assert(s[1] == v ==> (equal_pair(v))(s[0], s[1]));
                        assert(rest[0] == s[1] || (rest[0] == w && s[1] == v));
                    }
                }
            } else if i >= head.len() {
                assert(t[i] == rest[i - head.len()]);
                assert(t[i + 1] == rest[i + 1 - head.len()]);
            }
        }
    }
}

/// Replacing the last character preserves a pair invariant that is robust
/// against the replacement standing at the end.
proof fn lemma_replace_last_pair_free(s: Seq<char>, v: char, w: char, q: spec_fn(char, char) -> bool)
    requires
        pair_free(s, q),
        s.len() >= 2 && s.last() == v ==> !q(s[s.len() - 2], w),
    ensures
        pair_free(replace_last(s, v, w), q),
{
    let t = replace_last(s, v, w);
    lemma_replace_last_shape(s, v, w);
    assert forall|i: int| 0 <= i && i + 1 < t.len() implies !q(#[trigger] t[i], t[i + 1]) by {
        if s.len() > 0 && s.last() == v {
            assert(t == s.update(s.len() - 1, w));
            if i + 1 < s.len() - 1 {
                assert(t[i] == s[i]);
                assert(t[i + 1] == s[i + 1]);
            } else {
                assert(i == s.len() - 2);
                assert(t[i] == s[i]);
                assert(t[i + 1] == w);
            }
        }
    }
}

/// The first stage of the pipeline: delete the silent signs, strip
/// everything outside А..Я, collapse duplicates.
pub open spec fn strip_stage(s: Seq<char>) -> Seq<char> {
    collapse(sift(sift(s, Letters::Signs, false), Letters::UpperCyrillic, true))
}

/// The vowel stage: merge the iotated digraphs into И, then fold the
/// unstressed vowels (О, Ы, Я to А; Е, Ё, Э to И; Ю to У).
pub open spec fn vowel_stage(s: Seq<char>) -> Seq<char> {
    substitute(
        substitute(
            substitute(
                merge_pairs(s, Letters::Glides, Letters::IotaTails, 'И'),
                Letters::AFold,
                'А',
            ),
            Letters::IFold,
            'И',
        ),
        Letters::UFold,
        'У',
    )
}

/// The devoicing stage: for each voiced/voiceless pair, in the fixed order
/// Б, З, Д, В, Г, devoice before a noisy consonant and then word-finally.
pub open spec fn devoice_stage(s: Seq<char>) -> Seq<char> {
    let b = replace_last(devoice(s, 'Б', 'П'), 'Б', 'П');
    let z = replace_last(devoice(b, 'З', 'С'), 'З', 'С');
    let d = replace_last(devoice(z, 'Д', 'Т'), 'Д', 'Т');
    let v = replace_last(devoice(d, 'В', 'Ф'), 'В', 'Ф');
    replace_last(devoice(v, 'Г', 'К'), 'Г', 'К')
}

/// The whole Russian pipeline, stage by stage: stripping, vowel folding,
/// devoicing, merging the affricate clusters ТС and ДС into Ц, and a final
/// duplicate collapse.
pub open spec fn russian_pipeline(s: Seq<char>) -> Seq<char> {
    collapse(merge_pairs(devoice_stage(vowel_stage(strip_stage(s))), Letters::Dentals, Letters::EssOnly, 'Ц'))
}

/// What the encoder computes for each language, as a composition of the
/// stages: the Ukrainian table first replaces І and Ї by И, then runs the
/// full Russian pipeline.
pub open spec fn pipeline_of(lang: Language, s: Seq<char>) -> Seq<char> {
    match lang {
        Language::Russian => russian_pipeline(s),
        Language::Ukrainian => russian_pipeline(substitute(s, Letters::UkrainianI, 'И')),
    }
}

/// Applying a concatenated rule table from a position inside its second part
/// is applying the second part from the matching position.
proof fn lemma_apply_from_offset(prefix: Seq<Rule>, rest: Seq<Rule>, k: int, s: Seq<char>)
    requires
        0 <= k <= rest.len(),
    ensures
        apply_from(prefix + rest, prefix.len() + k, s) == apply_from(rest, k, s),
    decreases rest.len() - k,
{
    let all = prefix + rest;
    if k < rest.len() {
        assert(all[prefix.len() + k] == rest[k]);
        lemma_apply_from_offset(prefix, rest, k + 1, rule_apply(rest[k], s));
    }
}

/// Folding the Russian rule table over a word is the staged pipeline.
proof fn lemma_russian_unfold(s: Seq<char>)
    ensures
        apply_all(russian_rules(), s) == russian_pipeline(s),
{
    let r = russian_rules();
    let s1 = sift(s, Letters::Signs, false);
    let s2 = sift(s1, Letters::UpperCyrillic, true);
    let s3 = collapse(s2);
    let s4 = merge_pairs(s3, Letters::Glides, Letters::IotaTails, 'И');
    let s5 = substitute(s4, Letters::AFold, 'А');
    let s6 = substitute(s5, Letters::IFold, 'И');
    let s7 = substitute(s6, Letters::UFold, 'У');
    let s8 = devoice(s7, 'Б', 'П');
    let s9 = replace_last(s8, 'Б', 'П');
    let s10 = devoice(s9, 'З', 'С');
    let s11 = replace_last(s10, 'З', 'С');
    let s12 = devoice(s11, 'Д', 'Т');
    let s13 = replace_last(s12, 'Д', 'Т');
    let s14 = devoice(s13, 'В', 'Ф');
    let s15 = replace_last(s14, 'В', 'Ф');
    let s16 = devoice(s15, 'Г', 'К');
    let s17 = replace_last(s16, 'Г', 'К');
    let s18 = merge_pairs(s17, Letters::Dentals, Letters::EssOnly, 'Ц');
    assert(apply_from(r, 0, s) == apply_from(r, 1, s1));
    assert(apply_from(r, 1, s1) == apply_from(r, 2, s2));
    assert(apply_from(r, 2, s2) == apply_from(r, 3, s3));
    assert(apply_from(r, 3, s3) == apply_from(r, 4, s4));
    assert(apply_from(r, 4, s4) == apply_from(r, 5, s5));
    assert(apply_from(r, 5, s5) == apply_from(r, 6, s6));
    assert(apply_from(r, 6, s6) == apply_from(r, 7, s7));
    assert(apply_from(r, 7, s7) == apply_from(r, 8, s8));
    assert(apply_from(r, 8, s8) == apply_from(r, 9, s9));
    assert(apply_from(r, 9, s9) == apply_from(r, 10, s10));
    assert(apply_from(r, 10, s10) == apply_from(r, 11, s11));
    assert(apply_from(r, 11, s11) == apply_from(r, 12, s12));
    assert(apply_from(r, 12, s12) == apply_from(r, 13, s13));
    assert(apply_from(r, 13, s13) == apply_from(r, 14, s14));
    assert(apply_from(r, 14, s14) == apply_from(r, 15, s15));
    assert(apply_from(r, 15, s15) == apply_from(r, 16, s16));
    assert(apply_from(r, 16, s16) == apply_from(r, 17, s17));
    assert(apply_from(r, 17, s17) == apply_from(r, 18, s18));
    assert(apply_from(r, 18, s18) == apply_from(r, 19, collapse(s18)));
    assert(apply_from(r, 19, collapse(s18)) == collapse(s18));
}

/// The encoder's fold over a language's rule table computes the staged
/// pipeline on the uppercased word.
pub proof fn lemma_encode_pipeline(lang: Language, w: Seq<char>)
    ensures
        encode_spec(lang, w) == pipeline_of(lang, upper_word(w)),
{
    let s = upper_word(w);
    match lang {
        Language::Russian => {
            lemma_russian_unfold(s);
        },
        Language::Ukrainian => {
            let uk = rules_of(Language::Ukrainian);
            let t = substitute(s, Letters::UkrainianI, 'И');
            assert(uk[0] == ukrainian_prefix()[0]);
            assert(rule_apply(uk[0], s) == t);
            assert(apply_from(uk, 0, s) == apply_from(uk, 1, t));
            assert(ukrainian_prefix().len() == 1);
            lemma_apply_from_offset(ukrainian_prefix(), russian_rules(), 0, t);
            lemma_russian_unfold(t);
        },
    }
}

/// The word a pipeline of `lang` starts from: the uppercased input, with І
/// and Ї already replaced for Ukrainian.
pub open spec fn pipeline_input(lang: Language, w: Seq<char>) -> Seq<char> {
    match lang {
        Language::Russian => upper_word(w),
        Language::Ukrainian => substitute(upper_word(w), Letters::UkrainianI, 'И'),
    }
}

/// An encoded word never holds two equal adjacent characters: the closing
/// rule of every table is the duplicate collapse.
pub proof fn lemma_encode_no_adjacent_duplicates(lang: Language, w: Seq<char>)
    ensures
        no_adjacent_duplicates(encode_spec(lang, w)),
{
    lemma_encode_pipeline(lang, w);
    let x = pipeline_input(lang, w);
    lemma_collapse_clean(
        merge_pairs(
            devoice_stage(vowel_stage(strip_stage(x))),
            Letters::Dentals,
            Letters::EssOnly,
            'Ц',
        ),
    );
}

/// The devoicing stage keeps the length of the word, and afterwards the word
/// never ends in a voiced obstruent: each word-final rule has removed one
/// voiced letter from the end, and no later rule of the stage changes the
/// last character back.
proof fn lemma_devoice_stage_shape(s: Seq<char>)
    ensures
        devoice_stage(s).len() == s.len(),
        s.len() > 0 ==> !is_voiced(devoice_stage(s).last()),
{
    let db = devoice(s, 'Б', 'П');
    lemma_devoice_shape(s, 'Б', 'П');
    let b = replace_last(db, 'Б', 'П');
    lemma_replace_last_shape(db, 'Б', 'П');
    let dz = devoice(b, 'З', 'С');
    lemma_devoice_shape(b, 'З', 'С');
    let z = replace_last(dz, 'З', 'С');
    lemma_replace_last_shape(dz, 'З', 'С');
    let dd = devoice(z, 'Д', 'Т');
    lemma_devoice_shape(z, 'Д', 'Т');
    let d = replace_last(dd, 'Д', 'Т');
    lemma_replace_last_shape(dd, 'Д', 'Т');
    let dv = devoice(d, 'В', 'Ф');
    lemma_devoice_shape(d, 'В', 'Ф');
    let v = replace_last(dv, 'В', 'Ф');
    lemma_replace_last_shape(dv, 'В', 'Ф');
    let dg = devoice(v, 'Г', 'К');
    lemma_devoice_shape(v, 'Г', 'К');
    lemma_replace_last_shape(dg, 'Г', 'К');
}

/// An encoded word never ends in a voiced obstruent (Б, З, Д, В or Г): a
/// word-final voiced consonant always surfaces as its voiceless counterpart.
pub proof fn lemma_encode_final_devoiced(lang: Language, w: Seq<char>)
    ensures
        encode_spec(lang, w).len() > 0 ==> !is_voiced(encode_spec(lang, w).last()),
{
    lemma_encode_pipeline(lang, w);
    let x = pipeline_input(lang, w);
    let folded = vowel_stage(strip_stage(x));
    let dv = devoice_stage(folded);
    let af = merge_pairs(dv, Letters::Dentals, Letters::EssOnly, 'Ц');
    if encode_spec(lang, w).len() > 0 {
        assert(af.len() > 0);
        lemma_collapse_last(af);
        assert(dv.len() > 0);
        lemma_merge_pairs_shape(dv, Letters::Dentals, Letters::EssOnly, 'Ц');
        lemma_devoice_stage_shape(folded);
    }
}

/// Through the devoicing stage, each pass removes every occurrence of its
/// voiced letter before a noisy consonant and at the word's end, and no
/// later pass of the stage reintroduces one. The stage needs no adjacent
/// equal voiced pair in its input; the collapse earlier in the pipeline
/// guarantees that.
proof fn lemma_devoice_stage_pairs(s: Seq<char>)
    requires
        pair_free(s, equal_pair('Б')),
        pair_free(s, equal_pair('З')),
        pair_free(s, equal_pair('Д')),
        pair_free(s, equal_pair('В')),
        pair_free(s, equal_pair('Г')),
    ensures
        pair_free(devoice_stage(s), voiced_pair('Б')),
        pair_free(devoice_stage(s), voiced_pair('З')),
        pair_free(devoice_stage(s), voiced_pair('Д')),
        pair_free(devoice_stage(s), voiced_pair('В')),
        pair_free(devoice_stage(s), voiced_pair('Г')),
{
    let db = devoice(s, 'Б', 'П');
    lemma_devoice_establish(s, 'Б', 'П');
    lemma_devoice_pair_free(s, 'Б', 'П', equal_pair('З'));
    lemma_devoice_pair_free(s, 'Б', 'П', equal_pair('Д'));
    lemma_devoice_pair_free(s, 'Б', 'П', equal_pair('В'));
    lemma_devoice_pair_free(s, 'Б', 'П', equal_pair('Г'));
    let b = replace_last(db, 'Б', 'П');
    lemma_replace_last_pair_free(db, 'Б', 'П', voiced_pair('Б'));
    lemma_replace_last_pair_free(db, 'Б', 'П', equal_pair('З'));
    lemma_replace_last_pair_free(db, 'Б', 'П', equal_pair('Д'));
    lemma_replace_last_pair_free(db, 'Б', 'П', equal_pair('В'));
    lemma_replace_last_pair_free(db, 'Б', 'П', equal_pair('Г'));
    let dz = devoice(b, 'З', 'С');
    lemma_devoice_establish(b, 'З', 'С');
    lemma_devoice_pair_free(b, 'З', 'С', voiced_pair('Б'));
    lemma_devoice_pair_free(b, 'З', 'С', equal_pair('Д'));
    lemma_devoice_pair_free(b, 'З', 'С', equal_pair('В'));
    lemma_devoice_pair_free(b, 'З', 'С', equal_pair('Г'));
    let z = replace_last(dz, 'З', 'С');
    lemma_replace_last_pair_free(dz, 'З', 'С', voiced_pair('Б'));
    lemma_replace_last_pair_free(dz, 'З', 'С', voiced_pair('З'));
    lemma_replace_last_pair_free(dz, 'З', 'С', equal_pair('Д'));
    lemma_replace_last_pair_free(dz, 'З', 'С', equal_pair('В'));
    lemma_replace_last_pair_free(dz, 'З', 'С', equal_pair('Г'));
    let dd = devoice(z, 'Д', 'Т');
    lemma_devoice_establish(z, 'Д', 'Т');
    lemma_devoice_pair_free(z, 'Д', 'Т', voiced_pair('Б'));
    lemma_devoice_pair_free(z, 'Д', 'Т', voiced_pair('З'));
    lemma_devoice_pair_free(z, 'Д', 'Т', equal_pair('В'));
    lemma_devoice_pair_free(z, 'Д', 'Т', equal_pair('Г'));
    let d = replace_last(dd, 'Д', 'Т');
    lemma_replace_last_pair_free(dd, 'Д', 'Т', voiced_pair('Б'));
    lemma_replace_last_pair_free(dd, 'Д', 'Т', voiced_pair('З'));
    lemma_replace_last_pair_free(dd, 'Д', 'Т', voiced_pair('Д'));
    lemma_replace_last_pair_free(dd, 'Д', 'Т', equal_pair('В'));
    lemma_replace_last_pair_free(dd, 'Д', 'Т', equal_pair('Г'));
    let dv = devoice(d, 'В', 'Ф');
    lemma_devoice_establish(d, 'В', 'Ф');
    lemma_devoice_pair_free(d, 'В', 'Ф', voiced_pair('Б'));
    lemma_devoice_pair_free(d, 'В', 'Ф', voiced_pair('З'));
    lemma_devoice_pair_free(d, 'В', 'Ф', voiced_pair('Д'));
    lemma_devoice_pair_free(d, 'В', 'Ф', equal_pair('Г'));
    let v = replace_last(dv, 'В', 'Ф');
    lemma_replace_last_pair_free(dv, 'В', 'Ф', voiced_pair('Б'));
    lemma_replace_last_pair_free(dv, 'В', 'Ф', voiced_pair('З'));
    lemma_replace_last_pair_free(dv, 'В', 'Ф', voiced_pair('Д'));
    lemma_replace_last_pair_free(dv, 'В', 'Ф', voiced_pair('В'));
    lemma_replace_last_pair_free(dv, 'В', 'Ф', equal_pair('Г'));
    let dg = devoice(v, 'Г', 'К');
    lemma_devoice_establish(v, 'Г', 'К');
    lemma_devoice_pair_free(v, 'Г', 'К', voiced_pair('Б'));
    lemma_devoice_pair_free(v, 'Г', 'К', voiced_pair('З'));
    lemma_devoice_pair_free(v, 'Г', 'К', voiced_pair('Д'));
    lemma_devoice_pair_free(v, 'Г', 'К', voiced_pair('В'));
    lemma_replace_last_pair_free(dg, 'Г', 'К', voiced_pair('Б'));
    lemma_replace_last_pair_free(dg, 'Г', 'К', voiced_pair('З'));
    lemma_replace_last_pair_free(dg, 'Г', 'К', voiced_pair('Д'));
    lemma_replace_last_pair_free(dg, 'Г', 'К', voiced_pair('В'));
    lemma_replace_last_pair_free(dg, 'Г', 'К', voiced_pair('Г'));
}

/// In an encoded word no voiced obstruent (Б, З, Д, В or Г) ever stands
/// directly before a noisy consonant: a voiced consonant in that position
/// always surfaces as its voiceless counterpart.
pub proof fn lemma_encode_no_voiced_before_consonant(lang: Language, w: Seq<char>)
    ensures
        forall|i: int|
            0 <= i && i + 1 < encode_spec(lang, w).len() ==> !(is_voiced(
                #[trigger] encode_spec(lang, w)[i],
            ) && letters_contain(Letters::Noisy, encode_spec(lang, w)[i + 1])),
{
    lemma_encode_pipeline(lang, w);
    let x = pipeline_input(lang, w);
    let a2 = sift(sift(x, Letters::Signs, false), Letters::UpperCyrillic, true);
    let st = collapse(a2);
    lemma_collapse_clean(a2);
    lemma_merge_pairs_pair_free(st, Letters::Glides, Letters::IotaTails, 'И', equal_pair('Б'));
    lemma_merge_pairs_pair_free(st, Letters::Glides, Letters::IotaTails, 'И', equal_pair('З'));
    lemma_merge_pairs_pair_free(st, Letters::Glides, Letters::IotaTails, 'И', equal_pair('Д'));
    lemma_merge_pairs_pair_free(st, Letters::Glides, Letters::IotaTails, 'И', equal_pair('В'));
    lemma_merge_pairs_pair_free(st, Letters::Glides, Letters::IotaTails, 'И', equal_pair('Г'));
    let m = merge_pairs(st, Letters::Glides, Letters::IotaTails, 'И');
    lemma_substitute_pair_free(m, Letters::AFold, 'А', equal_pair('Б'));
    lemma_substitute_pair_free(m, Letters::AFold, 'А', equal_pair('З'));
    lemma_substitute_pair_free(m, Letters::AFold, 'А', equal_pair('Д'));
    lemma_substitute_pair_free(m, Letters::AFold, 'А', equal_pair('В'));
    lemma_substitute_pair_free(m, Letters::AFold, 'А', equal_pair('Г'));
    let v1 = substitute(m, Letters::AFold, 'А');
    lemma_substitute_pair_free(v1, Letters::IFold, 'И', equal_pair('Б'));
    lemma_substitute_pair_free(v1, Letters::IFold, 'И', equal_pair('З'));
    lemma_substitute_pair_free(v1, Letters::IFold, 'И', equal_pair('Д'));
    lemma_substitute_pair_free(v1, Letters::IFold, 'И', equal_pair('В'));
    lemma_substitute_pair_free(v1, Letters::IFold, 'И', equal_pair('Г'));
    let v2 = substitute(v1, Letters::IFold, 'И');
    lemma_substitute_pair_free(v2, Letters::UFold, 'У', equal_pair('Б'));
    lemma_substitute_pair_free(v2, Letters::UFold, 'У', equal_pair('З'));
    lemma_substitute_pair_free(v2, Letters::UFold, 'У', equal_pair('Д'));
    lemma_substitute_pair_free(v2, Letters::UFold, 'У', equal_pair('В'));
    lemma_substitute_pair_free(v2, Letters::UFold, 'У', equal_pair('Г'));
    let v3 = substitute(v2, Letters::UFold, 'У');
    lemma_devoice_stage_pairs(v3);
    let g = devoice_stage(v3);
    lemma_merge_pairs_pair_free(g, Letters::Dentals, Letters::EssOnly, 'Ц', voiced_pair('Б'));
    lemma_merge_pairs_pair_free(g, Letters::Dentals, Letters::EssOnly, 'Ц', voiced_pair('З'));
    lemma_merge_pairs_pair_free(g, Letters::Dentals, Letters::EssOnly, 'Ц', voiced_pair('Д'));
    lemma_merge_pairs_pair_free(g, Letters::Dentals, Letters::EssOnly, 'Ц', voiced_pair('В'));
    lemma_merge_pairs_pair_free(g, Letters::Dentals, Letters::EssOnly, 'Ц', voiced_pair('Г'));
    let af = merge_pairs(g, Letters::Dentals, Letters::EssOnly, 'Ц');
    lemma_collapse_pair_free(af, voiced_pair('Б'));
    lemma_collapse_pair_free(af, voiced_pair('З'));
    lemma_collapse_pair_free(af, voiced_pair('Д'));
    lemma_collapse_pair_free(af, voiced_pair('В'));
    lemma_collapse_pair_free(af, voiced_pair('Г'));
    let e = encode_spec(lang, w);
    assert forall|i: int| 0 <= i && i + 1 < e.len() implies !(is_voiced(#[trigger] e[i])
        && letters_contain(Letters::Noisy, e[i + 1])) by {
        assert(e == collapse(af));
        if e[i] == 'Б' {
            assert(!(voiced_pair('Б'))(e[i], e[i + 1]));
        }
        if e[i] == 'З' {
            assert(!(voiced_pair('З'))(e[i], e[i + 1]));
        }
        if e[i] == 'Д' {
            assert(!(voiced_pair('Д'))(e[i], e[i + 1]));
        }
        if e[i] == 'В' {
            assert(!(voiced_pair('В'))(e[i], e[i + 1]));
        }
        if e[i] == 'Г' {
            assert(!(voiced_pair('Г'))(e[i], e[i + 1]));
        }
    }
}

/// Every character of an encoded word lies in the fixed output alphabet:
/// the uppercase Cyrillic range without the deleted signs and without the
/// folded vowels. This holds for any input whatever, in both languages.
pub proof fn lemma_encode_output_alphabet(lang: Language, w: Seq<char>)
    ensures
        forall|i: int|
            0 <= i < encode_spec(lang, w).len() ==> in_output_alphabet(
                #[trigger] encode_spec(lang, w)[i],
            ),
{
    lemma_encode_pipeline(lang, w);
    let x = pipeline_input(lang, w);
    let a1 = sift(x, Letters::Signs, false);
    lemma_sift_chars(x, Letters::Signs, false, |c: char| true);
    let cyr = |c: char|
        letters_contain(Letters::UpperCyrillic, c) && !letters_contain(Letters::Signs, c);
    let a2 = sift(a1, Letters::UpperCyrillic, true);
    lemma_sift_chars(a1, Letters::UpperCyrillic, true, |c: char| !letters_contain(Letters::Signs, c));
    assert forall|i: int| 0 <= i < a2.len() implies cyr(#[trigger] a2[i]) by {}
    let st = collapse(a2);
    lemma_collapse_chars(a2, cyr);
    let m = merge_pairs(st, Letters::Glides, Letters::IotaTails, 'И');
    lemma_merge_pairs_chars(st, Letters::Glides, Letters::IotaTails, 'И', cyr);
    let pa = |c: char| cyr(c) && !letters_contain(Letters::AFold, c);
    let v1 = substitute(m, Letters::AFold, 'А');
    lemma_substitute_all(m, Letters::AFold, 'А', pa);
    let pb = |c: char| cyr(c) && !letters_contain(Letters::AFold, c) && !letters_contain(
        Letters::IFold,
        c,
    );
    let v2 = substitute(v1, Letters::IFold, 'И');
    lemma_substitute_all(v1, Letters::IFold, 'И', pb);
    let alpha = |c: char| in_output_alphabet(c);
    let v3 = substitute(v2, Letters::UFold, 'У');
    lemma_substitute_all(v2, Letters::UFold, 'У', alpha);
    let db = devoice(v3, 'Б', 'П');
    lemma_devoice_chars(v3, 'Б', 'П', alpha);
    let b = replace_last(db, 'Б', 'П');
    lemma_replace_last_all(db, 'Б', 'П', alpha);
    let dz = devoice(b, 'З', 'С');
    lemma_devoice_chars(b, 'З', 'С', alpha);
    let z = replace_last(dz, 'З', 'С');
    lemma_replace_last_all(dz, 'З', 'С', alpha);
    let dd = devoice(z, 'Д', 'Т');
    lemma_devoice_chars(z, 'Д', 'Т', alpha);
    let d = replace_last(dd, 'Д', 'Т');
    lemma_replace_last_all(dd, 'Д', 'Т', alpha);
    let dvv = devoice(d, 'В', 'Ф');
    lemma_devoice_chars(d, 'В', 'Ф', alpha);
    let v = replace_last(dvv, 'В', 'Ф');
    lemma_replace_last_all(dvv, 'В', 'Ф', alpha);
    let dg = devoice(v, 'Г', 'К');
    lemma_devoice_chars(v, 'Г', 'К', alpha);
    let g = replace_last(dg, 'Г', 'К');
    lemma_replace_last_all(dg, 'Г', 'К', alpha);
    let af = merge_pairs(g, Letters::Dentals, Letters::EssOnly, 'Ц');
    lemma_merge_pairs_chars(g, Letters::Dentals, Letters::EssOnly, 'Ц', alpha);
    lemma_collapse_chars(af, alpha);
}

} // verus!
