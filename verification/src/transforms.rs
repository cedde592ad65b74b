//! The text transformations that the rewrite rules are built from, each with
//! an exact specification over sequences of characters: deleting or keeping a
//! character class, per-character substitution, merging two-character
//! clusters, devoicing before a noisy consonant, replacing a word-final
//! letter, and collapsing runs of equal adjacent characters.
//!
//! Every pattern transformation scans the input left to right and replaces
//! non-overlapping matches; replaced text is not scanned again.

use crate::alphabet::Letters;
use crate::alphabet::contains_letter;
use crate::alphabet::letters_contain;
use vstd::prelude::*;
use vstd::string::StrSliceExecFns;

verus! {

/// The characters of `s` whose membership in `ls` equals `keep`, in order:
/// with `keep == false` the class is deleted, with `keep == true` everything
/// outside the class is deleted.
pub open spec fn sift(s: Seq<char>, ls: Letters, keep: bool) -> Seq<char>
    decreases s.len(),
{
    if s.len() == 0 {
        Seq::empty()
    } else if letters_contain(ls, s[0]) == keep {
        seq![s[0]] + sift(s.skip(1), ls, keep)
    } else {
        sift(s.skip(1), ls, keep)
    }
}

/// One character under a class substitution: `to` for members of `ls`, the
/// character itself otherwise.
pub open spec fn subst_char(ls: Letters, to: char, c: char) -> char {
    if letters_contain(ls, c) {
        to
    } else {
        c
    }
}

/// `s` with every character of the class `ls` replaced by `to`.
pub open spec fn substitute(s: Seq<char>, ls: Letters, to: char) -> Seq<char> {
    s.map_values(|c: char| subst_char(ls, to, c))
}

/// `s` with every non-overlapping pair of a character from `a` followed by a
/// character from `b` replaced by the single character `to`, scanning left
/// to right.
pub open spec fn merge_pairs(s: Seq<char>, a: Letters, b: Letters, to: char) -> Seq<char>
    decreases s.len(),
{
    if s.len() < 2 {
        s
    } else if letters_contain(a, s[0]) && letters_contain(b, s[1]) {
        seq![to] + merge_pairs(s.skip(2), a, b, to)
    } else {
        seq![s[0]] + merge_pairs(s.skip(1), a, b, to)
    }
}

/// `s` with `voiced` replaced by `voiceless` wherever a noisy consonant
/// follows, scanning left to right; the following consonant is kept and, as
/// part of the match, is not scanned again.
pub open spec fn devoice(s: Seq<char>, voiced: char, voiceless: char) -> Seq<char>
    decreases s.len(),
{
    if s.len() < 2 {
        s
    } else if s[0] == voiced && letters_contain(Letters::Noisy, s[1]) {
        seq![voiceless, s[1]] + devoice(s.skip(2), voiced, voiceless)
    } else {
        seq![s[0]] + devoice(s.skip(1), voiced, voiceless)
    }
}

/// `s` with its last character replaced by `to` when that character is
/// `from`; otherwise `s` unchanged.
pub open spec fn replace_last(s: Seq<char>, from: char, to: char) -> Seq<char> {
    if s.len() > 0 && s.last() == from {
        s.update(s.len() - 1, to)
    } else {
        s
    }
}

/// `s` with every run of two or more equal adjacent characters collapsed to
/// a single occurrence; non-adjacent repeats are untouched.
pub open spec fn collapse(s: Seq<char>) -> Seq<char>
    decreases s.len(),
{
    if s.len() < 2 {
        s
    } else if s[0] == s[1] {
        collapse(s.skip(1))
    } else {
        seq![s[0]] + collapse(s.skip(1))
    }
}

/// Shape of a suffix of `s`: dropping one or two characters from the suffix
/// at `i` gives the suffix at `i + 1` or `i + 2`.
pub proof fn lemma_skip_step(s: Seq<char>, i: int)
    requires
        0 <= i < s.len(),
    ensures
        s.skip(i).len() == s.len() - i,
        s.skip(i)[0] == s[i],
        s.skip(i).skip(1) == s.skip(i + 1),
        i + 1 < s.len() ==> s.skip(i)[1] == s[i + 1],
        i + 2 <= s.len() ==> s.skip(i).skip(2) == s.skip(i + 2),
{
    assert(s.skip(i).skip(1) =~= s.skip(i + 1));
    if i + 2 <= s.len() {
        assert(s.skip(i).skip(2) =~= s.skip(i + 2));
    }
}

/// Deletes (`keep == false`) or keeps (`keep == true`) the characters of the
/// class `ls`, as `sift` specifies.
pub fn sift_chars(s: &Vec<char>, ls: Letters, keep: bool) -> (out: Vec<char>)
    ensures
        out@ == sift(s@, ls, keep),
{
    let mut out: Vec<char> = Vec::new();
    let mut i: usize = 0;
    proof {
        assert(s@.skip(0) =~= s@);
        assert(out@ + sift(s@, ls, keep) =~= sift(s@, ls, keep));
    }
    while i < s.len()
        invariant
            i <= s@.len(),
            sift(s@, ls, keep) == out@ + sift(s@.skip(i as int), ls, keep),
        decreases s@.len() - i,
    {
        proof {
            lemma_skip_step(s@, i as int);
        }
        let ghost prev = out@;
        let c = s[i];
        if contains_letter(ls, c) == keep {
            out.push(c);
            proof {
                assert(prev + (seq![c] + sift(s@.skip(i + 1), ls, keep)) =~= out@ + sift(
                    s@.skip(i + 1),
                    ls,
                    keep,
                ));
            }
        }
        i = i + 1;
    }
    proof {
        assert(s@.skip(s@.len() as int) =~= Seq::<char>::empty());
        assert(out@ + Seq::<char>::empty() =~= out@);
    }
    out
}

/// Replaces every character of the class `ls` by `to`, as `substitute`
/// specifies.
pub fn substitute_chars(s: &Vec<char>, ls: Letters, to: char) -> (out: Vec<char>)
    ensures
        out@ == substitute(s@, ls, to),
{
    let mut out: Vec<char> = Vec::new();
    let mut i: usize = 0;
    while i < s.len()
        invariant
            i <= s@.len(),
            out@.len() == i,
            forall|j: int|
                0 <= j < i ==> out@[j] == (if letters_contain(ls, s@[j]) {
                    to
                } else {
                    s@[j]
                }),
        decreases s@.len() - i,
    {
        let c = s[i];
        if contains_letter(ls, c) {
            out.push(to);
        } else {
            out.push(c);
        }
        i = i + 1;
    }
    proof {
        assert(out@ =~= substitute(s@, ls, to));
    }
    out
}

/// Merges every non-overlapping pair from `a` then `b` into `to`, as
/// `merge_pairs` specifies.
pub fn merge_pairs_chars(s: &Vec<char>, a: Letters, b: Letters, to: char) -> (out: Vec<char>)
    ensures
        out@ == merge_pairs(s@, a, b, to),
{
    let mut out: Vec<char> = Vec::new();
    let mut i: usize = 0;
    proof {
        assert(s@.skip(0) =~= s@);
        assert(out@ + merge_pairs(s@, a, b, to) =~= merge_pairs(s@, a, b, to));
    }
    while i < s.len()
        invariant
            i <= s@.len(),
            merge_pairs(s@, a, b, to) == out@ + merge_pairs(s@.skip(i as int), a, b, to),
        decreases s@.len() - i,
    {
        proof {
            lemma_skip_step(s@, i as int);
        }
        let ghost prev = out@;
        let ghost rest = s@.skip(i as int);
        if i + 1 < s.len() && contains_letter(a, s[i]) && contains_letter(b, s[i + 1]) {
            out.push(to);
            proof {
                assert(merge_pairs(rest, a, b, to) == seq![to] + merge_pairs(
                    s@.skip(i + 2),
                    a,
                    b,
                    to,
                ));
                assert(prev + (seq![to] + merge_pairs(s@.skip(i + 2), a, b, to)) =~= out@
                    + merge_pairs(s@.skip(i + 2), a, b, to));
            }
            i = i + 2;
        } else {
            let c = s[i];
            out.push(c);
            proof {
                if i + 1 < s@.len() {
                    assert(merge_pairs(rest, a, b, to) == seq![c] + merge_pairs(
                        s@.skip(i + 1),
                        a,
                        b,
                        to,
                    ));
                } else {
                    assert(rest =~= seq![c]);
                    assert(merge_pairs(rest, a, b, to) == rest);
                    assert(s@.skip(i + 1) =~= Seq::<char>::empty());
                    assert(merge_pairs(rest, a, b, to) =~= seq![c] + merge_pairs(
                        s@.skip(i + 1),
                        a,
                        b,
                        to,
                    ));
                }
                assert(prev + (seq![c] + merge_pairs(s@.skip(i + 1), a, b, to)) =~= out@
                    + merge_pairs(s@.skip(i + 1), a, b, to));
            }
            i = i + 1;
        }
    }
    proof {
        assert(s@.skip(s@.len() as int) =~= Seq::<char>::empty());
        assert(out@ + Seq::<char>::empty() =~= out@);
    }
    out
}

/// Replaces `voiced` by `voiceless` before every noisy consonant, as
/// `devoice` specifies.
pub fn devoice_chars(s: &Vec<char>, voiced: char, voiceless: char) -> (out: Vec<char>)
    ensures
        out@ == devoice(s@, voiced, voiceless),
{
    let mut out: Vec<char> = Vec::new();
    let mut i: usize = 0;
    proof {
        assert(s@.skip(0) =~= s@);
        assert(out@ + devoice(s@, voiced, voiceless) =~= devoice(s@, voiced, voiceless));
    }
    while i < s.len()
        invariant
            i <= s@.len(),
            devoice(s@, voiced, voiceless) == out@ + devoice(s@.skip(i as int), voiced, voiceless),
        decreases s@.len() - i,
    {
        proof {
            lemma_skip_step(s@, i as int);
        }
        let ghost prev = out@;
        let ghost rest = s@.skip(i as int);
        if i + 1 < s.len() && s[i] == voiced && contains_letter(Letters::Noisy, s[i + 1]) {
            let after = s[i + 1];
            out.push(voiceless);
            out.push(after);
            proof {
                assert(devoice(rest, voiced, voiceless) == seq![voiceless, after] + devoice(
                    s@.skip(i + 2),
                    voiced,
                    voiceless,
                ));
                assert(prev + (seq![voiceless, after] + devoice(s@.skip(i + 2), voiced, voiceless))
                    =~= out@ + devoice(s@.skip(i + 2), voiced, voiceless));
            }
            i = i + 2;
        } else {
            let c = s[i];
            out.push(c);
            proof {
                if i + 1 < s@.len() {
                    assert(devoice(rest, voiced, voiceless) == seq![c] + devoice(
                        s@.skip(i + 1),
                        voiced,
                        voiceless,
                    ));
                } else {
                    assert(rest =~= seq![c]);
                    assert(devoice(rest, voiced, voiceless) == rest);
                    assert(s@.skip(i + 1) =~= Seq::<char>::empty());
                    assert(devoice(rest, voiced, voiceless) =~= seq![c] + devoice(
                        s@.skip(i + 1),
                        voiced,
                        voiceless,
                    ));
                }
                assert(prev + (seq![c] + devoice(s@.skip(i + 1), voiced, voiceless)) =~= out@
                    + devoice(s@.skip(i + 1), voiced, voiceless));
            }
            i = i + 1;
        }
    }
    proof {
        assert(s@.skip(s@.len() as int) =~= Seq::<char>::empty());
        assert(out@ + Seq::<char>::empty() =~= out@);
    }
    out
}

/// Replaces a word-final `from` by `to`, as `replace_last` specifies.
pub fn replace_last_chars(s: &Vec<char>, from: char, to: char) -> (out: Vec<char>)
    ensures
        out@ == replace_last(s@, from, to),
{
    let n = s.len();
    let mut out: Vec<char> = Vec::new();
    let mut i: usize = 0;
    while i < n
        invariant
            i <= n,
            n == s@.len(),
            out@.len() == i,
            forall|j: int|
                0 <= j < i ==> out@[j] == (if j + 1 == s@.len() && s@[j] == from {
                    to
                } else {
                    s@[j]
                }),
        decreases n - i,
    {
        let c = s[i];
        if i + 1 == n && c == from {
            out.push(to);
        } else {
            out.push(c);
        }
        i = i + 1;
    }
    proof {
        assert(out@ =~= replace_last(s@, from, to));
    }
    out
}

/// Collapses runs of equal adjacent characters, as `collapse` specifies.
pub fn collapse_chars(s: &Vec<char>) -> (out: Vec<char>)
    ensures
        out@ == collapse(s@),
{
    let n = s.len();
    let mut out: Vec<char> = Vec::new();
    let mut i: usize = 0;
    proof {
        assert(s@.skip(0) =~= s@);
        assert(out@ + collapse(s@) =~= collapse(s@));
    }
    while i + 1 < n
        invariant
            n == s@.len(),
            n > 0 ==> i < n,
            n == 0 ==> i == 0,
            collapse(s@) == out@ + collapse(s@.skip(i as int)),
        decreases n - i,
    {
        proof {
            lemma_skip_step(s@, i as int);
        }
        let ghost prev = out@;
        let c = s[i];
        if c != s[i + 1] {
            out.push(c);
            proof {
                assert(prev + (seq![c] + collapse(s@.skip(i + 1))) =~= out@ + collapse(
                    s@.skip(i + 1),
                ));
            }
        }
        i = i + 1;
    }
    if s.len() > 0 {
        proof {
            lemma_skip_step(s@, i as int);
            assert(s@.skip(i as int) =~= seq![s@[i as int]]);
        }
        let ghost prev = out@;
        let c = s[i];
        out.push(c);
        proof {
            assert(prev + seq![c] =~= out@);
        }
    } else {
        proof {
            assert(s@.skip(0) =~= Seq::<char>::empty());
            assert(out@ + Seq::<char>::empty() =~= out@);
        }
    }
    out
}

/// The characters of a string, in order.
pub fn chars_of_str(s: &str) -> (v: Vec<char>)
    ensures
        v@ == s@,
{
    let n = s.unicode_len();
    let mut v: Vec<char> = Vec::new();
    let mut i: usize = 0;
    while i < n
        invariant
            i <= n,
            n == s@.len(),
            v@ == s@.take(i as int),
        decreases n - i,
    {
        let c = s.get_char(i);
        v.push(c);
        proof {
            assert(s@.take(i as int).push(s@[i as int]) =~= s@.take(i as int + 1));
        }
        i = i + 1;
    }
    proof {
        assert(s@.take(n as int) =~= s@);
    }
    v
}

/// Relies on `String: FromIterator<char>`: collecting the characters of a
/// vector yields the string of exactly those characters, in order.
#[verifier::external_body]
pub(crate) fn string_from_chars(v: &Vec<char>) -> (s: String)
    ensures
        s@ == v@,
{
    v.iter().collect()
}

/// Collapses every run of two or more equal adjacent characters of `data` to
/// a single occurrence; non-adjacent repeats are untouched. The output is
/// never longer than the input, and the operation is idempotent (proved in
/// `laws`).
pub fn remove_duplicate_characters(data: &str) -> (result: String)
    ensures
        result@ == collapse(data@),
{
    let chars = chars_of_str(data);
    let collapsed = collapse_chars(&chars);
    string_from_chars(&collapsed)
}

} // verus!
