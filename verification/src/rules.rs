//! The rewrite rules: a rule is either a pattern rule (a search shape with
//! its replacement) or a named normalization function, and the two canonical
//! rule tables (Russian, and the Ukrainian prefix) are fixed ordered
//! sequences of such rules. Order is load-bearing: every rule operates on
//! the output of the rules before it.

use crate::alphabet::Letters;
use crate::transforms::collapse;
use crate::transforms::collapse_chars;
use crate::transforms::devoice;
use crate::transforms::devoice_chars;
use crate::transforms::merge_pairs;
use crate::transforms::merge_pairs_chars;
use crate::transforms::replace_last;
use crate::transforms::replace_last_chars;
use crate::transforms::sift;
use crate::transforms::sift_chars;
use crate::transforms::substitute;
use crate::transforms::substitute_chars;
use vstd::prelude::*;

verus! {

/// A search pattern together with its replacement. Each shape stands for one
/// kind of global, left-to-right, non-overlapping rewrite.
#[derive(Clone, Copy, Debug)]
pub enum Pattern {
    /// Delete every character of the class.
    Remove(Letters),
    /// Delete every character outside the class.
    Keep(Letters),
    /// Replace every character of the class by the given character.
    Subst(Letters, char),
    /// Replace every pair of a character from the first class followed by a
    /// character from the second class with the given character.
    MergePair(Letters, Letters, char),
    /// Replace the first character by the second wherever a noisy consonant
    /// follows; the consonant is captured and re-emitted unchanged.
    DevoiceBefore(char, char),
    /// Replace a word-final occurrence of the first character by the second.
    ReplaceLast(char, char),
}

/// A named pure normalization function.
#[derive(Clone, Copy, Debug)]
pub enum NormFn {
    /// Collapse runs of equal adjacent characters to a single occurrence.
    RemoveDuplicates,
}

/// One rewrite rule: a pattern rule or a normalization function. A rule
/// never mutates once constructed; engines share the rule tables read-only.
#[derive(Clone, Copy, Debug)]
pub enum Rule {
    Pattern(Pattern),
    Function(NormFn),
}

impl Rule {
    /// Builds a pattern rule.
    pub fn new_re(from: Pattern) -> (r: Self)
        ensures
            r == Rule::Pattern(from),
    {
        Rule::Pattern(from)
    }

    /// Builds a normalization-function rule.
    pub fn new_fn(function: NormFn) -> (r: Self)
        ensures
            r == Rule::Function(function),
    {
        Rule::Function(function)
    }
}

/// What applying one rule to a word yields.
pub open spec fn rule_apply(r: Rule, s: Seq<char>) -> Seq<char> {
    match r {
        Rule::Pattern(p) => match p {
            Pattern::Remove(ls) => sift(s, ls, false),
            Pattern::Keep(ls) => sift(s, ls, true),
            Pattern::Subst(ls, to) => substitute(s, ls, to),
            Pattern::MergePair(a, b, to) => merge_pairs(s, a, b, to),
            Pattern::DevoiceBefore(v, w) => devoice(s, v, w),
            Pattern::ReplaceLast(v, w) => replace_last(s, v, w),
        },
        Rule::Function(f) => match f {
            NormFn::RemoveDuplicates => collapse(s),
        },
    }
}

/// Applies one rule to a word, as `rule_apply` specifies.
pub fn apply_rule(r: &Rule, s: &Vec<char>) -> (out: Vec<char>)
    ensures
        out@ == rule_apply(*r, s@),
{
    match r {
        Rule::Pattern(p) => match p {
            Pattern::Remove(ls) => sift_chars(s, *ls, false),
            Pattern::Keep(ls) => sift_chars(s, *ls, true),
            Pattern::Subst(ls, to) => substitute_chars(s, *ls, *to),
            Pattern::MergePair(a, b, to) => merge_pairs_chars(s, *a, *b, *to),
            Pattern::DevoiceBefore(v, w) => devoice_chars(s, *v, *w),
            Pattern::ReplaceLast(v, w) => replace_last_chars(s, *v, *w),
        },
        Rule::Function(f) => match f {
            NormFn::RemoveDuplicates => collapse_chars(s),
        },
    }
}

/// The Russian rule table, in exact application order: delete the silent
/// signs, strip everything outside А..Я, collapse duplicates, merge the
/// iotated digraphs into И, fold the unstressed vowels, devoice the five
/// voiced consonants (before a noisy consonant, then word-finally, letter by
/// letter in the fixed order Б, З, Д, В, Г), merge the affricate clusters
/// ТС and ДС into Ц, and collapse duplicates once more.
pub open spec fn russian_rules() -> Seq<Rule> {
    seq![
        Rule::Pattern(Pattern::Remove(Letters::Signs)),
        Rule::Pattern(Pattern::Keep(Letters::UpperCyrillic)),
        Rule::Function(NormFn::RemoveDuplicates),
        Rule::Pattern(Pattern::MergePair(Letters::Glides, Letters::IotaTails, 'И')),
        Rule::Pattern(Pattern::Subst(Letters::AFold, 'А')),
        Rule::Pattern(Pattern::Subst(Letters::IFold, 'И')),
        Rule::Pattern(Pattern::Subst(Letters::UFold, 'У')),
        Rule::Pattern(Pattern::DevoiceBefore('Б', 'П')),
        Rule::Pattern(Pattern::ReplaceLast('Б', 'П')),
        Rule::Pattern(Pattern::DevoiceBefore('З', 'С')),
        Rule::Pattern(Pattern::ReplaceLast('З', 'С')),
        Rule::Pattern(Pattern::DevoiceBefore('Д', 'Т')),
        Rule::Pattern(Pattern::ReplaceLast('Д', 'Т')),
        Rule::Pattern(Pattern::DevoiceBefore('В', 'Ф')),
        Rule::Pattern(Pattern::ReplaceLast('В', 'Ф')),
        Rule::Pattern(Pattern::DevoiceBefore('Г', 'К')),
        Rule::Pattern(Pattern::ReplaceLast('Г', 'К')),
        Rule::Pattern(Pattern::MergePair(Letters::Dentals, Letters::EssOnly, 'Ц')),
        Rule::Function(NormFn::RemoveDuplicates),
    ]
}

/// The Ukrainian prefix: replace І and Ї by И. The full Ukrainian table is
/// this prefix followed by every Russian rule.
pub open spec fn ukrainian_prefix() -> Seq<Rule> {
    seq![Rule::Pattern(Pattern::Subst(Letters::UkrainianI, 'И'))]
}

/// Builds the Russian rule table.
pub fn russian_rule_vec() -> (v: Vec<Rule>)
    ensures
        v@ == russian_rules(),
{
    let mut v: Vec<Rule> = Vec::new();
    v.push(Rule::new_re(Pattern::Remove(Letters::Signs)));
    v.push(Rule::new_re(Pattern::Keep(Letters::UpperCyrillic)));
    v.push(Rule::new_fn(NormFn::RemoveDuplicates));
    v.push(Rule::new_re(Pattern::MergePair(Letters::Glides, Letters::IotaTails, 'И')));
    v.push(Rule::new_re(Pattern::Subst(Letters::AFold, 'А')));
    v.push(Rule::new_re(Pattern::Subst(Letters::IFold, 'И')));
    v.push(Rule::new_re(Pattern::Subst(Letters::UFold, 'У')));
    v.push(Rule::new_re(Pattern::DevoiceBefore('Б', 'П')));
    v.push(Rule::new_re(Pattern::ReplaceLast('Б', 'П')));
    v.push(Rule::new_re(Pattern::DevoiceBefore('З', 'С')));
    v.push(Rule::new_re(Pattern::ReplaceLast('З', 'С')));
    v.push(Rule::new_re(Pattern::DevoiceBefore('Д', 'Т')));
    v.push(Rule::new_re(Pattern::ReplaceLast('Д', 'Т')));
    v.push(Rule::new_re(Pattern::DevoiceBefore('В', 'Ф')));
    v.push(Rule::new_re(Pattern::ReplaceLast('В', 'Ф')));
    v.push(Rule::new_re(Pattern::DevoiceBefore('Г', 'К')));
    v.push(Rule::new_re(Pattern::ReplaceLast('Г', 'К')));
    v.push(Rule::new_re(Pattern::MergePair(Letters::Dentals, Letters::EssOnly, 'Ц')));
    v.push(Rule::new_fn(NormFn::RemoveDuplicates));
    proof {
        assert(v@ =~= russian_rules());
    }
    v
}

/// Builds the Ukrainian rule table: the prefix, then every Russian rule.
pub fn ukrainian_rule_vec() -> (v: Vec<Rule>)
    ensures
        v@ == ukrainian_prefix() + russian_rules(),
{
    let mut v: Vec<Rule> = Vec::new();
    v.push(Rule::new_re(Pattern::Subst(Letters::UkrainianI, 'И')));
    let rus = russian_rule_vec();
    let mut i: usize = 0;
    let n = rus.len();
    while i < n
        invariant
            i <= n,
            n == rus@.len(),
            rus@ == russian_rules(),
            v@ == ukrainian_prefix() + rus@.take(i as int),
        decreases n - i,
    {
        let r = rus[i];
        v.push(r);
        proof {
            assert((ukrainian_prefix() + rus@.take(i as int)).push(rus@[i as int]) =~= (
            ukrainian_prefix() + rus@.take(i as int + 1)));
        }
        i = i + 1;
    }
    proof {
        assert(rus@.take(n as int) =~= rus@);
    }
    v
}

} // verus!
