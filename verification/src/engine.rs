//! The phonetic encoder: an engine holds the resolved, flattened rule table
//! for one language and encodes a word by folding every rule, in order, over
//! the uppercased input.

use crate::alphabet::to_upper_char;
use crate::alphabet::upper_word;
use crate::rules::Rule;
use crate::rules::apply_rule;
use crate::rules::rule_apply;
use crate::rules::russian_rule_vec;
use crate::rules::russian_rules;
use crate::rules::ukrainian_prefix;
use crate::rules::ukrainian_rule_vec;
use crate::transforms::chars_of_str;
use crate::transforms::string_from_chars;
use vstd::prelude::*;

verus! {

/// The two supported languages.
#[derive(Clone, Copy, Debug)]
pub enum Language {
    Russian,
    Ukrainian,
}

/// The full ordered rule table of a language: the Russian table, or the
/// Ukrainian prefix followed by every Russian rule.
pub open spec fn rules_of(lang: Language) -> Seq<Rule> {
    match lang {
        Language::Russian => russian_rules(),
        Language::Ukrainian => ukrainian_prefix() + russian_rules(),
    }
}

/// The result of applying the rules of `rules` from position `k` on, in
/// order, to the word `s`.
pub open spec fn apply_from(rules: Seq<Rule>, k: int, s: Seq<char>) -> Seq<char>
    decreases rules.len() - k,
{
    if k < 0 || k >= rules.len() {
        s
    } else {
        apply_from(rules, k + 1, rule_apply(rules[k], s))
    }
}

/// The result of applying every rule of `rules`, in order, to the word `s`.
pub open spec fn apply_all(rules: Seq<Rule>, s: Seq<char>) -> Seq<char> {
    apply_from(rules, 0, s)
}

/// The phonetic code of `word` in `lang`: every rule of the language's
/// table, applied in order to the uppercased word.
pub open spec fn encode_spec(lang: Language, word: Seq<char>) -> Seq<char> {
    apply_all(rules_of(lang), upper_word(word))
}

/// The uppercased characters of a word.
fn upper_chars(s: &Vec<char>) -> (out: Vec<char>)
    ensures
        out@ == upper_word(s@),
{
    let mut out: Vec<char> = Vec::new();
    let mut i: usize = 0;
    while i < s.len()
        invariant
            i <= s@.len(),
            out@.len() == i,
            forall|j: int| 0 <= j < i ==> out@[j] == crate::alphabet::upper_char(s@[j]),
        decreases s@.len() - i,
    {
        let c = to_upper_char(s[i]);
        out.push(c);
        i = i + 1;
    }
    proof {
        assert(out@ =~= upper_word(s@));
    }
    out
}

/// The phonetic encoder for one language. It owns the resolved, flattened
/// rule table, chosen at construction, and never mutates it; `get` is a pure
/// function of the stored rules and the input word.
pub struct Metaphone {
    rules: Vec<Rule>,
}

impl Metaphone {
    /// The rule table this engine applies, in order.
    pub closed spec fn rule_table(self) -> Seq<Rule> {
        self.rules@
    }

    /// Builds the engine for `lang`: resolves and stores the language's full
    /// ordered rule table.
    pub fn new(lang: Language) -> (m: Self)
        ensures
            m.rule_table() == rules_of(lang),
    {
        match lang {
            Language::Russian => Metaphone { rules: russian_rule_vec() },
            Language::Ukrainian => Metaphone { rules: ukrainian_rule_vec() },
        }
    }

    /// Encodes one word: uppercases it, then applies every stored rule in
    /// order. Any text is accepted; characters the rules do not know are
    /// stripped, and the result may be empty. For an engine built by
    /// `new(lang)` the result is exactly `encode_spec(lang, word@)`.
    pub fn get(&self, word: &str) -> (result: String)
        ensures
            result@ == apply_all(self.rule_table(), upper_word(word@)),
    {
        let chars = chars_of_str(word);
        let mut cur = upper_chars(&chars);
        let n = self.rules.len();
        let mut i: usize = 0;
        while i < n
            invariant
                i <= n,
                n == self.rules@.len(),
                apply_from(self.rules@, i as int, cur@) == apply_all(
                    self.rules@,
                    upper_word(word@),
                ),
            decreases n - i,
        {
            let r = self.rules[i];
            cur = apply_rule(&r, &cur);
            i = i + 1;
        }
        string_from_chars(&cur)
    }
}

} // verus!
