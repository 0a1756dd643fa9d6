//! A rule is one pattern/replacement pair; the pattern is compiled by the
//! `regex` crate when the rule is built, so that applying a rule can never
//! fail at transformation time.

use vstd::prelude::*;

verus! {

/// Whether the `regex` crate accepts a pattern text: exactly when
/// `regex::Regex::new` returns `Ok` for it.
pub uninterp spec fn pattern_compiles(pat: Seq<char>) -> bool;

/// What `regex::Regex::replace_all` returns for a compiled pattern, a
/// replacement template and a haystack: the haystack with every
/// non-overlapping match of the pattern, found left to right, replaced by
/// the template with its capture references expanded. The result is a
/// function of the three texts alone.
pub uninterp spec fn replace_all_of(pat: Seq<char>, rep: Seq<char>, s: Seq<char>) -> Seq<char>;

#[verifier::external_type_specification]
#[verifier::external_body]
pub struct ExRegex(regex::Regex);

/// One ordered pattern/replacement pair. `Rule::new` is the only
/// constructor, so `compiled` always holds the compilation of `pattern`.
pub struct Rule {
    pattern: String,
    replacement: String,
    compiled: regex::Regex,
}

impl Rule {
    /// The pattern text the rule was built from.
    pub closed spec fn pat(self) -> Seq<char> {
        self.pattern@
    }

    /// The replacement template text the rule was built from.
    pub closed spec fn rep(self) -> Seq<char> {
        self.replacement@
    }

    /// Relies on `regex::Regex::new`: whether a pattern text compiles is a
    /// function of the text alone; on failure the returned message describes
    /// the error.
    #[verifier::external_body]
    pub(crate) fn new(pattern: String, replacement: String) -> (r: Result<Rule, String>)
        ensures
            r is Ok <==> pattern_compiles(pattern@),
            r is Ok ==> r->Ok_0.pat() == pattern@ && r->Ok_0.rep() == replacement@,
    {
        match regex::Regex::new(&pattern) {
            Ok(compiled) => Ok(Rule { pattern, replacement, compiled }),
            Err(e) => Err(format!("{}", e)),
        }
    }

    /// Relies on `regex::Regex::replace_all` with a `&str` replacement: the
    /// result is a function of the pattern text, the replacement template and
    /// the haystack alone. `Rule::new` is the only constructor of `Rule`, so
    /// `compiled` is the compilation of `pattern`.
    #[verifier::external_body]
    pub(crate) fn apply(&self, haystack: &str) -> (r: String)
        ensures
            r@ == replace_all_of(self.pat(), self.rep(), haystack@),
    {
        self.compiled.replace_all(haystack, self.replacement.as_str()).into_owned()
    }
}

/// The rules of one group applied in order: each rule performs a global
/// substitution on the entire output of the rule before it.
pub open spec fn apply_rules(rules: Seq<Rule>, s: Seq<char>) -> Seq<char>
    decreases rules.len(),
{
    if rules.len() == 0 {
        s
    } else {
        apply_rules(rules.drop_first(), replace_all_of(rules[0].pat(), rules[0].rep(), s))
    }
}

/// Applies every rule of a group, in order, to `s`.
pub(crate) fn apply_group(rules: &Vec<Rule>, s: String) -> (r: String)
    ensures
        r@ == apply_rules(rules@, s@),
{
    proof {
        assert(rules@.skip(0) =~= rules@);
    }
    let mut cur = s;
    let mut k: usize = 0;
    while k < rules.len()
        invariant
            k <= rules@.len(),
            apply_rules(rules@, s@) == apply_rules(rules@.skip(k as int), cur@),
        decreases rules@.len() - k,
    {
        let next = rules[k].apply(cur.as_str());
        proof {
            assert(rules@.skip(k as int).drop_first() =~= rules@.skip(k as int + 1));
            assert(rules@.skip(k as int)[0] == rules@[k as int]);
        }
        cur = next;
        k += 1;
    }
    proof {
        assert(rules@.skip(rules@.len() as int) =~= Seq::<Rule>::empty());
    }
    cur
}

} // verus!
