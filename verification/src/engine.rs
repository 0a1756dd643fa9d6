//! The transformation engine: a rule set of four ordered rule groups and the
//! staged application of those groups to one path string.

use crate::brackets::{norm_brackets, normalize_brackets};
use crate::rules::{apply_group, apply_rules, pattern_compiles, Rule};
use vstd::prelude::*;
use vstd::string::{StrSliceExecFns, StringExecFns};

verus! {

/// The index of the last `/` in `s`, or `-1` when `s` has none.
pub open spec fn last_slash(s: Seq<char>) -> int
    decreases s.len(),
{
    if s.len() == 0 {
        -1
    } else if s[s.len() - 1] == '/' {
        s.len() - 1
    } else {
        last_slash(s.drop_last())
    }
}

pub proof fn lemma_last_slash(s: Seq<char>)
    ensures
        -1 <= last_slash(s) < s.len(),
        last_slash(s) >= 0 ==> s[last_slash(s)] == '/',
        forall|j: int| last_slash(s) < j < s.len() ==> s[j] != '/',
    decreases s.len(),
{
    if s.len() > 0 && s[s.len() - 1] != '/' {
        lemma_last_slash(s.drop_last());
        assert forall|j: int| last_slash(s) < j < s.len() implies s[j] != '/' by {
            if j < s.len() - 1 {
                assert(s[j] == s.drop_last()[j]);
            }
        }
    }
}

/// A position holding `/` with no `/` after it is the last slash.
pub proof fn lemma_last_slash_is(s: Seq<char>, l: int)
    requires
        0 <= l < s.len(),
        s[l] == '/',
        forall|j: int| l < j < s.len() ==> s[j] != '/',
    ensures
        last_slash(s) == l,
    decreases s.len(),
{
    if l < s.len() - 1 {
        assert(s[s.len() - 1] != '/');
        assert forall|j: int| l < j < s.drop_last().len() implies s.drop_last()[j] != '/' by {
            assert(s.drop_last()[j] == s[j]);
        }
        assert(s.drop_last()[l] == s[l]);
        lemma_last_slash_is(s.drop_last(), l);
    }
}

/// The directory portion of a path: everything before the last `/`, or the
/// empty string when there is no `/`.
pub open spec fn dir_of(s: Seq<char>) -> Seq<char> {
    if last_slash(s) >= 0 {
        s.subrange(0, last_slash(s))
    } else {
        Seq::empty()
    }
}

/// The file-name portion of a path: everything after the last `/`, or the
/// whole string when there is no `/`.
pub open spec fn name_of(s: Seq<char>) -> Seq<char> {
    if last_slash(s) >= 0 {
        s.subrange(last_slash(s) + 1, s.len() as int)
    } else {
        s
    }
}

/// Splits a path at its last `/` into directory portion and file name.
fn split_path(s: &str) -> (r: (String, String))
    ensures
        r.0@ == dir_of(s@),
        r.1@ == name_of(s@),
{
    let n = s.unicode_len();
    let mut k: usize = n;
    while k > 0
        invariant
            k <= n,
            n == s@.len(),
            forall|j: int| k <= j < n ==> s@[j] != '/',
        decreases k,
    {
        if s.get_char(k - 1) == '/' {
            proof {
                lemma_last_slash_is(s@, k - 1);
            }
            let dir = s.substring_char(0, k - 1).to_owned();
            let name = s.substring_char(k, n).to_owned();
            return (dir, name);
        }
        k -= 1;
    }
    proof {
        lemma_last_slash(s@);
        if last_slash(s@) >= 0 {
            assert(s@[last_slash(s@)] != '/');
        }
    }
    (String::new(), s.to_owned())
}

/// Joins a directory portion and a file name with one `/`, inserted whether
/// or not the directory portion is empty.
fn join_path(dir: String, name: &str) -> (r: String)
    ensures
        r@ == dir@ + seq!['/'] + name@,
{
    let sep = "/";
    proof {
        reveal_strlit("/");
        assert(sep@ =~= seq!['/']);
    }
    let with_sep = dir.concat(sep);
    with_sep.concat(name)
}

/// Why loading a rule set failed: a required group is missing from the
/// configuration entries, or a pattern did not compile (with the pattern and
/// the compiler's message).
#[derive(Debug)]
pub enum LoadError {
    MissingGroup(String),
    InvalidPattern(String, String),
}

/// The views of a group's pattern/replacement pairs.
pub open spec fn pairs_view(ps: Seq<(String, String)>) -> Seq<(Seq<char>, Seq<char>)> {
    ps.map_values(|p: (String, String)| (p.0@, p.1@))
}

/// Every pattern of the group compiles.
pub open spec fn group_compiles(ps: Seq<(Seq<char>, Seq<char>)>) -> bool {
    forall|k: int| 0 <= k < ps.len() ==> pattern_compiles(#[trigger] ps[k].0)
}

/// The rules carry exactly these pattern/replacement texts, in order.
pub open spec fn rules_match(rs: Seq<Rule>, ps: Seq<(Seq<char>, Seq<char>)>) -> bool {
    rs.len() == ps.len() && forall|k: int|
        0 <= k < rs.len() ==> (#[trigger] rs[k]).pat() == ps[k].0 && rs[k].rep() == ps[k].1
}

/// The error names a pattern text that does not compile.
pub open spec fn names_failing_pattern(e: LoadError, ps: Seq<(Seq<char>, Seq<char>)>) -> bool {
    e matches LoadError::InvalidPattern(p, _) && !pattern_compiles(p@) && (exists|k: int|
        0 <= k < ps.len() && #[trigger] ps[k].0 == p@)
}

/// Compiles one ordered group of pattern/replacement pairs, failing on the
/// first pattern the `regex` crate rejects.
fn compile_group(pairs: &Vec<(String, String)>) -> (r: Result<Vec<Rule>, LoadError>)
    ensures
        r is Ok <==> group_compiles(pairs_view(pairs@)),
        r is Ok ==> rules_match(r->Ok_0@, pairs_view(pairs@)),
        r is Err ==> names_failing_pattern(r->Err_0, pairs_view(pairs@)),
{
    let mut rules: Vec<Rule> = Vec::new();
    let mut k: usize = 0;
    while k < pairs.len()
        invariant
            k <= pairs@.len(),
            rules@.len() == k,
            forall|j: int| 0 <= j < k ==> pattern_compiles(#[trigger] pairs_view(pairs@)[j].0),
            rules_match(rules@, pairs_view(pairs@).take(k as int)),
        decreases pairs@.len() - k,
    {
        match Rule::new(pairs[k].0.clone(), pairs[k].1.clone()) {
            Ok(rule) => {
                rules.push(rule);
                proof {
                    assert(rules@.take(k as int) =~= rules@.drop_last());
                }
            },
            Err(msg) => {
                proof {
                    assert(pairs_view(pairs@)[k as int].0 == pairs@[k as int].0@);
                    assert(!pattern_compiles(pairs_view(pairs@)[k as int].0));
                }
                return Err(LoadError::InvalidPattern(pairs[k].0.clone(), msg));
            },
        }
        k += 1;
    }
    proof {
        assert(pairs_view(pairs@).take(pairs@.len() as int) =~= pairs_view(pairs@));
    }
    Ok(rules)
}

/// The views of configuration entries: each a group name with its ordered
/// pattern/replacement pairs.
pub open spec fn entry_views(es: Seq<(String, Vec<(String, String)>)>) -> Seq<
    (Seq<char>, Seq<(Seq<char>, Seq<char>)>),
> {
    es.map_values(|e: (String, Vec<(String, String)>)| (e.0@, pairs_view(e.1@)))
}

/// The pairs of the first entry named `key`, if any.
pub open spec fn lookup_group(
    es: Seq<(Seq<char>, Seq<(Seq<char>, Seq<char>)>)>,
    key: Seq<char>,
) -> Option<Seq<(Seq<char>, Seq<char>)>>
    decreases es.len(),
{
    if es.len() == 0 {
        None
    } else if es[0].0 == key {
        Some(es[0].1)
    } else {
        lookup_group(es.drop_first(), key)
    }
}

/// Finds the first entry named `key` and copies its pairs.
fn find_group(entries: &Vec<(String, Vec<(String, String)>)>, key: &String) -> (r: Option<
    Vec<(String, String)>,
>)
    ensures
        r is Some <==> lookup_group(entry_views(entries@), key@) is Some,
        r matches Some(g) ==> Some(pairs_view(g@)) == lookup_group(entry_views(entries@), key@),
{
    let ghost evs = entry_views(entries@);
    let mut i: usize = 0;
    proof {
        assert(evs.skip(0) =~= evs);
    }
    while i < entries.len()
        invariant
            i <= entries@.len(),
            evs == entry_views(entries@),
            lookup_group(evs, key@) == lookup_group(evs.skip(i as int), key@),
        decreases entries@.len() - i,
    {
        proof {
            assert(evs.skip(i as int)[0] == evs[i as int]);
            assert(evs[i as int] == (entries@[i as int].0@, pairs_view(entries@[i as int].1@)));
        }
        if entries[i].0 == *key {
            let src = &entries[i].1;
            let mut g: Vec<(String, String)> = Vec::new();
            let mut j: usize = 0;
            while j < src.len()
                invariant
                    j <= src@.len(),
                    g@.len() == j,
                    forall|t: int|
                        0 <= t < j ==> (#[trigger] g@[t]).0@ == src@[t].0@ && g@[t].1@
                            == src@[t].1@,
                decreases src@.len() - j,
            {
                g.push((src[j].0.clone(), src[j].1.clone()));
                j += 1;
            }
            proof {
                assert(pairs_view(g@) =~~= pairs_view(src@));
            }
            return Some(g);
        }
        proof {
            assert(evs.skip(i as int).drop_first() =~= evs.skip(i as int + 1));
        }
        i += 1;
    }
    proof {
        assert(evs.skip(entries@.len() as int) =~= Seq::<
            (Seq<char>, Seq<(Seq<char>, Seq<char>)>),
        >::empty());
    }
    None
}

/// The four ordered rule groups of a rule set, applied in the fixed stage
/// order by `transform_file_path`. Immutable once built.
pub struct RegexTransforms {
    full_path_regex: Vec<Rule>,
    base_file_regex: Vec<Rule>,
    directory_regex: Vec<Rule>,
    post_processing_regex: Vec<Rule>,
}

impl RegexTransforms {
    /// The rules applied to the whole path first.
    pub closed spec fn full_rules(self) -> Seq<Rule> {
        self.full_path_regex@
    }

    /// The rules applied to the file name.
    pub closed spec fn base_rules(self) -> Seq<Rule> {
        self.base_file_regex@
    }

    /// The rules applied to the directory portion.
    pub closed spec fn directory_rules(self) -> Seq<Rule> {
        self.directory_regex@
    }

    /// The rules applied to the rejoined path last.
    pub closed spec fn post_rules(self) -> Seq<Rule> {
        self.post_processing_regex@
    }

    /// What `transform_file_path` returns, stage by stage: the full-path
    /// rules rewrite the whole input; the result is split at its last `/`;
    /// the base-file rules and then bracket normalization rewrite the file
    /// name; the directory rules rewrite the directory portion; the two are
    /// rejoined with a literal `/` (inserted even when the directory portion
    /// is empty); and the post-processing rules rewrite the rejoined path.
    pub open spec fn transform_spec(self, path: Seq<char>) -> Seq<char> {
        let full = apply_rules(self.full_rules(), path);
        let name = norm_brackets(apply_rules(self.base_rules(), name_of(full)));
        let dir = apply_rules(self.directory_rules(), dir_of(full));
        apply_rules(self.post_rules(), dir + seq!['/'] + name)
    }

    /// Builds a rule set from the four groups' pattern/replacement pairs,
    /// in stage order. Fails exactly when some pattern does not compile,
    /// naming a failing pattern; every pattern is compiled before any
    /// transformation is attempted.
    pub fn from_groups(
        full_path: Vec<(String, String)>,
        base_file: Vec<(String, String)>,
        directory: Vec<(String, String)>,
        post_processing: Vec<(String, String)>,
    ) -> (r: Result<RegexTransforms, LoadError>)
        ensures
            r is Ok <==> group_compiles(pairs_view(full_path@)) && group_compiles(
                pairs_view(base_file@),
            ) && group_compiles(pairs_view(directory@)) && group_compiles(
                pairs_view(post_processing@),
            ),
            r is Ok ==> {
                &&& rules_match(r->Ok_0.full_rules(), pairs_view(full_path@))
                &&& rules_match(r->Ok_0.base_rules(), pairs_view(base_file@))
                &&& rules_match(r->Ok_0.directory_rules(), pairs_view(directory@))
                &&& rules_match(r->Ok_0.post_rules(), pairs_view(post_processing@))
            },
            r is Err ==> names_failing_pattern(r->Err_0, pairs_view(full_path@)) || names_failing_pattern(
                r->Err_0,
                pairs_view(base_file@),
            ) || names_failing_pattern(r->Err_0, pairs_view(directory@)) || names_failing_pattern(
                r->Err_0,
                pairs_view(post_processing@),
            ),
    {
        let full_path_regex = match compile_group(&full_path) {
            Ok(rules) => rules,
            Err(e) => {
                return Err(e);
            },
        };
        let base_file_regex = match compile_group(&base_file) {
            Ok(rules) => rules,
            Err(e) => {
                return Err(e);
            },
        };
        let directory_regex = match compile_group(&directory) {
            Ok(rules) => rules,
            Err(e) => {
                return Err(e);
            },
        };
        let post_processing_regex = match compile_group(&post_processing) {
            Ok(rules) => rules,
            Err(e) => {
                return Err(e);
            },
        };
        Ok(
            RegexTransforms {
                full_path_regex,
                base_file_regex,
                directory_regex,
                post_processing_regex,
            },
        )
    }

    /// Builds a rule set from configuration entries: (group name, ordered
    /// pattern/replacement pairs), one entry per group. Each of the four
    /// required groups is looked up by name, first occurrence winning; a
    /// missing group fails with `MissingGroup`, and groups present but
    /// holding a pattern that does not compile fail with `InvalidPattern`.
    pub fn from_entries(entries: &Vec<(String, Vec<(String, String)>)>) -> (r: Result<
        RegexTransforms,
        LoadError,
    >)
        ensures
            ({
                let evs = entry_views(entries@);
                let full = lookup_group(evs, "full_path_regex"@);
                let base = lookup_group(evs, "base_file_regex"@);
                let dir = lookup_group(evs, "directory_regex"@);
                let post = lookup_group(evs, "post_processing_regex"@);
                &&& (r is Ok <==> full is Some && base is Some && dir is Some && post is Some
                    && group_compiles(full.unwrap()) && group_compiles(base.unwrap())
                    && group_compiles(dir.unwrap()) && group_compiles(post.unwrap()))
                &&& r is Ok ==> {
                    &&& rules_match(r->Ok_0.full_rules(), full.unwrap())
                    &&& rules_match(r->Ok_0.base_rules(), base.unwrap())
                    &&& rules_match(r->Ok_0.directory_rules(), dir.unwrap())
                    &&& rules_match(r->Ok_0.post_rules(), post.unwrap())
                }
                &&& (r matches Err(e) ==> (e matches LoadError::MissingGroup(g) ==> lookup_group(
                    evs,
                    g@,
                ) is None && (g@ == "full_path_regex"@ || g@ == "base_file_regex"@ || g@
                    == "directory_regex"@ || g@ == "post_processing_regex"@)))
                &&& (r matches Err(e) ==> (e matches LoadError::InvalidPattern(p, m) ==> full
                    is Some && base is Some && dir is Some && post is Some && (
                names_failing_pattern(LoadError::InvalidPattern(p, m), full.unwrap())
                    || names_failing_pattern(LoadError::InvalidPattern(p, m), base.unwrap())
                    || names_failing_pattern(LoadError::InvalidPattern(p, m), dir.unwrap())
                    || names_failing_pattern(LoadError::InvalidPattern(p, m), post.unwrap()))))
            }),
    {
        let key_full = "full_path_regex".to_owned();
        let key_base = "base_file_regex".to_owned();
        let key_dir = "directory_regex".to_owned();
        let key_post = "post_processing_regex".to_owned();
        let full = match find_group(entries, &key_full) {
            Some(g) => g,
            None => {
                return Err(LoadError::MissingGroup(key_full));
            },
        };
        let base = match find_group(entries, &key_base) {
            Some(g) => g,
            None => {
                return Err(LoadError::MissingGroup(key_base));
            },
        };
        let dir = match find_group(entries, &key_dir) {
            Some(g) => g,
            None => {
                return Err(LoadError::MissingGroup(key_dir));
            },
        };
        let post = match find_group(entries, &key_post) {
            Some(g) => g,
            None => {
                return Err(LoadError::MissingGroup(key_post));
            },
        };
        Self::from_groups(full, base, dir, post)
    }

    /// Transforms one path: full-path stage, split, base-file stage, bracket
    /// normalization, directory stage, rejoin with `/`, post-processing
    /// stage. Pure and total: it cannot fail on any input string.
    pub fn transform_file_path(&self, file_path: &str) -> (r: String)
        ensures
            r@ == self.transform_spec(file_path@),
    {
        let full = apply_group(&self.full_path_regex, file_path.to_owned());
        let (dir0, name0) = split_path(full.as_str());
        let name1 = apply_group(&self.base_file_regex, name0);
        let name2 = normalize_brackets(name1.as_str());
        let dir1 = apply_group(&self.directory_regex, dir0);
        let joined = join_path(dir1, name2.as_str());
        apply_group(&self.post_processing_regex, joined)
    }

    /// Merges each run of two or more adjacent bracket groups in `data`,
    /// separated only by optional white space, into a single bracket holding
    /// the space-joined non-empty group texts, trimmed of trailing white
    /// space. A single isolated bracket group is left unchanged.
    pub fn join_bracketed_data(data: &str) -> (r: String)
        ensures
            r@ == norm_brackets(data@),
    {
        normalize_brackets(data)
    }
}

} // verus!
