//! Laws of the transformation engine, proved for all inputs: determinism,
//! isolation of the directory and file-name stages, bracket normalization
//! leaving a single bracket group untouched, and the behaviour of a rule set
//! whose groups are all empty.

use crate::brackets::{
    fold_contents, group_at, is_ws_char, lemma_norm_from_unfold, lemma_run_parse, merged_bracket,
    norm_brackets, norm_from, run_contents, run_end, run_parse, starts_run, trim_end_ws,
};
use crate::engine::{dir_of, last_slash, lemma_last_slash, lemma_last_slash_is, name_of,
    RegexTransforms};
use crate::rules::apply_rules;
use vstd::prelude::*;

verus! {

/// Law: the engine is deterministic. For one rule set and one input path any
/// two results of `transform_file_path` are equal, since each one equals
/// `transform_spec` of the same arguments.
pub proof fn lemma_transform_deterministic(
    t: &RegexTransforms,
    path: Seq<char>,
    r1: Seq<char>,
    r2: Seq<char>,
)
    requires
        r1 == t.transform_spec(path),
        r2 == t.transform_spec(path),
    ensures
        r1 == r2,
{
}

/// Splitting a join at the inserted separator gives the parts back, as long
/// as the file name holds no separator of its own.
pub proof fn lemma_split_join(d: Seq<char>, n: Seq<char>)
    requires
        forall|j: int| 0 <= j < n.len() ==> n[j] != '/',
    ensures
        last_slash(d + seq!['/'] + n) == d.len(),
        dir_of(d + seq!['/'] + n) == d,
        name_of(d + seq!['/'] + n) == n,
{
    let s = d + seq!['/'] + n;
    assert(s[d.len() as int] == '/');
    assert forall|j: int| d.len() < j < s.len() implies s[j] != '/' by {
        assert(s[j] == n[j - d.len() - 1]);
    }
    lemma_last_slash_is(s, d.len() as int);
    assert(s.subrange(0, d.len() as int) =~= d);
    assert(s.subrange(d.len() as int + 1, s.len() as int) =~= n);
}

/// The file-name portion of any path holds no `/`.
pub proof fn lemma_name_of_no_slash(s: Seq<char>)
    ensures
        forall|j: int| 0 <= j < name_of(s).len() ==> name_of(s)[j] != '/',
{
    lemma_last_slash(s);
    if last_slash(s) >= 0 {
        assert forall|j: int| 0 <= j < name_of(s).len() implies name_of(s)[j] != '/' by {
            assert(name_of(s)[j] == s[last_slash(s) + 1 + j]);
        }
    }
}

/// The group texts of a run are slices of the scanned string: a character
/// absent from the string is absent from every group text.
proof fn lemma_run_contents_no_char(s: Seq<char>, i: int, ch: char)
    requires
        0 <= i <= s.len(),
        forall|k: int| 0 <= k < s.len() ==> s[k] != ch,
    ensures
        forall|g: int, j: int|
            0 <= g < run_parse(s, i).1.len() && 0 <= j < run_parse(s, i).1[g].len()
                ==> #[trigger] run_parse(s, i).1[g][j] != ch,
    decreases s.len() - i,
{
    lemma_run_parse(s, i);
    if group_at(s, i) {
        let c = crate::brackets::close_from(s, i + 1);
        let w = crate::brackets::skip_ws_from(s, c + 1);
        lemma_run_contents_no_char(s, w, ch);
        let content = s.subrange(i + 1, c);
        assert forall|g: int, j: int|
            0 <= g < run_parse(s, i).1.len() && 0 <= j < run_parse(s, i).1[g].len() implies #[trigger] run_parse(
            s,
            i,
        ).1[g][j] != ch by {
            if g == 0 {
                assert(run_parse(s, i).1[0] == content);
                assert(content[j] == s[i + 1 + j]);
            } else {
                assert(run_parse(s, i).1[g] == run_parse(s, w).1[g - 1]);
            }
        }
    }
}

/// Folding group texts introduces only spaces.
proof fn lemma_fold_no_char(cs: Seq<Seq<char>>, ch: char)
    requires
        ch != ' ',
        forall|g: int, j: int|
            0 <= g < cs.len() && 0 <= j < cs[g].len() ==> #[trigger] cs[g][j] != ch,
    ensures
        forall|j: int| 0 <= j < fold_contents(cs).len() ==> fold_contents(cs)[j] != ch,
    decreases cs.len(),
{
    if cs.len() > 0 {
        assert forall|g: int, j: int|
            0 <= g < cs.drop_first().len() && 0 <= j < cs.drop_first()[g].len() implies #[trigger] cs.drop_first()[g][j]
            != ch by {
            assert(cs.drop_first()[g] == cs[g + 1]);
        }
        lemma_fold_no_char(cs.drop_first(), ch);
        if cs[0].len() > 0 {
            assert forall|j: int| 0 <= j < fold_contents(cs).len() implies fold_contents(cs)[j]
                != ch by {
                let head = cs[0] + seq![' '];
                assert(fold_contents(cs) == head + fold_contents(cs.drop_first()));
                if j < head.len() {
                    assert(fold_contents(cs)[j] == head[j]);
                } else {
                    assert(fold_contents(cs)[j] == fold_contents(cs.drop_first())[j - head.len()]);
                }
            }
        }
    }
}

/// Trimming keeps a prefix: every kept character was already there.
proof fn lemma_trim_prefix(t: Seq<char>)
    ensures
        trim_end_ws(t).len() <= t.len(),
        forall|j: int| 0 <= j < trim_end_ws(t).len() ==> trim_end_ws(t)[j] == t[j],
    decreases t.len(),
{
    if t.len() > 0 && is_ws_char(t[t.len() - 1]) {
        lemma_trim_prefix(t.drop_last());
        assert forall|j: int| 0 <= j < trim_end_ws(t).len() implies trim_end_ws(t)[j] == t[j] by {
            assert(trim_end_ws(t)[j] == trim_end_ws(t.drop_last())[j]);
            assert(t.drop_last()[j] == t[j]);
        }
    }
}

/// Bracket normalization introduces only `[`, `]` and spaces: any other
/// character absent from the input is absent from the output.
pub proof fn lemma_norm_no_char(s: Seq<char>, i: int, ch: char)
    requires
        0 <= i <= s.len(),
        ch != '[',
        ch != ']',
        ch != ' ',
        forall|k: int| 0 <= k < s.len() ==> s[k] != ch,
    ensures
        forall|j: int| 0 <= j < norm_from(s, i).len() ==> norm_from(s, i)[j] != ch,
    decreases s.len() - i,
{
    if i < s.len() {
        lemma_norm_from_unfold(s, i);
        if starts_run(s, i) {
            lemma_norm_no_char(s, run_end(s, i), ch);
            lemma_run_contents_no_char(s, i, ch);
            lemma_fold_no_char(run_contents(s, i), ch);
            lemma_trim_prefix(fold_contents(run_contents(s, i)));
            let mb = merged_bracket(run_contents(s, i));
            assert forall|j: int| 0 <= j < mb.len() implies mb[j] != ch by {
                let folded = fold_contents(run_contents(s, i));
                let trimmed = trim_end_ws(folded);
                let opened = seq!['['] + trimmed;
                if j == 0 {
                    assert(mb[0] == opened[0]);
                    assert(opened[0] == '[');
                } else if j < opened.len() {
                    assert(mb[j] == opened[j]);
                    assert(opened[j] == trimmed[j - 1]);
                    assert(trimmed[j - 1] == folded[j - 1]);
                } else {
                    assert(mb[j] == seq![']'][j - opened.len()]);
                }
            }
            assert forall|j: int| 0 <= j < norm_from(s, i).len() implies norm_from(s, i)[j]
                != ch by {
                if j < mb.len() {
                    assert(norm_from(s, i)[j] == mb[j]);
                } else {
                    assert(norm_from(s, i)[j] == norm_from(s, run_end(s, i))[j - mb.len()]);
                }
            }
        } else {
            lemma_norm_no_char(s, i + 1, ch);
            assert forall|j: int| 0 <= j < norm_from(s, i).len() implies norm_from(s, i)[j]
                != ch by {
                if j > 0 {
                    assert(norm_from(s, i)[j] == norm_from(s, i + 1)[j - 1]);
                }
            }
        }
    }
}

/// From any position on, a string with at most one opening bracket is copied
/// unchanged by bracket normalization.
proof fn lemma_norm_copies(s: Seq<char>, i: int)
    requires
        0 <= i <= s.len(),
        forall|a: int, b: int|
            0 <= a < b < s.len() ==> !(#[trigger] s[a] == '[' && #[trigger] s[b] == '['),
    ensures
        norm_from(s, i) == s.subrange(i, s.len() as int),
    decreases s.len() - i,
{
    if i < s.len() {
        lemma_norm_from_unfold(s, i);
        if starts_run(s, i) {
            lemma_run_parse(s, i);
            let c = crate::brackets::close_from(s, i + 1);
            let w = crate::brackets::skip_ws_from(s, c + 1);
            lemma_run_parse(s, w);
            assert(group_at(s, w));
            assert(s[i] == '[' && s[w] == '[' && i < w);
            assert(false);
        }
        lemma_norm_copies(s, i + 1);
        assert(seq![s[i]] + s.subrange(i + 1, s.len() as int) =~= s.subrange(i, s.len() as int));
    } else {
        assert(s.subrange(i, s.len() as int) =~= Seq::<char>::empty());
    }
}

/// Law: bracket normalization never changes a string with at most one
/// opening bracket; in particular a file name with exactly one bracket group
/// is returned unchanged.
pub proof fn lemma_single_bracket_unchanged(s: Seq<char>)
    requires
        forall|a: int, b: int|
            0 <= a < b < s.len() ==> !(#[trigger] s[a] == '[' && #[trigger] s[b] == '['),
    ensures
        norm_brackets(s) == s,
{
    lemma_norm_copies(s, 0);
    assert(s.subrange(0, s.len() as int) =~= s);
}

/// Law: a rule set whose four groups are all empty returns the input path
/// with the separator re-inserted at the directory/file-name boundary and
/// bracket normalization applied to the file name — nothing else. With no
/// bracket run in the file name this is `directory + "/" + file name`
/// exactly, so a single-component path gains a leading separator.
pub proof fn lemma_empty_rules_identity(t: &RegexTransforms, path: Seq<char>)
    requires
        t.full_rules().len() == 0,
        t.base_rules().len() == 0,
        t.directory_rules().len() == 0,
        t.post_rules().len() == 0,
    ensures
        t.transform_spec(path) == dir_of(path) + seq!['/'] + norm_brackets(name_of(path)),
{
}

/// Law: directory-stage isolation. When rules stand only in the directory
/// group, the file-name portion of the output is the bracket-normalized
/// file name of the input — whatever the directory rules are, they never
/// affect it.
pub proof fn lemma_directory_stage_isolation(t: &RegexTransforms, path: Seq<char>)
    requires
        t.full_rules().len() == 0,
        t.base_rules().len() == 0,
        t.post_rules().len() == 0,
    ensures
        name_of(t.transform_spec(path)) == norm_brackets(name_of(path)),
{
    lemma_name_of_no_slash(path);
    lemma_norm_no_char(name_of(path), 0, '/');
    lemma_split_join(
        apply_rules(t.directory_rules(), dir_of(path)),
        norm_brackets(name_of(path)),
    );
}

/// Law: file-name-stage isolation. When rules stand only in the base-file
/// group, the directory portion of the output equals the directory portion
/// of the input, provided the rewritten file name introduces no separator
/// of its own.
pub proof fn lemma_base_stage_isolation(t: &RegexTransforms, path: Seq<char>)
    requires
        t.full_rules().len() == 0,
        t.directory_rules().len() == 0,
        t.post_rules().len() == 0,
    ensures
        (forall|j: int|
            0 <= j < apply_rules(t.base_rules(), name_of(path)).len()
                ==> #[trigger] apply_rules(t.base_rules(), name_of(path))[j] != '/')
            ==> dir_of(t.transform_spec(path)) == dir_of(path),
{
    let renamed = apply_rules(t.base_rules(), name_of(path));
    if forall|j: int| 0 <= j < renamed.len() ==> #[trigger] renamed[j] != '/' {
        lemma_norm_no_char(renamed, 0, '/');
        lemma_split_join(dir_of(path), norm_brackets(renamed));
    }
}

} // verus!
