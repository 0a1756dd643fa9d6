//! The bracket normalizer: a fixed, non-configurable pass over a file name
//! that collapses every maximal run of two or more adjacent bracket groups,
//! separated only by optional white space, into a single bracket whose
//! content is the space-joined concatenation of the non-empty inner texts,
//! trimmed of trailing white space. A single isolated bracket group is left
//! untouched, and nesting is not supported: the first `]` after a `[` closes
//! the group.

use vstd::prelude::*;
use vstd::string::StrSliceExecFns;

verus! {

/// The Unicode white-space characters: exactly the code points with the
/// `White_Space` property. Bracket groups of one run may be separated by
/// these, and they are trimmed from the end of merged bracket contents.
pub open spec fn is_ws_char(c: char) -> bool {
    ||| c == ' '
    ||| c == '\u{0009}'
    ||| c == '\u{000A}'
    ||| c == '\u{000B}'
    ||| c == '\u{000C}'
    ||| c == '\u{000D}'
    ||| c == '\u{0085}'
    ||| c == '\u{00A0}'
    ||| c == '\u{1680}'
    ||| c == '\u{2000}'
    ||| c == '\u{2001}'
    ||| c == '\u{2002}'
    ||| c == '\u{2003}'
    ||| c == '\u{2004}'
    ||| c == '\u{2005}'
    ||| c == '\u{2006}'
    ||| c == '\u{2007}'
    ||| c == '\u{2008}'
    ||| c == '\u{2009}'
    ||| c == '\u{200A}'
    ||| c == '\u{2028}'
    ||| c == '\u{2029}'
    ||| c == '\u{202F}'
    ||| c == '\u{205F}'
    ||| c == '\u{3000}'
}

/// Decides `is_ws_char`.
fn is_ws(c: char) -> (r: bool)
    ensures
        r == is_ws_char(c),
{
    c == ' ' || c == '\u{0009}' || c == '\u{000A}' || c == '\u{000B}' || c == '\u{000C}'
        || c == '\u{000D}' || c == '\u{0085}' || c == '\u{00A0}' || c == '\u{1680}'
        || c == '\u{2000}' || c == '\u{2001}' || c == '\u{2002}' || c == '\u{2003}'
        || c == '\u{2004}' || c == '\u{2005}' || c == '\u{2006}' || c == '\u{2007}'
        || c == '\u{2008}' || c == '\u{2009}' || c == '\u{200A}' || c == '\u{2028}'
        || c == '\u{2029}' || c == '\u{202F}' || c == '\u{205F}' || c == '\u{3000}'
}

/// The index of the first `]` at or after `j`, or the length of `s` when
/// there is none.
pub open spec fn close_from(s: Seq<char>, j: int) -> int
    decreases s.len() - j,
{
    if j < 0 || j >= s.len() {
        s.len() as int
    } else if s[j] == ']' {
        j
    } else {
        close_from(s, j + 1)
    }
}

pub proof fn lemma_close_from(s: Seq<char>, j: int)
    requires
        0 <= j <= s.len(),
    ensures
        j <= close_from(s, j) <= s.len(),
        close_from(s, j) < s.len() ==> s[close_from(s, j)] == ']',
        forall|k: int| j <= k < close_from(s, j) ==> s[k] != ']',
    decreases s.len() - j,
{
    if j < s.len() && s[j] != ']' {
        lemma_close_from(s, j + 1);
    }
}

/// The index of the first non-white-space character at or after `j`, or the
/// length of `s` when there is none.
pub open spec fn skip_ws_from(s: Seq<char>, j: int) -> int
    decreases s.len() - j,
{
    if j < 0 || j >= s.len() {
        s.len() as int
    } else if is_ws_char(s[j]) {
        skip_ws_from(s, j + 1)
    } else {
        j
    }
}

pub proof fn lemma_skip_ws_from(s: Seq<char>, j: int)
    requires
        0 <= j <= s.len(),
    ensures
        j <= skip_ws_from(s, j) <= s.len(),
        skip_ws_from(s, j) < s.len() ==> !is_ws_char(s[skip_ws_from(s, j)]),
        forall|k: int| j <= k < skip_ws_from(s, j) ==> is_ws_char(s[k]),
    decreases s.len() - j,
{
    if j < s.len() && is_ws_char(s[j]) {
        lemma_skip_ws_from(s, j + 1);
    }
}

/// A bracket group starts at `i`: an opening bracket with a closing bracket
/// somewhere after it.
pub open spec fn group_at(s: Seq<char>, i: int) -> bool {
    0 <= i < s.len() && s[i] == '[' && close_from(s, i + 1) < s.len()
}

/// Parses the maximal run of bracket groups, each followed by optional white
/// space, starting exactly at `i`. Returns the position just past the run
/// (white space after the last group included) and the inner text of every
/// group, in order. When no group starts at `i` the run is empty and the
/// position is `i` itself.
pub open spec fn run_parse(s: Seq<char>, i: int) -> (int, Seq<Seq<char>>)
    decreases s.len() - i,
{
    if group_at(s, i) {
        let c = close_from(s, i + 1);
        let w = skip_ws_from(s, c + 1);
        if i < w <= s.len() {
            let rest = run_parse(s, w);
            (rest.0, seq![s.subrange(i + 1, c)] + rest.1)
        } else {
            (i, Seq::empty())
        }
    } else {
        (i, Seq::empty())
    }
}

/// The defining equations of `run_parse`, together with its bounds.
pub proof fn lemma_run_parse(s: Seq<char>, i: int)
    requires
        0 <= i <= s.len(),
    ensures
        i <= run_parse(s, i).0 <= s.len(),
        !group_at(s, i) ==> run_parse(s, i) == (i, Seq::<Seq<char>>::empty()),
        group_at(s, i) ==> ({
            let c = close_from(s, i + 1);
            let w = skip_ws_from(s, c + 1);
            &&& i + 1 <= c < s.len()
            &&& c + 1 <= w <= s.len()
            &&& run_parse(s, i).0 == run_parse(s, w).0
            &&& run_parse(s, i).1 == seq![s.subrange(i + 1, c)] + run_parse(s, w).1
            &&& run_parse(s, i).0 >= c + 1
        }),
    decreases s.len() - i,
{
    if group_at(s, i) {
        lemma_close_from(s, i + 1);
        let c = close_from(s, i + 1);
        lemma_skip_ws_from(s, c + 1);
        let w = skip_ws_from(s, c + 1);
        lemma_run_parse(s, w);
    }
}

/// A run of two or more adjacent bracket groups starts at `i`.
pub open spec fn starts_run(s: Seq<char>, i: int) -> bool {
    group_at(s, i) && run_parse(s, i).1.len() >= 2
}

/// The position just past the run starting at `i`.
pub open spec fn run_end(s: Seq<char>, i: int) -> int {
    run_parse(s, i).0
}

/// The inner texts of the groups of the run starting at `i`, in order.
pub open spec fn run_contents(s: Seq<char>, i: int) -> Seq<Seq<char>> {
    run_parse(s, i).1
}

/// Each non-empty group text followed by one space, concatenated in order;
/// empty group texts contribute nothing.
pub open spec fn fold_contents(cs: Seq<Seq<char>>) -> Seq<char>
    decreases cs.len(),
{
    if cs.len() == 0 {
        Seq::empty()
    } else if cs[0].len() > 0 {
        cs[0] + seq![' '] + fold_contents(cs.drop_first())
    } else {
        fold_contents(cs.drop_first())
    }
}

/// `t` without its trailing white-space characters.
pub open spec fn trim_end_ws(t: Seq<char>) -> Seq<char>
    decreases t.len(),
{
    if t.len() > 0 && is_ws_char(t[t.len() - 1]) {
        trim_end_ws(t.drop_last())
    } else {
        t
    }
}

/// The single bracket that replaces a run with group texts `cs`.
pub open spec fn merged_bracket(cs: Seq<Seq<char>>) -> Seq<char> {
    seq!['['] + trim_end_ws(fold_contents(cs)) + seq![']']
}

/// Bracket normalization from position `i` on: a run of two or more groups
/// is replaced by its merged bracket and the scan continues just past the
/// run; any other character is kept and the scan moves one position.
pub open spec fn norm_from(s: Seq<char>, i: int) -> Seq<char>
    decreases s.len() - i,
{
    if i < 0 || i >= s.len() {
        Seq::empty()
    } else if starts_run(s, i) && i < run_end(s, i) <= s.len() {
        merged_bracket(run_contents(s, i)) + norm_from(s, run_end(s, i))
    } else {
        seq![s[i]] + norm_from(s, i + 1)
    }
}

/// What bracket normalization returns for `s`.
pub open spec fn norm_brackets(s: Seq<char>) -> Seq<char> {
    norm_from(s, 0)
}

/// The defining equations of `norm_from`.
pub proof fn lemma_norm_from_unfold(s: Seq<char>, i: int)
    requires
        0 <= i < s.len(),
    ensures
        starts_run(s, i) ==> i + 2 <= run_end(s, i) <= s.len() && norm_from(s, i)
            == merged_bracket(run_contents(s, i)) + norm_from(s, run_end(s, i)),
        !starts_run(s, i) ==> norm_from(s, i) == seq![s[i]] + norm_from(s, i + 1),
{
    if starts_run(s, i) {
        lemma_run_parse(s, i);
    }
}

/// The views of a vector of character vectors.
pub open spec fn views_of(gs: Seq<Vec<char>>) -> Seq<Seq<char>> {
    gs.map_values(|g: Vec<char>| g@)
}

/// Appending one group text to the fold appends its contribution.
pub proof fn lemma_fold_push(cs: Seq<Seq<char>>, x: Seq<char>)
    ensures
        fold_contents(cs.push(x)) == fold_contents(cs) + (if x.len() > 0 {
            x + seq![' ']
        } else {
            Seq::<char>::empty()
        }),
    decreases cs.len(),
{
    if cs.len() == 0 {
        assert(cs.push(x).drop_first() =~= Seq::<Seq<char>>::empty());
        assert(cs.push(x)[0] == x);
        assert(fold_contents(Seq::<Seq<char>>::empty()) == Seq::<char>::empty());
        assert(fold_contents(cs) == Seq::<char>::empty());
        if x.len() > 0 {
            assert(fold_contents(cs.push(x)) =~= x + seq![' ']);
            assert(fold_contents(cs) + (x + seq![' ']) =~= x + seq![' ']);
        } else {
            assert(fold_contents(cs) + Seq::<char>::empty() =~= Seq::<char>::empty());
        }
    } else {
        assert(cs.push(x).drop_first() =~= cs.drop_first().push(x));
        lemma_fold_push(cs.drop_first(), x);
        if cs[0].len() > 0 {
            assert(fold_contents(cs.push(x)) == cs[0] + seq![' '] + fold_contents(
                cs.drop_first().push(x),
            ));
            if x.len() > 0 {
                assert(cs[0] + seq![' '] + (fold_contents(cs.drop_first()) + (x + seq![' ']))
                    =~= (cs[0] + seq![' '] + fold_contents(cs.drop_first())) + (x + seq![' ']));
            } else {
                assert(fold_contents(cs.drop_first()) + Seq::<char>::empty() =~= fold_contents(
                    cs.drop_first(),
                ));
                assert(fold_contents(cs) + Seq::<char>::empty() =~= fold_contents(cs));
            }
        } else {
            if x.len() == 0 {
                assert(fold_contents(cs.drop_first()) + Seq::<char>::empty() =~= fold_contents(
                    cs.drop_first(),
                ));
                assert(fold_contents(cs) + Seq::<char>::empty() =~= fold_contents(cs));
            }
        }
    }
}

/// The characters of `s`, in order.
fn to_chars(s: &str) -> (r: Vec<char>)
    ensures
        r@ == s@,
{
    let n = s.unicode_len();
    let mut v: Vec<char> = Vec::new();
    let mut i: usize = 0;
    while i < n
        invariant
            n == s@.len(),
            i <= n,
            v@ == s@.take(i as int),
        decreases n - i,
    {
        let c = s.get_char(i);
        v.push(c);
        proof {
            assert(v@ =~= s@.take(i as int + 1));
        }
        i += 1;
    }
    proof {
        assert(s@.take(n as int) =~= s@);
    }
    v
}

/// Relies on `String`'s `FromIterator<char>` implementation: collecting
/// characters yields the string of exactly those characters, in order.
#[verifier::external_body]
fn string_of(v: &Vec<char>) -> (r: String)
    ensures
        r@ == v@,
{
    v.iter().collect()
}

/// The index of the first `]` at or after `from`, or the vector's length.
fn find_close(v: &Vec<char>, from: usize) -> (r: usize)
    requires
        from <= v@.len(),
    ensures
        r == close_from(v@, from as int),
    decreases v@.len() - from,
{
    let mut j = from;
    while j < v.len()
        invariant
            from <= j <= v@.len(),
            close_from(v@, from as int) == close_from(v@, j as int),
        decreases v@.len() - j,
    {
        if v[j] == ']' {
            return j;
        }
        j += 1;
    }
    j
}

/// The index of the first non-white-space character at or after `from`, or
/// the vector's length.
fn skip_ws(v: &Vec<char>, from: usize) -> (r: usize)
    requires
        from <= v@.len(),
    ensures
        r == skip_ws_from(v@, from as int),
{
    let mut j = from;
    while j < v.len()
        invariant
            from <= j <= v@.len(),
            skip_ws_from(v@, from as int) == skip_ws_from(v@, j as int),
        decreases v@.len() - j,
    {
        if !is_ws(v[j]) {
            return j;
        }
        j += 1;
    }
    j
}

/// Parses the maximal run of bracket groups starting at `start`, returning
/// the position just past the run and the group texts.
fn parse_run(v: &Vec<char>, start: usize) -> (r: (usize, Vec<Vec<char>>))
    requires
        start <= v@.len(),
    ensures
        r.0 as int == run_end(v@, start as int),
        views_of(r.1@) == run_contents(v@, start as int),
        start <= r.0 <= v@.len(),
{
    let ghost s = v@;
    let mut i = start;
    let mut groups: Vec<Vec<char>> = Vec::new();
    proof {
        assert(views_of(groups@) =~= Seq::<Seq<char>>::empty());
        lemma_run_parse(s, start as int);
    }
    loop
        invariant
            start <= i <= s.len(),
            v@ == s,
            run_parse(s, start as int).0 == run_parse(s, i as int).0,
            run_parse(s, start as int).1 == views_of(groups@) + run_parse(s, i as int).1,
        ensures
            start <= i <= s.len(),
            !group_at(s, i as int),
            run_parse(s, start as int).0 == run_parse(s, i as int).0,
            run_parse(s, start as int).1 == views_of(groups@) + run_parse(s, i as int).1,
        decreases s.len() - i,
    {
        proof {
            lemma_run_parse(s, i as int);
        }
        if i >= v.len() || v[i] != '[' {
            break;
        }
        let c = find_close(v, i + 1);
        if c >= v.len() {
            proof {
                assert(!group_at(s, i as int));
            }
            break;
        }
        let ghost groups0 = groups@;
        let mut content: Vec<char> = Vec::new();
        let mut k = i + 1;
        proof {
            assert(content@ =~= s.subrange(i as int + 1, i as int + 1));
        }
        while k < c
            invariant
                i + 1 <= k <= c,
                c < v@.len(),
                v@ == s,
                content@ == s.subrange(i as int + 1, k as int),
            decreases c - k,
        {
            content.push(v[k]);
            proof {
                assert(content@ =~= s.subrange(i as int + 1, k as int + 1));
            }
            k += 1;
        }
        groups.push(content);
        let w = skip_ws(v, c + 1);
        proof {
            lemma_run_parse(s, i as int);
            assert(group_at(s, i as int));
            assert(views_of(groups@) =~= views_of(groups0).push(s.subrange(i as int + 1, c as int)));
            assert(views_of(groups0).push(s.subrange(i as int + 1, c as int)) + run_parse(
                s,
                w as int,
            ).1 =~= views_of(groups0) + (seq![s.subrange(i as int + 1, c as int)] + run_parse(
                s,
                w as int,
            ).1));
        }
        i = w;
    }
    proof {
        lemma_run_parse(s, i as int);
        assert(!group_at(s, i as int));
        assert(views_of(groups@) + Seq::<Seq<char>>::empty() =~= views_of(groups@));
    }
    (i, groups)
}

/// Merges each run of two or more adjacent bracket groups in `data` into one
/// bracket, left to right; replaced text is never rescanned.
pub(crate) fn normalize_brackets(data: &str) -> (r: String)
    ensures
        r@ == norm_brackets(data@),
{
    let v = to_chars(data);
    let ghost s = v@;
    let mut out: Vec<char> = Vec::new();
    let mut i: usize = 0;
    proof {
        assert(out@ + norm_from(s, 0) =~= norm_from(s, 0));
    }
    while i < v.len()
        invariant
            v@ == s,
            s == data@,
            i <= s.len(),
            norm_brackets(s) == out@ + norm_from(s, i as int),
        decreases s.len() - i,
    {
        let ghost out0 = out@;
        proof {
            lemma_norm_from_unfold(s, i as int);
        }
        if v[i] == '[' {
            let (end, grps) = parse_run(&v, i);
            if grps.len() >= 2 {
                proof {
                    lemma_run_parse(s, i as int);
                    assert(run_parse(s, i as int).1.len() == grps@.len());
                    assert(group_at(s, i as int));
                    assert(starts_run(s, i as int));
                }
                // Build the merged bracket: the space-joined non-empty group
                // texts, trimmed of trailing white space.
                let mut joined: Vec<char> = Vec::new();
                let mut g: usize = 0;
                proof {
                    assert(views_of(grps@).take(0) =~= Seq::<Seq<char>>::empty());
                }
                while g < grps.len()
                    invariant
                        g <= grps@.len(),
                        views_of(grps@) == run_contents(s, i as int),
                        joined@ == fold_contents(views_of(grps@).take(g as int)),
                    decreases grps@.len() - g,
                {
                    let ghost joined0 = joined@;
                    if grps[g].len() > 0 {
                        let mut k: usize = 0;
                        proof {
                            assert(joined@ + grps@[g as int]@.take(0) =~= joined@);
                        }
                        while k < grps[g].len()
                            invariant
                                g < grps@.len(),
                                k <= grps@[g as int]@.len(),
                                joined@ == joined0 + grps@[g as int]@.take(k as int),
                            decreases grps@[g as int]@.len() - k,
                        {
                            joined.push(grps[g][k]);
                            proof {
                                assert(joined@ =~= joined0 + grps@[g as int]@.take(k as int + 1));
                            }
                            k += 1;
                        }
                        joined.push(' ');
                        proof {
                            assert(grps@[g as int]@.take(grps@[g as int]@.len() as int)
                                =~= grps@[g as int]@);
                            assert(joined@ =~= joined0 + (grps@[g as int]@ + seq![' ']));
                        }
                    }
                    proof {
                        let cs = views_of(grps@);
                        assert(cs.take(g as int).push(cs[g as int]) =~= cs.take(g as int + 1));
                        lemma_fold_push(cs.take(g as int), cs[g as int]);
                        assert(cs[g as int] == grps@[g as int]@);
                        if cs[g as int].len() == 0 {
                            assert(joined@ =~= joined0);
                            assert(fold_contents(cs.take(g as int)) + Seq::<char>::empty()
                                =~= fold_contents(cs.take(g as int)));
                        }
                    }
                    g += 1;
                }
                proof {
                    assert(views_of(grps@).take(grps@.len() as int) =~= views_of(grps@));
                }
                let ghost folded = joined@;
                while joined.len() > 0 && is_ws(joined[joined.len() - 1])
                    invariant
                        trim_end_ws(joined@) == trim_end_ws(folded),
                    decreases joined@.len(),
                {
                    let ghost before = joined@;
                    joined.pop();
                    proof {
                        assert(joined@ =~= before.drop_last());
                    }
                }
                proof {
                    assert(trim_end_ws(joined@) == joined@);
                }
                out.push('[');
                out.append(&mut joined);
                out.push(']');
                proof {
                    assert(out@ =~= out0 + merged_bracket(run_contents(s, i as int)));
                    assert(out0 + (merged_bracket(run_contents(s, i as int)) + norm_from(
                        s,
                        run_end(s, i as int),
                    )) =~= (out0 + merged_bracket(run_contents(s, i as int))) + norm_from(
                        s,
                        run_end(s, i as int),
                    ));
                }
                i = end;
            } else {
                proof {
                    assert(run_parse(s, i as int).1.len() == grps@.len());
                    assert(!starts_run(s, i as int));
                    assert(out0 + (seq![s[i as int]] + norm_from(s, i as int + 1)) =~= (out0
                        + seq![s[i as int]]) + norm_from(s, i as int + 1));
                }
                out.push(v[i]);
                proof {
                    assert(out@ =~= out0 + seq![s[i as int]]);
                }
                i += 1;
            }
        } else {
            proof {
                assert(!group_at(s, i as int));
                assert(!starts_run(s, i as int));
                assert(out0 + (seq![s[i as int]] + norm_from(s, i as int + 1)) =~= (out0 + seq![
                    s[i as int],
                ]) + norm_from(s, i as int + 1));
            }
            out.push(v[i]);
            proof {
                assert(out@ =~= out0 + seq![s[i as int]]);
            }
            i += 1;
        }
    }
    proof {
        assert(norm_from(s, s.len() as int) =~= Seq::<char>::empty());
        assert(out@ + Seq::<char>::empty() =~= out@);
    }
    string_of(&out)
}

} // verus!
