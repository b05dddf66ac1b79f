//! Checkers decide whether a solution's output is accepted as the desired output.
//! The built-in one compares the two texts while treating every run of whitespace as one
//! separator and ignoring trailing whitespace.

use vstd::prelude::*;
use vstd::string::StringExecFns;
use crate::text::{all_ws, chars_of, is_whitespace, is_ws};

verus! {

/// The text as the whitespace-insensitive comparison sees it: every maximal run of
/// whitespace becomes one space, and a run at the end disappears.
pub open spec fn squeeze(s: Seq<char>) -> Seq<char>
    decreases s.len(),
{
    if s.len() == 0 {
        seq![]
    } else if !is_ws(s[0]) {
        seq![s[0]] + squeeze(s.drop_first())
    } else if s.len() == 1 {
        seq![]
    } else if is_ws(s[1]) {
        squeeze(s.drop_first())
    } else {
        seq![' '] + squeeze(s.drop_first())
    }
}

/// Two outputs are equal up to whitespace.
pub open spec fn equal_up_to_whitespace(a: Seq<char>, b: Seq<char>) -> bool {
    squeeze(a) == squeeze(b)
}

/// A text squeezes to nothing exactly when it is all whitespace.
pub proof fn lemma_squeeze_empty(s: Seq<char>)
    ensures
        (squeeze(s).len() == 0) == all_ws(s),
    decreases s.len(),
{
    if s.len() == 0 {
    } else if !is_ws(s[0]) {
    } else if s.len() == 1 {
    } else {
        lemma_squeeze_empty(s.drop_first());
        if is_ws(s[1]) {
            if all_ws(s.drop_first()) {
                assert forall|i: int| 0 <= i < s.len() implies is_ws(#[trigger] s[i]) by {
                    if i > 0 {
                        assert(s[i] == s.drop_first()[i - 1]);
                    }
                }
            } else {
                let k = choose|k: int| 0 <= k < s.drop_first().len() && !is_ws(#[trigger] s.drop_first()[k]);
                assert(!is_ws(s[k + 1]));
            }
        } else {
            assert(!is_ws(s[1]));
        }
    }
}

/// A text that starts with whitespace squeezes to nothing or to a leading space.
pub proof fn lemma_squeeze_ws_head(s: Seq<char>)
    requires
        s.len() > 0,
        is_ws(s[0]),
    ensures
        squeeze(s).len() == 0 || squeeze(s)[0] == ' ',
    decreases s.len(),
{
    if s.len() > 1 && is_ws(s[1]) {
        lemma_squeeze_ws_head(s.drop_first());
    }
}

/// The position after the run of whitespace that starts at `k`, together with what the text
/// from `k` squeezes to.
fn skip_ws(s: &Vec<char>, k: usize) -> (k2: usize)
    requires
        k < s@.len(),
        is_ws(s@[k as int]),
    ensures
        k < k2 <= s@.len(),
        k2 == s@.len() || !is_ws(s@[k2 as int]),
        squeeze(s@.skip(k as int)) == (if k2 == s@.len() {
            Seq::<char>::empty()
        } else {
            seq![' '] + squeeze(s@.skip(k2 as int))
        }),
{
    let n = s.len();
    let mut i = k + 1;
    proof {
        assert(s@.skip(k as int).drop_first() =~= s@.skip(i as int));
    }
    while i < s.len() && is_whitespace(s[i])
        invariant
            k < i <= s@.len(),
            is_ws(s@[i - 1]),
            squeeze(s@.skip(k as int)) == (if i == s@.len() {
                Seq::<char>::empty()
            } else if is_ws(s@[i as int]) {
                squeeze(s@.skip(i as int))
            } else {
                seq![' '] + squeeze(s@.skip(i as int))
            }),
        decreases s@.len() - i,
    {
        proof {
            assert(s@.skip(i as int).drop_first() =~= s@.skip(i + 1));
        }
        i += 1;
    }
    i
}

/// Whether `s` from position `k` on is all whitespace.
fn rest_is_blank(s: &Vec<char>, k: usize) -> (r: bool)
    requires
        k <= s@.len(),
    ensures
        r == all_ws(s@.skip(k as int)),
{
    let mut i = k;
    while i < s.len()
        invariant
            k <= i <= s@.len(),
            all_ws(s@.subrange(k as int, i as int)),
        decreases s@.len() - i,
    {
        if !is_whitespace(s[i]) {
            assert(s@.skip(k as int)[i - k] == s@[i as int]);
            return false;
        }
        assert(s@.subrange(k as int, i + 1) =~= s@.subrange(k as int, i as int).push(s@[i as int]));
        i += 1;
    }
    assert(s@.subrange(k as int, i as int) =~= s@.skip(k as int));
    true
}

/// The built-in checker: the output is accepted when it equals the desired output up to
/// whitespace.
pub struct FreeWhitespaceChecker;

impl FreeWhitespaceChecker {
    /// Judge an output: accepted when it equals the desired output up to whitespace.
    /// The input of the test plays no part.
    pub fn judge(&self, input: &str, desired: &str, out: &str) -> (r: bool)
        ensures
            r == equal_up_to_whitespace(desired@, out@),
    {
        self.equal_bew(desired, out)
    }

    /// Compare two texts, treating each run of whitespace as one separator and ignoring
    /// trailing whitespace.
    pub fn equal_bew(&self, a: &str, b: &str) -> (r: bool)
        ensures
            r == equal_up_to_whitespace(a@, b@),
    {
        let av = chars_of(a);
        let bv = chars_of(b);
        let mut i: usize = 0;
        let mut j: usize = 0;
        proof {
            assert(av@.skip(0) =~= av@);
            assert(bv@.skip(0) =~= bv@);
        }
        while i < av.len() && j < bv.len()
            invariant
                av@ == a@,
                bv@ == b@,
                i <= av@.len(),
                j <= bv@.len(),
                equal_up_to_whitespace(a@, b@) == (squeeze(av@.skip(i as int)) == squeeze(bv@.skip(j as int))),
            decreases av@.len() - i + bv@.len() - j,
        {
            if is_whitespace(av[i]) && is_whitespace(bv[j]) {
                let i2 = skip_ws(&av, i);
                let j2 = skip_ws(&bv, j);
                proof {
                    if i2 < av@.len() {
                        assert(av@.skip(i2 as int)[0] == av@[i2 as int]);
                    }
                    if j2 < bv@.len() {
                        assert(bv@.skip(j2 as int)[0] == bv@[j2 as int]);
                    }
                    assert(av@.skip(av@.len() as int) =~= Seq::<char>::empty());
                    assert(bv@.skip(bv@.len() as int) =~= Seq::<char>::empty());
                    let x = squeeze(av@.skip(i2 as int));
                    let y = squeeze(bv@.skip(j2 as int));
                    if i2 < av@.len() && j2 < bv@.len() {
                        assert(seq![' '] + x == seq![' '] + y ==> x == y) by {
                            if seq![' '] + x == seq![' '] + y {
                                assert(x =~= (seq![' '] + x).drop_first());
                                assert(y =~= (seq![' '] + y).drop_first());
                            }
                        }
                    }
                }
                i = i2;
                j = j2;
            } else {
                if av[i] != bv[j] {
                    proof {
                        let sa = av@.skip(i as int);
                        let sb = bv@.skip(j as int);
                        assert(sa[0] == av@[i as int]);
                        assert(sb[0] == bv@[j as int]);
                        if is_ws(sa[0]) {
                            lemma_squeeze_ws_head(sa);
                            assert(squeeze(sb)[0] == sb[0]);
                        } else if is_ws(sb[0]) {
                            lemma_squeeze_ws_head(sb);
                            assert(squeeze(sa)[0] == sa[0]);
                        } else {
                            assert(squeeze(sa)[0] == sa[0]);
                            assert(squeeze(sb)[0] == sb[0]);
                        }
                    }
                    return false;
                }
                proof {
                    let sa = av@.skip(i as int);
                    let sb = bv@.skip(j as int);
                    assert(sa[0] == av@[i as int]);
                    assert(sb[0] == bv@[j as int]);
                    assert(sa.drop_first() =~= av@.skip(i + 1));
                    assert(sb.drop_first() =~= bv@.skip(j + 1));
                    let x = squeeze(av@.skip(i + 1));
                    let y = squeeze(bv@.skip(j + 1));
                    assert(seq![sa[0]] + x == seq![sa[0]] + y ==> x == y) by {
                        if seq![sa[0]] + x == seq![sa[0]] + y {
                            assert(x =~= (seq![sa[0]] + x).drop_first());
                            assert(y =~= (seq![sa[0]] + y).drop_first());
                        }
                    }
                }
                i += 1;
                j += 1;
            }
        }
        let ra = rest_is_blank(&av, i);
        let rb = rest_is_blank(&bv, j);
        proof {
            lemma_squeeze_empty(av@.skip(i as int));
            lemma_squeeze_empty(bv@.skip(j as int));
            if i == av@.len() {
                assert(av@.skip(i as int) =~= Seq::<char>::empty());
                assert(squeeze(Seq::<char>::empty()) =~= Seq::<char>::empty());
                assert(ra);
                if squeeze(bv@.skip(j as int)).len() == 0 {
                    assert(squeeze(bv@.skip(j as int)) =~= Seq::<char>::empty());
                }
            } else {
                assert(bv@.skip(j as int) =~= Seq::<char>::empty());
                assert(squeeze(Seq::<char>::empty()) =~= Seq::<char>::empty());
                assert(rb);
                if squeeze(av@.skip(i as int)).len() == 0 {
                    assert(squeeze(av@.skip(i as int)) =~= Seq::<char>::empty());
                }
            }
        }
        ra && rb
    }
}

/// A checker program supplied by the user, run with its environment (such as a time limit).
pub struct ExecChecker<X, N> {
    pub executable: X,
    pub environment: N,
}

impl<X, N> ExecChecker<X, N> {
    /// The command-line arguments of the checker program: the paths of the files holding the
    /// input, the output and the desired output, in this order. The output is accepted when
    /// the program exits successfully.
    pub fn arguments(&self, input_path: &str, out_path: &str, desired_path: &str) -> (args: Vec<String>)
        ensures
            args@.len() == 3,
            args@[0]@ == input_path@,
            args@[1]@ == out_path@,
            args@[2]@ == desired_path@,
    {
        let mut args: Vec<String> = Vec::new();
        args.push(input_path.to_owned());
        args.push(out_path.to_owned());
        args.push(desired_path.to_owned());
        args
    }
}

/// The time limit of a checker program when the user set none, in milliseconds.
pub fn default_time_limit() -> (t: Option<u64>)
    ensures
        t == Some(1500u64),
{
    Some(1500)
}

/// Which checker judges the tests.
#[derive(Clone, Copy, Debug, PartialEq, Eq, Structural)]
pub enum CheckerChoice {
    /// The built-in whitespace-insensitive comparison.
    FreeWhitespace,
    /// The user's checker program, built and run with the given time limit in milliseconds.
    Executable { time_limit_ms: Option<u64> },
}

/// The user's checker program when its source exists, the built-in comparison otherwise.
pub fn choose_checker(checker_exists: bool, time_limit_ms: Option<u64>) -> (c: CheckerChoice)
    ensures
        c == (if checker_exists {
            CheckerChoice::Executable { time_limit_ms }
        } else {
            CheckerChoice::FreeWhitespace
        }),
{
    if !checker_exists {
        CheckerChoice::FreeWhitespace
    } else {
        CheckerChoice::Executable { time_limit_ms }
    }
}

/// Equality up to whitespace is an equivalence: every text equals itself ...
pub proof fn law_equal_bew_reflexive(a: Seq<char>)
    ensures
        equal_up_to_whitespace(a, a),
{
}

/// ... the comparison is symmetric ...
pub proof fn law_equal_bew_symmetric(a: Seq<char>, b: Seq<char>)
    ensures
        equal_up_to_whitespace(a, b) == equal_up_to_whitespace(b, a),
{
}

/// ... and transitive.
pub proof fn law_equal_bew_transitive(a: Seq<char>, b: Seq<char>, c: Seq<char>)
    requires
        equal_up_to_whitespace(a, b),
        equal_up_to_whitespace(b, c),
    ensures
        equal_up_to_whitespace(a, c),
{
}

/// Whitespace at the end of an output does not matter.
pub proof fn law_trailing_whitespace_ignored(a: Seq<char>, w: Seq<char>)
    requires
        all_ws(w),
    ensures
        equal_up_to_whitespace(a + w, a),
    decreases a.len(),
{
    if a.len() == 0 {
        assert(a + w =~= w);
        lemma_squeeze_empty(w);
        assert(squeeze(w) =~= squeeze(a));
    } else {
        let s = a + w;
        assert(s.drop_first() =~= a.drop_first() + w);
        law_trailing_whitespace_ignored(a.drop_first(), w);
        assert(s[0] == a[0]);
        if is_ws(a[0]) && a.len() == 1 {
            assert(a.drop_first() =~= Seq::<char>::empty());
            lemma_squeeze_empty(w);
            if w.len() > 0 {
                assert(s[1] == w[0]);
                assert(squeeze(s.drop_first()) =~= Seq::<char>::empty());
            }
        } else if is_ws(a[0]) {
            assert(s[1] == a[1]);
        }
    }
}

/// A text that starts with a run of whitespace squeezes as if the run were one space.
proof fn lemma_ws_run_is_one_space(w: Seq<char>, y: Seq<char>)
    requires
        w.len() > 0,
        all_ws(w),
    ensures
        squeeze(w + y) == squeeze(seq![' '] + y),
    decreases w.len(),
{
    let s = w + y;
    let t = seq![' '] + y;
    assert(s[0] == w[0]);
    assert(t[0] == ' ');
    if w.len() == 1 {
        assert(s.drop_first() =~= y);
        assert(t.drop_first() =~= y);
        if y.len() > 0 {
            assert(s[1] == y[0]);
            assert(t[1] == y[0]);
        }
    } else {
        assert(s[1] == w[1]);
        assert(s.drop_first() =~= w.drop_first() + y);
        lemma_ws_run_is_one_space(w.drop_first(), y);
    }
}

/// Any run of whitespace may stand in place of any other run of whitespace.
pub proof fn law_whitespace_runs_interchangeable(x: Seq<char>, w1: Seq<char>, w2: Seq<char>, y: Seq<char>)
    requires
        w1.len() > 0,
        w2.len() > 0,
        all_ws(w1),
        all_ws(w2),
    ensures
        equal_up_to_whitespace(x + w1 + y, x + w2 + y),
    decreases x.len(),
{
    if x.len() == 0 {
        assert(x + w1 + y =~= w1 + y);
        assert(x + w2 + y =~= w2 + y);
        lemma_ws_run_is_one_space(w1, y);
        lemma_ws_run_is_one_space(w2, y);
    } else {
        let s1 = x + w1 + y;
        let s2 = x + w2 + y;
        assert(s1.drop_first() =~= x.drop_first() + w1 + y);
        assert(s2.drop_first() =~= x.drop_first() + w2 + y);
        law_whitespace_runs_interchangeable(x.drop_first(), w1, w2, y);
        assert(s1[0] == x[0]);
        assert(s2[0] == x[0]);
        if x.len() > 1 {
            assert(s1[1] == x[1]);
            assert(s2[1] == x[1]);
        } else {
            assert(s1[1] == w1[0]);
            assert(s2[1] == w2[0]);
        }
    }
}


/// A text without whitespace is compared as it is: every one of its characters is kept,
/// exactly and in order.
pub proof fn law_text_without_whitespace_kept(s: Seq<char>)
    requires
        forall|k: int| 0 <= k < s.len() ==> !is_ws(#[trigger] s[k]),
    ensures
        squeeze(s) == s,
    decreases s.len(),
{
    if s.len() > 0 {
        let rest = s.drop_first();
        assert forall|k: int| 0 <= k < rest.len() implies !is_ws(#[trigger] rest[k]) by {
            assert(rest[k] == s[k + 1]);
        }
        law_text_without_whitespace_kept(rest);
        assert(s =~= seq![s[0]] + rest);
    }
}

/// Two outputs without whitespace are equal up to whitespace exactly when they are the same
/// text: no character may be dropped, doubled or changed.
pub proof fn law_whitespace_free_outputs_compared_exactly(a: Seq<char>, b: Seq<char>)
    requires
        forall|k: int| 0 <= k < a.len() ==> !is_ws(#[trigger] a[k]),
        forall|k: int| 0 <= k < b.len() ==> !is_ws(#[trigger] b[k]),
    ensures
        equal_up_to_whitespace(a, b) == (a == b),
{
    law_text_without_whitespace_kept(a);
    law_text_without_whitespace_kept(b);
}

/// Two outputs whose first characters are different non-whitespace characters are never
/// equal up to whitespace, whatever follows.
pub proof fn law_different_first_characters_differ(a: Seq<char>, b: Seq<char>)
    requires
        a.len() > 0,
        b.len() > 0,
        !is_ws(a[0]),
        !is_ws(b[0]),
        a[0] != b[0],
    ensures
        !equal_up_to_whitespace(a, b),
{
    assert(squeeze(a)[0] == a[0]);
    assert(squeeze(b)[0] == b[0]);
}

/// An output that starts with a non-whitespace character is never equal up to whitespace to
/// one that starts with whitespace: leading whitespace counts.
pub proof fn law_leading_whitespace_counts(a: Seq<char>, b: Seq<char>)
    requires
        a.len() > 0,
        b.len() > 0,
        !is_ws(a[0]),
        is_ws(b[0]),
    ensures
        !equal_up_to_whitespace(a, b),
{
    assert(squeeze(a)[0] == a[0]);
    lemma_squeeze_ws_head(b);
    assert(is_ws(' '));
}

} // verus!
