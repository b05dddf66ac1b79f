//! Initializing a task or contest project: reading the URL the user typed, naming the listed
//! contests, and gathering the contests that all judge sites report.

use vstd::prelude::*;
use vstd::string::StringExecFns;
use crate::error::{E, Severity};
use vstd::string::StringSliceAdditionalSpecFns;
use vstd::utf8::encode_utf8;
use crate::text::{all_ws, is_blank, starts_with, texts};

verus! {

/// The URL the user typed, or `None` when the input is blank (the task is then set up
/// without one).
pub fn url_input(url: String) -> (r: Option<String>)
    ensures
        r is None == all_ws(url@),
        r matches Some(u) ==> u@ == url@,
{
    if is_blank(url.as_str()) {
        None
    } else {
        Some(url)
    }
}

/// The label of a contest in the list of contests: its title, preceded by the site's prefix
/// unless the title starts with it already.
pub fn contest_label(site_prefix: &str, title: &str) -> (l: String)
    ensures
        l@ == (if site_prefix@.len() <= title@.len() && title@.take(site_prefix@.len() as int) == site_prefix@ {
            title@
        } else {
            site_prefix@ + " "@ + title@
        }),
{
    if starts_with(title, site_prefix) {
        title.to_owned()
    } else {
        let mut l = site_prefix.to_owned();
        l.append(" ");
        l.append(title);
        l
    }
}

/// A judge site, as the contest scan sees it.
pub struct SiteInfo {
    pub supports_contests: bool,
    pub accepted_domains: Vec<String>,
}

/// The domains to ask for contests, each with the index of its site: every accepted domain of
/// every site that supports contests, in order.
pub open spec fn contest_domains_spec(sites: Seq<SiteInfo>) -> Seq<(Seq<char>, usize)>
    decreases sites.len(),
{
    if sites.len() == 0 {
        seq![]
    } else {
        let rest = contest_domains_spec(sites.drop_last());
        let last = sites.last();
        if last.supports_contests {
            rest + texts(last.accepted_domains@).map_values(|d: Seq<char>| (d, (sites.len() - 1) as usize))
        } else {
            rest
        }
    }
}

/// The domains to ask for contests, with the index of the site of each.
pub fn contest_domains(sites: &Vec<SiteInfo>) -> (r: Vec<(String, usize)>)
    ensures
        r@.map_values(|p: (String, usize)| (p.0@, p.1)) == contest_domains_spec(sites@),
{
    let mut r: Vec<(String, usize)> = Vec::new();
    let mut i: usize = 0;
    while i < sites.len()
        invariant
            i <= sites@.len(),
            r@.map_values(|p: (String, usize)| (p.0@, p.1)) == contest_domains_spec(sites@.take(i as int)),
        decreases sites@.len() - i,
    {
        proof {
            assert(sites@.take(i + 1).drop_last() =~= sites@.take(i as int));
            assert(sites@.take(i + 1).last() == sites@[i as int]);
        }
        if sites[i].supports_contests {
            let ghost before = r@.map_values(|p: (String, usize)| (p.0@, p.1));
            let ghost doms = texts(sites@[i as int].accepted_domains@).map_values(|d: Seq<char>| (d, i));
            let mut j: usize = 0;
            while j < sites[i].accepted_domains.len()
                invariant
                    i < sites@.len(),
                    j <= sites@[i as int].accepted_domains@.len(),
                    doms == texts(sites@[i as int].accepted_domains@).map_values(|d: Seq<char>| (d, i)),
                    r@.map_values(|p: (String, usize)| (p.0@, p.1)) == before + doms.take(j as int),
                decreases sites@[i as int].accepted_domains@.len() - j,
            {
                let d = sites[i].accepted_domains[j].clone();
                let ghost old_r = r@;
                let ghost item = (d, i);
                r.push((d, i));
                proof {
                    assert(r@ == old_r.push(item));
                    assert(item.0@ == sites@[i as int].accepted_domains@[j as int]@);
                    assert(doms[j as int] == (item.0@, i));
                    assert(doms.take(j + 1) =~= doms.take(j as int).push(doms[j as int]));
                    assert(r@.map_values(|p: (String, usize)| (p.0@, p.1)) =~= old_r.map_values(
                        |p: (String, usize)| (p.0@, p.1),
                    ).push((item.0@, item.1)));
                }
                j += 1;
            }
            assert(doms.take(j as int) =~= doms);
        }
        i += 1;
    }
    assert(sites@.take(i as int) =~= sites@);
    r
}

/// The text added to a domain's error when it failed to report its contests.
pub open spec fn fetch_failure_note(domain: Seq<char>) -> Seq<char> {
    "failed to fetch "@ + domain + " contests"@
}

/// The contests reported by the domains that answered, in order, each with the index of its
/// answer (whose session it goes with) and its site.
pub open spec fn merged_contests<C, B>(answers: Seq<(String, Result<(Vec<C>, B), E>)>) -> Seq<(usize, C, B)>
    decreases answers.len(),
{
    if answers.len() == 0 {
        seq![]
    } else {
        let n = (answers.len() - 1) as usize;
        merged_contests(answers.drop_last()) + match answers.last().1 {
            Ok((cs, b)) => cs@.map_values(|c: C| (n, c, b)),
            Err(_) => seq![],
        }
    }
}

/// The domains that failed to answer, in order, with their errors.
pub open spec fn failures<C, B>(answers: Seq<(String, Result<(Vec<C>, B), E>)>) -> Seq<(Seq<char>, E)>
    decreases answers.len(),
{
    if answers.len() == 0 {
        seq![]
    } else {
        let rest = failures(answers.drop_last());
        match answers.last().1 {
            Ok(_) => rest,
            Err(e) => rest.push((answers.last().0@, e)),
        }
    }
}

/// `w` is the warning made of the failure `f`: its error, marked as a warning, with a message
/// that names the domain added in front.
pub open spec fn is_fetch_warning(w: E, f: (Seq<char>, E)) -> bool {
    &&& w.severity == Severity::Warning
    &&& w.reason_texts() == f.1.reason_texts().push(fetch_failure_note(f.0))
    &&& w.details@ == f.1.details@
    &&& w.actions@ == f.1.actions@
    &&& w.extended@ == f.1.extended@
    &&& w.backtrace == f.1.backtrace
}

/// The contests of all sites, from what each domain answered: every contest reported, with
/// the index of its answer and its site, and a warning for each domain that failed.
pub fn merge_contests<C, B: Copy>(answers: Vec<(String, Result<(Vec<C>, B), E>)>) -> (r: (
    Vec<(usize, C, B)>,
    Vec<E>,
))
    ensures
        r.0@ == merged_contests(answers@),
        r.0@.len() == contest_count(answers@),
        r.1@.len() == failures(answers@).len(),
        forall|k: int| 0 <= k < r.1@.len() ==> is_fetch_warning(#[trigger] r.1@[k], failures(answers@)[k]),
{
    let ghost all = answers@;
    let mut rest = answers;
    let total = rest.len();
    let mut contests: Vec<(usize, C, B)> = Vec::new();
    let mut warnings: Vec<E> = Vec::new();
    let mut done: usize = 0;
    proof {
        assert(all.take(0) =~= Seq::<(String, Result<(Vec<C>, B), E>)>::empty());
        assert(all.skip(0) =~= all);
    }
    while rest.len() > 0
        invariant
            all.len() == total,
            done + rest@.len() == all.len(),
            rest@ == all.skip(done as int),
            contests@ == merged_contests(all.take(done as int)),
            warnings@.len() == failures(all.take(done as int)).len(),
            forall|k: int| 0 <= k < warnings@.len() ==> is_fetch_warning(#[trigger] warnings@[k], failures(all.take(done as int))[k]),
        decreases rest@.len(),
    {
        let ghost pre = all.take(done as int);
        let ghost post = all.take(done + 1);
        proof {
            assert(post.drop_last() =~= pre);
            assert(post.last() == all[done as int]);
            assert(rest@[0] == all[done as int]);
        }
        let (domain, answer) = rest.remove(0);
        match answer {
            Ok((cs, b)) => {
                let ghost orig = cs@;
                let ghost before = contests@;
                let mut cs = cs;
                let m = cs.len();
                let mut j: usize = 0;
                proof {
                    assert(orig.skip(0) =~= orig);
                    assert(orig.take(0).map_values(|c: C| (done, c, b)) =~= Seq::<(usize, C, B)>::empty());
                }
                while cs.len() > 0
                    invariant
                        orig.len() == m,
                        j + cs@.len() == orig.len(),
                        cs@ == orig.skip(j as int),
                        contests@ == before + orig.take(j as int).map_values(|c: C| (done, c, b)),
                    decreases cs@.len(),
                {
                    let c = cs.remove(0);
                    contests.push((done, c, b));
                    proof {
                        assert(orig.skip(j + 1) =~= orig.skip(j as int).drop_first());
                        assert(orig.take(j + 1).map_values(|c: C| (done, c, b)) =~= orig.take(j as int).map_values(
                            |c: C| (done, c, b),
                        ).push((done, orig[j as int], b)));
                    }
                    j += 1;
                }
                proof {
                    assert(orig.take(j as int) =~= orig);
                    assert(failures(post) == failures(pre));
                }
            },
            Err(e) => {
                let mut note = String::from_str("failed to fetch ");
                note.append(domain.as_str());
                note.append(" contests");
                let mut w = e.context(note.as_str());
                w.severity = Severity::Warning;
                warnings.push(w);
                proof {
                    assert(merged_contests(post) =~= merged_contests(pre));
                }
            },
        }
        proof {
            assert(rest@ =~= all.skip(done + 1));
        }
        done += 1;
    }
    proof {
        assert(all.take(done as int) =~= all);
        law_merged_length(all);
    }
    (contests, warnings)
}

/// `i` comes before `j` when listing by key: a smaller key first, and for equal keys the
/// earlier one first.
pub open spec fn key_before(keys: Seq<i64>, i: usize, j: usize) -> bool {
    keys[i as int] < keys[j as int] || (keys[i as int] == keys[j as int] && i < j)
}

/// `order` lists every index of `keys` exactly once, by key, keeping the given order among
/// equal keys.
pub open spec fn is_stable_order(keys: Seq<i64>, order: Seq<usize>) -> bool {
    &&& order.len() == keys.len()
    &&& forall|a: int| 0 <= a < order.len() ==> (#[trigger] order[a]) < keys.len()
    &&& forall|a: int, b: int| 0 <= a < b < order.len() ==> key_before(keys, #[trigger] order[a], #[trigger] order[b])
}

/// The order in which the contests are listed: by start time (given as keys), keeping the
/// order of contests that start at the same time.
pub fn contest_order(starts: &Vec<i64>) -> (order: Vec<usize>)
    ensures
        is_stable_order(starts@, order@),
{
    let ghost keys = starts@;
    let mut order: Vec<usize> = Vec::new();
    let mut i: usize = 0;
    while i < starts.len()
        invariant
            keys == starts@,
            i <= keys.len(),
            order@.len() == i,
            forall|a: int| 0 <= a < order@.len() ==> (#[trigger] order@[a]) < i,
            forall|a: int, b: int| 0 <= a < b < order@.len() ==> key_before(keys, #[trigger] order@[a], #[trigger] order@[b]),
        decreases keys.len() - i,
    {
        let mut p: usize = 0;
        while p < order.len() && starts[order[p]] <= starts[i]
            invariant
                keys == starts@,
                i < keys.len(),
                p <= order@.len(),
                forall|a: int| 0 <= a < order@.len() ==> (#[trigger] order@[a]) < i,
                forall|a: int| 0 <= a < p ==> keys[(#[trigger] order@[a]) as int] <= keys[i as int],
            decreases order@.len() - p,
        {
            p += 1;
        }
        let ghost old_order = order@;
        order.insert(p, i);
        proof {
            assert forall|a: int, b: int| 0 <= a < b < order@.len() implies key_before(keys, #[trigger] order@[a], #[trigger] order@[b]) by {
                if b < p {
                    assert(order@[a] == old_order[a] && order@[b] == old_order[b]);
                } else if b == p {
                    assert(order@[a] == old_order[a]);
                } else if a == p {
                    assert(order@[b] == old_order[b - 1]);
                    assert(keys[old_order[p as int] as int] > keys[i as int]);
                    if b - 1 > p {
                        assert(key_before(keys, old_order[p as int], old_order[b - 1]));
                    }
                } else if a < p {
                    assert(order@[a] == old_order[a] && order@[b] == old_order[b - 1]);
                } else {
                    assert(order@[a] == old_order[a - 1] && order@[b] == old_order[b - 1]);
                }
            }
            assert forall|a: int| 0 <= a < order@.len() implies (#[trigger] order@[a]) < i + 1 by {
                if a < p {
                    assert(order@[a] == old_order[a]);
                } else if a > p {
                    assert(order@[a] == old_order[a - 1]);
                }
            }
        }
        i += 1;
    }
    order
}

/// The listing of contests leaves none out: every index appears in a stable order.
pub proof fn law_order_lists_every_contest(keys: Seq<i64>, order: Seq<usize>, k: usize)
    requires
        is_stable_order(keys, order),
        k < keys.len(),
    ensures
        order.contains(k),
{
    broadcast use vstd::seq_lib::seq_to_set_is_finite;
    assert(order.no_duplicates()) by {
        assert forall|a: int, b: int| 0 <= a < order.len() && 0 <= b < order.len() && a != b implies order[a] != order[b] by {
            if a < b {
                assert(key_before(keys, order[a], order[b]));
            } else {
                assert(key_before(keys, order[b], order[a]));
            }
        }
    }
    order.unique_seq_to_set();
    if !order.contains(k) {
        let n = keys.len() as int;
        let ints = order.to_set().map(|x: usize| x as int);
        let others = vstd::set_lib::set_int_range(0, n).remove(k as int);
        vstd::set_lib::lemma_int_range(0, n);
        assert(ints.subset_of(others)) by {
            assert forall|x: int| ints.contains(x) implies others.contains(x) by {
                let y = choose|y: usize| order.to_set().contains(y) && y as int == x;
                let a = choose|a: int| 0 <= a < order.len() && order[a] == y;
                assert(order[a] < keys.len());
            }
        }
        vstd::set_lib::lemma_len_subset(ints, others);
        assert(ints.len() == order.to_set().len()) by {
            vstd::set_lib::lemma_map_size(order.to_set(), ints, |x: usize| x as int);
        }
    }
}

/// The UTF-8 encoding of a concatenation is the concatenation of the encodings.
proof fn lemma_encode_concat(a: Seq<char>, b: Seq<char>)
    ensures
        encode_utf8(a + b) == encode_utf8(a) + encode_utf8(b),
    decreases a.len(),
{
    if a.len() > 0 {
        assert((a + b).drop_first() =~= a.drop_first() + b);
        assert((a + b)[0] == a[0]);
        lemma_encode_concat(a.drop_first(), b);
        assert(encode_utf8(a + b) =~= encode_utf8(a) + encode_utf8(b));
    } else {
        assert(a + b =~= b);
        assert(encode_utf8(a) + encode_utf8(b) =~= encode_utf8(b));
    }
}

/// The proposed directory of a new project, `directory/codename`, with the byte range of
/// `codename` in it, which is selected for editing.
pub fn project_path(directory: &str, codename: &str) -> (r: (String, usize, usize))
    requires
        directory.spec_bytes().len() + 1 + codename.spec_bytes().len() <= usize::MAX,
    ensures
        r.0@ == directory@ + "/"@ + codename@,
        r.2 == encode_utf8(r.0@).len(),
        r.1 == r.2 - codename.spec_bytes().len(),
{
    let mut basic = directory.to_owned();
    basic.append("/");
    basic.append(codename);
    let total = basic.as_str().len();
    let own = codename.len();
    proof {
        lemma_encode_concat(directory@ + "/"@, codename@);
        reveal_strlit("/");
        lemma_encode_concat(directory@, "/"@);
        assert("/"@ =~= seq!['/']);
        assert(seq!['/'].drop_first() =~= Seq::<char>::empty());
        assert(('/' as u32) == 47u32);
        assert(vstd::utf8::encode_scalar('/' as u32).len() == 1);
        assert(encode_utf8(seq!['/']) == vstd::utf8::encode_scalar(seq!['/'][0] as u32) + encode_utf8(Seq::<char>::empty()));
        assert(encode_utf8(seq!['/']).len() == 1);
        assert(basic@ == (directory@ + "/"@) + codename@);
        assert(total == encode_utf8(basic@).len());
    }
    (basic, total - own, total)
}


/// How many contests the domains that answered reported, all together.
pub open spec fn contest_count<C, B>(answers: Seq<(String, Result<(Vec<C>, B), E>)>) -> nat
    decreases answers.len(),
{
    if answers.len() == 0 {
        0
    } else {
        contest_count(answers.drop_last()) + match answers.last().1 {
            Ok((cs, _)) => cs@.len(),
            Err(_) => 0,
        }
    }
}

/// The merged list holds as many contests as the domains that answered reported together:
/// none is dropped and none is added.
pub proof fn law_merged_length<C, B>(answers: Seq<(String, Result<(Vec<C>, B), E>)>)
    ensures
        merged_contests(answers).len() == contest_count(answers),
    decreases answers.len(),
{
    if answers.len() > 0 {
        law_merged_length(answers.drop_last());
    }
}

/// Counting over a longer prefix of the answers never gives fewer contests.
proof fn lemma_count_grows<C, B>(answers: Seq<(String, Result<(Vec<C>, B), E>)>, i: int, j: int)
    requires
        0 <= i <= j <= answers.len(),
    ensures
        contest_count(answers.take(i)) <= contest_count(answers.take(j)),
    decreases j - i,
{
    if i < j {
        lemma_count_grows(answers, i, j - 1);
        assert(answers.take(j).drop_last() =~= answers.take(j - 1));
    }
}

/// Every contest that a domain reported is listed, in the order the domain gave, with the
/// index of its answer and its site: contest `j` of answer `k` stands right after the
/// contests of the answers before `k`.
pub proof fn law_every_reported_contest_listed<C, B>(
    answers: Seq<(String, Result<(Vec<C>, B), E>)>,
    k: int,
    j: int,
)
    requires
        0 <= k < answers.len(),
    ensures
        merged_contests(answers).len() == contest_count(answers),
        match answers[k].1 {
            Ok((cs, b)) => 0 <= j < cs@.len() ==> {
                &&& contest_count(answers.take(k)) + j < merged_contests(answers).len()
                &&& merged_contests(answers)[contest_count(answers.take(k)) + j] == (k as usize, cs@[j], b)
            },
            Err(_) => true,
        },
    decreases answers.len(),
{
    law_merged_length(answers);
    let n = answers.len() - 1;
    let prefix = answers.drop_last();
    law_merged_length(prefix);
    if k == n {
        assert(answers.take(k) =~= prefix);
    } else {
        law_every_reported_contest_listed(prefix, k, j);
        assert(prefix[k] == answers[k]);
        assert(prefix.take(k) =~= answers.take(k));
        match answers[k].1 {
            Ok((cs, b)) => {
                if 0 <= j < cs@.len() {
                    lemma_count_grows(prefix, k + 1, prefix.len() as int);
                    assert(prefix.take(k + 1).drop_last() =~= prefix.take(k));
                    assert(prefix.take(k + 1).last() == answers[k]);
                    assert(prefix.take(prefix.len() as int) =~= prefix);
                }
            },
            Err(_) => {},
        }
    }
}

} // verus!
