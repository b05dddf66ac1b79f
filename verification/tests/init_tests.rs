use icie::error::E;
use icie::init::{contest_domains, contest_label, contest_order, merge_contests, project_path, url_input, SiteInfo};

#[test]
fn blank_url_means_none() {
    assert_eq!(url_input("   \t".to_owned()), None);
    assert_eq!(url_input(String::new()), None);
    assert_eq!(url_input(" https://x/y ".to_owned()), Some(" https://x/y ".to_owned()));
}

#[test]
fn contest_labels() {
    assert_eq!(contest_label("Codeforces", "Codeforces Round 550"), "Codeforces Round 550");
    assert_eq!(contest_label("AtCoder", "Beginner Contest 1"), "AtCoder Beginner Contest 1");
    assert_eq!(contest_label("", "X"), "X");
}

#[test]
fn domains_of_contest_sites() {
    let sites = vec![
        SiteInfo { supports_contests: true, accepted_domains: vec!["codeforces.com".to_owned(), "codeforces.ml".to_owned()] },
        SiteInfo { supports_contests: false, accepted_domains: vec!["spoj.com".to_owned()] },
        SiteInfo { supports_contests: true, accepted_domains: vec!["atcoder.jp".to_owned()] },
    ];
    assert_eq!(
        contest_domains(&sites),
        vec![("codeforces.com".to_owned(), 0), ("codeforces.ml".to_owned(), 0), ("atcoder.jp".to_owned(), 2)]
    );
}

#[test]
fn contests_of_all_domains() {
    let answers = vec![
        ("a.com".to_owned(), Ok((vec!["a1", "a2"], 'A'))),
        ("b.com".to_owned(), Err(E::error("timeout"))),
        ("c.com".to_owned(), Ok((vec!["c1"], 'C'))),
        ("d.com".to_owned(), Ok((vec![], 'D'))),
    ];
    let (contests, warnings) = merge_contests(answers);
    assert_eq!(contests, vec![(0, "a1", 'A'), (0, "a2", 'A'), (2, "c1", 'C')]);
    assert_eq!(warnings.len(), 1);
    assert_eq!(warnings[0].severity, icie::error::Severity::Warning);
    assert_eq!(warnings[0].human(), "failed to fetch b.com contests; timeout");
}

#[test]
fn contests_listed_by_start() {
    assert_eq!(contest_order(&vec![30, 10, 20, 10]), vec![1, 3, 2, 0]);
    assert_eq!(contest_order(&vec![]), Vec::<usize>::new());
    assert_eq!(contest_order(&vec![5, 5, 5]), vec![0, 1, 2]);
}

#[test]
fn project_paths() {
    assert_eq!(project_path("/home/u", "A-x"), ("/home/u/A-x".to_owned(), 8, 11));
    assert_eq!(project_path("/zadanié", "B"), ("/zadanié/B".to_owned(), 10, 11));
}
