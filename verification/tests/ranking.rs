use jw::fuzzy::rank;

fn names() -> Vec<String> {
    ["auth", "api", "docs", "default"].iter().map(|s| s.to_string()).collect()
}

#[test]
fn empty_query_returns_all_in_order() {
    let m = rank(&names(), "");
    assert_eq!(m.len(), 4);
    assert_eq!(m[0].index, 0);
    assert_eq!(m[3].index, 3);
    assert!(m.iter().all(|x| x.score == 0 && x.positions.is_empty()));
}

#[test]
fn filters_and_ranks_matches() {
    let m = rank(&names(), "au");
    // "auth" and "default" both contain an a/u subsequence; "auth" ranks first.
    assert!(!m.is_empty());
    assert_eq!(names()[m[0].index], "auth");
    assert!(m.iter().all(|x| names()[x.index] != "docs"));
}

#[test]
fn no_match_returns_empty() {
    assert!(rank(&names(), "zzzz").is_empty());
}

#[test]
fn reports_match_positions() {
    let m = rank(&names(), "ath"); // a..t..h in "auth"
    let top = &m[0];
    assert_eq!(names()[top.index], "auth");
    assert!(!top.positions.is_empty());
}

#[test]
fn ranking_is_by_score_then_index() {
    let cands: Vec<String> = ["xa", "a", "ya", "a"].iter().map(|s| s.to_string()).collect();
    let m = rank(&cands, "a");
    assert_eq!(m.len(), 4);
    for w in m.windows(2) {
        assert!(w[0].score > w[1].score || (w[0].score == w[1].score && w[0].index < w[1].index));
    }
    // The two identical candidates keep their relative order.
    let pos = |i: usize| m.iter().position(|x| x.index == i).unwrap();
    assert!(pos(1) < pos(3));
}

#[test]
fn smart_case_matching() {
    let cands: Vec<String> = ["Auth", "auth"].iter().map(|s| s.to_string()).collect();
    // Lower-case query ignores case; an upper-case letter makes it case-sensitive.
    assert_eq!(rank(&cands, "au").len(), 2);
    let m = rank(&cands, "Au");
    assert_eq!(m.len(), 1);
    assert_eq!(m[0].index, 0);
}

#[test]
fn longer_query_shows_no_new_names() {
    let cands: Vec<String> = ["auth", "api", "docs", "default", "Auth", "xau"].iter().map(|s| s.to_string()).collect();
    for (short, long) in [("", "a"), ("a", "au"), ("au", "auT"), ("a", "aU"), ("d", "de")] {
        let before: Vec<usize> = rank(&cands, short).iter().map(|m| m.index).collect();
        let after: Vec<usize> = rank(&cands, long).iter().map(|m| m.index).collect();
        assert!(after.iter().all(|i| before.contains(i)), "{short:?} -> {long:?}: {before:?} vs {after:?}");
    }
    // Upper case makes the match case-sensitive.
    let upper: Vec<usize> = rank(&cands, "A").iter().map(|m| m.index).collect();
    assert_eq!(upper, vec![4]);
}
