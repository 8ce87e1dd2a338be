use prmn::rank::{order_by_score, rank_matches};

fn strings(v: &[&str]) -> Vec<String> {
    v.iter().map(|s| s.to_string()).collect()
}

#[test]
fn best_score_first_and_ties_in_order() {
    let scored = vec![
        (Some(5), "a".to_string()),
        (None, "b".to_string()),
        (Some(9), "c".to_string()),
        (Some(5), "d".to_string()),
        (Some(-1), "e".to_string()),
        (Some(9), "f".to_string()),
    ];
    assert_eq!(order_by_score(&scored), strings(&["c", "f", "a", "d", "e"]));
    assert_eq!(order_by_score(&vec![]), Vec::<String>::new());
}

#[test]
fn empty_query_lists_everything_in_order() {
    let items = strings(&["zeta", "alpha", "mid"]);
    assert_eq!(rank_matches(&items, ""), items);
}

#[test]
fn query_keeps_only_matching_items() {
    let items = strings(&["rust/app", "web/site", "rust/cli"]);
    let r = rank_matches(&items, "rst");
    assert_eq!(r.len(), 2);
    assert!(r.contains(&"rust/app".to_string()) && r.contains(&"rust/cli".to_string()));
    assert!(rank_matches(&items, "zzz").is_empty());
}

#[test]
fn smart_case() {
    let items = strings(&["Readme", "readme"]);
    // a lower-case query ignores case
    assert_eq!(rank_matches(&items, "rdm").len(), 2);
    // a query with a capital is case-sensitive
    assert_eq!(rank_matches(&items, "Rdm"), strings(&["Readme"]));
}

#[test]
fn closer_match_ranks_higher() {
    let items = strings(&["a_x_b_x_c", "abc"]);
    assert_eq!(rank_matches(&items, "abc"), strings(&["abc", "a_x_b_x_c"]));
}
