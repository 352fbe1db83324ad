use song_recommender::index::{make_rules_map, RuleIndex, RuleRecord};
use song_recommender::query::{recommend_songs, MAX_LENGTH};

fn names(items: &[&str]) -> Vec<String> {
    items.iter().map(|s| s.to_string()).collect()
}

fn rule(antecedent: &[&str], consequent: &str) -> RuleRecord {
    RuleRecord { antecedent: names(antecedent), consequent: consequent.to_string() }
}

fn index_of(rules: &[(&[&str], &[&str])]) -> RuleIndex {
    let mut records = Vec::new();
    for (antecedent, consequents) in rules {
        for c in consequents.iter() {
            records.push(rule(antecedent, c));
        }
    }
    make_rules_map(records)
}

fn sorted(mut v: Vec<String>) -> Vec<String> {
    v.sort();
    v
}

#[test]
fn max_length_is_eight() {
    assert_eq!(MAX_LENGTH, 8);
}

#[test]
fn early_termination_skips_shorter_antecedents() {
    let index = index_of(&[
        (&["A", "B"], &["X", "Y", "Z", "W", "V", "U", "T", "S"]),
        (&["A"], &["Q"]),
    ]);
    let songs = recommend_songs(names(&["A", "B"]), &index);
    assert_eq!(sorted(songs), names(&["S", "T", "U", "V", "W", "X", "Y", "Z"]));
}

#[test]
fn query_is_canonicalized_before_lookup() {
    let index = index_of(&[(&["A", "B"], &["X"])]);
    let songs = recommend_songs(names(&["B", "A", "B"]), &index);
    assert_eq!(songs, names(&["X"]));
}

#[test]
fn antecedent_is_canonicalized_when_indexed() {
    let index = index_of(&[(&["B", "A", "B"], &["X"])]);
    assert_eq!(index.len(), 1);
    assert_eq!(index.get(&names(&["A", "B"])), Some(&names(&["X"])));
    assert_eq!(index.get(&names(&["B", "A"])), None);
}

#[test]
fn consequents_of_equal_antecedents_are_gathered() {
    let index = make_rules_map(vec![
        rule(&["A"], "X"),
        rule(&["B"], "Y"),
        rule(&["A"], "Z"),
        rule(&["A"], "X"),
    ]);
    assert_eq!(index.len(), 2);
    assert_eq!(index.get(&names(&["A"])), Some(&names(&["X", "Z"])));
    assert_eq!(index.get(&names(&["B"])), Some(&names(&["Y"])));
}

#[test]
fn shorter_antecedents_fill_up_an_answer() {
    let index = index_of(&[
        (&["A", "B"], &["X"]),
        (&["A"], &["Q"]),
        (&["B"], &["R", "X"]),
        (&["C"], &["never"]),
    ]);
    let songs = recommend_songs(names(&["A", "B"]), &index);
    assert_eq!(sorted(songs), names(&["Q", "R", "X"]));
}

#[test]
fn identical_queries_give_identical_answers() {
    let index = index_of(&[(&["A", "B"], &["X", "Y"]), (&["B"], &["Z"])]);
    let first = recommend_songs(names(&["A", "B"]), &index);
    let second = recommend_songs(names(&["A", "B"]), &index);
    assert_eq!(sorted(first.clone()), sorted(second));
    let reordered = recommend_songs(names(&["B", "B", "A"]), &index);
    assert_eq!(sorted(first), sorted(reordered));
}

#[test]
fn empty_query_and_empty_index_recommend_nothing() {
    let index = index_of(&[(&["A"], &["X"])]);
    assert_eq!(recommend_songs(Vec::new(), &index), Vec::<String>::new());
    let empty = make_rules_map(Vec::new());
    assert_eq!(empty.len(), 0);
    assert_eq!(recommend_songs(names(&["A"]), &empty), Vec::<String>::new());
}

#[test]
fn search_stops_in_the_middle_of_a_length() {
    // The pairs are tried in the order AB, AC, BC. AB and AC together reach
    // eight songs, so BC is never looked up.
    let index = index_of(&[
        (&["A", "B"], &["1", "2", "3", "4"]),
        (&["A", "C"], &["5", "6", "7", "8"]),
        (&["B", "C"], &["9"]),
        (&["A"], &["10"]),
    ]);
    let songs = recommend_songs(names(&["C", "B", "A"]), &index);
    assert_eq!(sorted(songs), names(&["1", "2", "3", "4", "5", "6", "7", "8"]));
}

#[test]
fn answer_may_exceed_eight_when_the_last_match_is_large() {
    let index = index_of(&[
        (&["A"], &["1", "2", "3", "4", "5", "6", "7"]),
        (&["B"], &["8", "9", "a"]),
        (&["C"], &["z"]),
    ]);
    let songs = recommend_songs(names(&["A", "B", "C"]), &index);
    assert_eq!(sorted(songs), names(&["1", "2", "3", "4", "5", "6", "7", "8", "9", "a"]));
}

#[test]
fn antecedents_longer_than_eight_are_never_matched() {
    let nine = ["a", "b", "c", "d", "e", "f", "g", "h", "i"];
    let index = index_of(&[(&nine, &["X"]), (&["a", "b", "c", "d", "e", "f", "g", "h"], &["Y"])]);
    let songs = recommend_songs(names(&nine), &index);
    assert_eq!(songs, names(&["Y"]));
}
