use devsecrets::fuzzy::score;

#[test]
fn empty_query_matches() {
    let (s, hl) = score("", "anything").unwrap();
    assert_eq!(s, 0);
    assert!(hl.is_empty());
}

#[test]
fn non_subsequence_is_none() {
    assert!(score("xyz", "abc").is_none());
}

#[test]
fn matches_subsequence_and_reports_indices() {
    let (_, hl) = score("db", "DATABASE_URL").unwrap();
    // 'd' at 0, 'b' somewhere after.
    assert_eq!(hl[0], 0);
    assert!(hl[1] > 0);
}

#[test]
fn prefix_beats_scattered() {
    let prefix = score("api", "api_key").unwrap().0;
    let scattered = score("api", "a_p_i").unwrap().0;
    assert!(prefix > scattered);
}

#[test]
fn exact_scores_follow_the_bonuses() {
    // start +15, then two consecutive +10 each; no length penalty below 20.
    assert_eq!(score("abc", "abc"), Some((35, vec![0, 1, 2])));
    // 'a' at 0: +15; 'p' at 2 after '_': +10 and a gap of one: -1; 'i' at 4: +10 -1.
    assert_eq!(score("api", "a_p_i"), Some((33, vec![0, 2, 4])));
    // 'b' at 1: distance from start -1; 20 characters: -1.
    assert_eq!(score("b", "abcdefghijklmnopqrst"), Some((-2, vec![1])));
}

#[test]
fn matched_positions_spell_the_query() {
    let text = "My_Secret-Key";
    let (_, hl) = score("msk", text).unwrap();
    let chars: Vec<char> = text.chars().collect();
    let spelled: String = hl.iter().map(|&i| chars[i].to_ascii_lowercase()).collect();
    assert_eq!(spelled, "msk");
    assert!(hl.windows(2).all(|w| w[0] < w[1]));
}
