use herdr_layout::fuzzy::{fuzzy_score, fuzzy_score_chars, fuzzy_score_checked, is_boundary};

#[test]
fn matches_a_subsequence() {
    assert!(fuzzy_score("cld", "clamped").is_some());
}

#[test]
fn rejects_a_non_subsequence() {
    assert_eq!(fuzzy_score("cldx", "clamped"), None);
}

#[test]
fn an_empty_query_matches_everything() {
    assert!(fuzzy_score("", "anything").is_some());
}

#[test]
fn ignores_case() {
    assert!(fuzzy_score("CLD", "clamped").is_some());
}

#[test]
fn consecutive_runs_beat_scattered_matches() {
    let consecutive = fuzzy_score("cla", "clamped").expect("match");
    let scattered = fuzzy_score("cla", "cxlxaude").expect("match");

    assert!(consecutive > scattered, "consecutive {consecutive} should beat scattered {scattered}");
}

#[test]
fn word_boundary_matches_beat_mid_word_matches() {
    let boundary = fuzzy_score("hs", "herdr src").expect("match");
    let mid_word = fuzzy_score("hs", "theshed").expect("match");

    assert!(boundary > mid_word, "boundary {boundary} should beat mid-word {mid_word}");
}

#[test]
fn a_prefix_match_beats_a_later_match() {
    let prefix = fuzzy_score("cl", "clamped").expect("match");
    let later = fuzzy_score("cl", "xxclamped").expect("match");

    assert!(prefix > later, "prefix {prefix} should beat later {later}");
}

#[test]
fn scores_add_up_bonus_by_bonus() {
    // c at 0: prefix 16; l at 1: consecutive 8; a at 2: consecutive 8.
    assert_eq!(fuzzy_score("cla", "clamped"), Some(32));
    // c at 0: 16; l at 2: gap 1 -> -1; a at 4: gap 1 -> -1.
    assert_eq!(fuzzy_score("cla", "cxlxaude"), Some(14));
    // h at 0: 16; s at 6 after a space: boundary 12, gap 5 -> -5.
    assert_eq!(fuzzy_score("hs", "herdr src"), Some(23));
    assert_eq!(fuzzy_score("", ""), Some(0));
    assert_eq!(fuzzy_score("a", ""), None);
}

#[test]
fn lowercasing_reaches_beyond_ascii() {
    assert!(fuzzy_score("ÉTÉ", "été").is_some());
}

#[test]
fn boundaries_follow_separators() {
    let text: Vec<char> = "a/b-c_d.e:f g".chars().collect();
    assert!(is_boundary(&text, 0));
    assert!(is_boundary(&text, 2));
    assert!(!is_boundary(&text, 1));
    assert!(is_boundary(&text, 99));
    let chars: Vec<char> = "ab".chars().collect();
    assert_eq!(fuzzy_score_chars(&chars, &['b']), Some(-1));
}

#[test]
fn the_checked_score_takes_any_text() {
    assert_eq!(fuzzy_score_checked("cla", "clamped"), Some(Some(32)));
    assert_eq!(fuzzy_score_checked("", "anything"), Some(Some(0)));
    assert_eq!(fuzzy_score_checked("cldx", "clamped"), Some(None));
}
