use rhiza::score::{
    assess, assess_folded, edit_distance, is_relevant, score, score_folded, similar,
    FULL_SIMILARITY, PREFIX_BONUS, RELEVANCE_THRESHOLD, SUBSTRING_BONUS,
};

fn chars(s: &str) -> Vec<char> {
    s.chars().collect()
}

#[test]
fn constants_are_the_documented_weights() {
    assert_eq!(FULL_SIMILARITY, 1000);
    assert_eq!(SUBSTRING_BONUS, 700);
    assert_eq!(PREFIX_BONUS, 300);
    assert_eq!(RELEVANCE_THRESHOLD, 300);
}

#[test]
fn edit_distance_of_known_pairs() {
    assert_eq!(edit_distance(&chars("kitten"), &chars("sitting")), 3);
    assert_eq!(edit_distance(&chars(""), &chars("abc")), 3);
    assert_eq!(edit_distance(&chars("abc"), &chars("")), 3);
    assert_eq!(edit_distance(&chars(""), &chars("")), 0);
    assert_eq!(edit_distance(&chars("flaw"), &chars("lawn")), 2);
    assert_eq!(edit_distance(&chars("same"), &chars("same")), 0);
}

#[test]
fn edit_distance_is_symmetric_on_samples() {
    let pairs = [("chrome", "google chrome.lnk"), ("abc", "cba"), ("", "x"), ("firefox", "fox")];
    for (a, b) in pairs {
        assert_eq!(edit_distance(&chars(a), &chars(b)), edit_distance(&chars(b), &chars(a)));
    }
}

#[test]
fn similarity_in_thousandths() {
    assert_eq!(similar(&chars("kitten"), &chars("sitting")), 571);
    assert_eq!(similar(&chars("abc"), &chars("abc")), 1000);
    assert_eq!(similar(&chars(""), &chars("")), 1000);
    assert_eq!(similar(&chars(""), &chars("abc")), 0);
    assert_eq!(similar(&chars("ab"), &chars("abcd")), 500);
}

#[test]
fn folded_score_adds_the_bonuses() {
    // similarity 6/17 = 352, and the text holds the term
    assert_eq!(score_folded(&chars("chrome"), &chars("google chrome.lnk"), true), 1052);
    assert_eq!(score_folded(&chars("chrome"), &chars("google chrome.lnk"), false), 1052);
    // similarity 6/10 = 600, holds and begins with the term
    assert_eq!(score_folded(&chars("chrome"), &chars("chrome.exe"), true), 1600);
    assert_eq!(score_folded(&chars("chrome"), &chars("chrome.exe"), false), 1300);
    // nothing in common
    assert_eq!(score_folded(&chars("abc"), &chars("xyz"), true), 0);
}

#[test]
fn identical_term_scores_the_maximum() {
    assert_eq!(score("chrome", "chrome", true), 2000);
    assert_eq!(score("chrome", "chrome", false), 1700);
    assert_eq!(score("", "", true), 2000);
}

#[test]
fn score_folds_case_before_comparing() {
    assert_eq!(score("chrome", "CHROME", false), 1700);
    assert_eq!(score("ChRoMe", "chrome", true), 2000);
    assert_eq!(score("CHROME", "Google Chrome.lnk", true), 1052);
}

#[test]
fn no_text_beats_the_term_itself() {
    let term = "notepad";
    let best = score(term, term, true);
    for text in ["notepad++", "Notepad", "note", "", "zzz", "C:\\Windows\\notepad.exe", "notepadnotepad"] {
        assert!(score(term, text, true) <= best);
        assert!(score(term, text, false) <= score(term, term, false));
    }
}

#[test]
fn chrome_matches_google_chrome_shortcut() {
    let term = Some("chrome".to_string());
    let by_name = score("chrome", "Google Chrome.lnk", true);
    assert!(by_name > RELEVANCE_THRESHOLD);
    assert!(is_relevant(&term, "Google Chrome.lnk", true));
    let target = "C:\\Program Files\\Google\\Chrome\\Application\\chrome.exe";
    assert!(score("chrome", target, false) > RELEVANCE_THRESHOLD);
    assert!(is_relevant(&term, target, false));
}

#[test]
fn unrelated_term_is_excluded() {
    let term = Some("zzz-nomatch".to_string());
    let s = score("zzz-nomatch", "Google Chrome.lnk", true);
    assert!(s <= RELEVANCE_THRESHOLD);
    assert!(!is_relevant(&term, "Google Chrome.lnk", true));
    let target = "C:\\Program Files\\Google\\Chrome\\Application\\chrome.exe";
    assert!(!is_relevant(&term, target, false));
}

#[test]
fn relevance_threshold_is_strict() {
    // three of ten characters kept: exactly 0.3, which is not above it
    let term = chars("aaaccccccc");
    let text = chars("aaabbbbbbb");
    assert_eq!(edit_distance(&term, &text), 7);
    assert_eq!(assess_folded(&term, &text, true), (300, false));
    // four of ten kept
    assert_eq!(assess_folded(&chars("aaaacccccc"), &chars("aaaabbbbbb"), true), (400, true));
    assert_eq!(assess_folded(&chars("abc"), &chars("xyz"), true), (0, false));
}

#[test]
fn relevance_is_decided_before_rounding() {
    // 100 of 333 characters kept: above 0.3, though 300 in whole thousandths
    let term: Vec<char> = "a".repeat(100).chars().chain("c".repeat(233).chars()).collect();
    let text: Vec<char> = "a".repeat(100).chars().chain("b".repeat(233).chars()).collect();
    assert_eq!(edit_distance(&term, &text), 233);
    assert_eq!(assess_folded(&term, &text, false), (300, true));
    let t: String = term.iter().collect();
    let x: String = text.iter().collect();
    assert_eq!(assess(&t, &x.to_uppercase(), false), (300, true));
    assert!(is_relevant(&Some(t), &x, false));
}

#[test]
fn a_text_that_holds_the_term_is_relevant() {
    let long = format!("{}x{}", "y".repeat(500), "z".repeat(500));
    assert_eq!(assess("x", &long, false), (700, true));
    assert_eq!(assess("", "anything", true), (1000, true));
    assert_eq!(assess("", "", false), (1700, true));
}

#[test]
fn everything_is_relevant_without_a_term() {
    assert!(is_relevant(&None, "anything", true));
    assert!(is_relevant(&None, "", false));
}
