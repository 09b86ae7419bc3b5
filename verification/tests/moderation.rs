use lettering_core::moderation::{
    assess_comment_content, contains_phrase, contains_single_word, normalize_text, score_category,
    CommentModerationAssessment,
};

#[test]
fn clean_comment_stays_visible() {
    let assessment = assess_comment_content("Beautiful signage, thanks for sharing this archive");
    assert_eq!(assessment.status, "VISIBLE");
    assert!(!assessment.auto_flagged);
}

#[test]
fn severe_comment_is_auto_hidden() {
    let assessment = assess_comment_content("you should kill yourself");
    assert_eq!(assessment.status, "HIDDEN");
    assert!(assessment.auto_flagged);
    assert!(assessment.needs_review);
}

#[test]
fn normalize_collapses_punctuation_and_case() {
    assert_eq!(normalize_text("  Hello,   WORLD!! 42\t"), "hello world 42");
    assert_eq!(normalize_text(""), "");
    assert_eq!(normalize_text("!!!"), "");
}

#[test]
fn single_word_and_phrase_matching() {
    let tokens = vec!["buy".to_string(), "sext".to_string()];
    assert!(contains_single_word(&tokens, "sext"));
    assert!(!contains_single_word(&tokens, "sex"));
    assert!(contains_phrase("please buy now friend", "buy now"));
    assert!(!contains_phrase("please buy later", "buy now"));
}

#[test]
fn score_category_counts_each_term_once() {
    let normalized = "you are an idiot and a loser";
    let tokens: Vec<String> = normalized.split_whitespace().map(|s| s.to_string()).collect();
    let mut flags = vec!["EXISTING".to_string()];
    let total = score_category(normalized, &tokens, &["idiot", "loser", "moron"], 35, "HARASSMENT", &mut flags);
    assert_eq!(total, 70);
    assert_eq!(flags, vec!["EXISTING", "HARASSMENT:idiot", "HARASSMENT:loser"]);
}

#[test]
fn harassment_needs_review_but_stays_visible() {
    let a = assess_comment_content("what an idiot");
    assert_eq!(a.status, "VISIBLE");
    assert_eq!(a.moderation_score, 35);
    assert_eq!(a.moderation_flags, vec!["HARASSMENT:idiot"]);
    assert!(a.needs_review);
    assert!(!a.auto_flagged);
    assert_eq!(a.review_priority, 35);
    assert_eq!(a.moderation_reason.as_deref(), Some("Flagged for moderator review"));
    assert_eq!(a.moderated_by, None);
}

#[test]
fn score_is_clamped_and_priority_capped() {
    let a = assess_comment_content("kill yourself genocide terrorist");
    assert_eq!(a.moderation_score, 100);
    assert_eq!(a.review_priority, 100);
    assert_eq!(a.status, "HIDDEN");
    assert_eq!(a.moderated_by.as_deref(), Some("AUTO_MODERATOR"));
    assert_eq!(
        a.moderation_reason.as_deref(),
        Some("Auto-hidden by moderation for potentially harmful/offensive content")
    );
}

#[test]
fn url_caps_and_exclamations_are_scored() {
    let a = assess_comment_content("LOOK AT THIS AMAZING SIGN http://X.EXAMPLE !!!!!");
    assert_eq!(
        a.moderation_flags,
        vec!["SPAM:url", "ABUSE:all_caps", "ABUSE:aggressive_punctuation"]
    );
    assert_eq!(a.moderation_score, 50);
    assert!(a.needs_review);
    assert!(!a.auto_flagged);
    assert_eq!(a.review_priority, 50);
}

#[test]
fn exactly_four_fifths_upper_case_is_not_shouting() {
    // 8 upper-case letters out of 10.
    let a = assess_comment_content("ABCDEFGHij");
    assert!(a.moderation_flags.is_empty());
    let b = assess_comment_content("ABCDEFGHIj");
    assert_eq!(b.moderation_flags, vec!["ABUSE:all_caps"]);
}

#[test]
fn default_assessment_is_visible_and_clean() {
    let d = CommentModerationAssessment::default();
    assert_eq!(d.status, "VISIBLE");
    assert_eq!(d.moderation_score, 0);
    assert!(d.moderation_flags.is_empty());
    assert!(!d.needs_review);
}

#[test]
fn category_scores_may_be_negative() {
    let tokens = vec!["great".to_string(), "work".to_string()];
    let mut flags = vec!["EARLIER".to_string()];
    let total = lettering_core::moderation::score_category(
        "great work",
        &tokens,
        &["great", "nice", "great work"],
        -5,
        "PRAISE",
        &mut flags,
    );
    assert_eq!(total, -10);
    assert_eq!(flags, vec!["EARLIER", "PRAISE:great", "PRAISE:great work"]);
}
