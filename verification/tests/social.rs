use lettering_core::lettering::DomainError;
use lettering_core::social::{
    CommentAction, CommentAddition, CommentEvent, CommentStage, LikeAction, LikeEvent, LikeStage,
    LikeToggle,
};

fn like_step(t: &mut LikeToggle, e: LikeEvent) -> LikeAction {
    assert!(t.accepts(&e));
    t.step(e)
}

#[test]
fn like_is_added_when_none_existed() {
    let (mut t, a) = LikeToggle::start(None);
    assert!(matches!(a, LikeAction::Begin));
    assert!(matches!(like_step(&mut t, LikeEvent::Begun), LikeAction::CheckLike));
    assert!(matches!(like_step(&mut t, LikeEvent::LikeExists(false)), LikeAction::InsertLike));
    assert!(matches!(like_step(&mut t, LikeEvent::Executed), LikeAction::IncrementLikes));
    assert!(matches!(like_step(&mut t, LikeEvent::Executed), LikeAction::ReadLikes));
    assert!(matches!(like_step(&mut t, LikeEvent::CountRead(8)), LikeAction::Commit));
    match like_step(&mut t, LikeEvent::Committed) {
        LikeAction::Succeed { liked, likes_count } => {
            assert!(liked);
            assert_eq!(likes_count, 8);
        },
        other => panic!("unexpected {:?}", other),
    }
    assert_eq!(t.stage(), LikeStage::Finished);
    assert!(!t.accepts(&LikeEvent::Committed));
}

#[test]
fn existing_like_is_removed() {
    let (mut t, _) = LikeToggle::start(None);
    like_step(&mut t, LikeEvent::Begun);
    assert!(matches!(like_step(&mut t, LikeEvent::LikeExists(true)), LikeAction::DeleteLike));
    assert!(matches!(like_step(&mut t, LikeEvent::Executed), LikeAction::DecrementLikes));
    assert!(matches!(like_step(&mut t, LikeEvent::Executed), LikeAction::ReadLikes));
    like_step(&mut t, LikeEvent::CountRead(0));
    match like_step(&mut t, LikeEvent::Committed) {
        LikeAction::Succeed { liked, likes_count } => {
            assert!(!liked);
            assert_eq!(likes_count, 0);
        },
        other => panic!("unexpected {:?}", other),
    }
}

#[test]
fn bad_address_is_a_validation_error() {
    let (t, a) = LikeToggle::start(Some("invalid IP address syntax".to_string()));
    assert_eq!(t.stage(), LikeStage::Finished);
    match a {
        LikeAction::Fail(DomainError::ValidationError(m)) => {
            assert_eq!(m, "invalid IP address syntax")
        },
        other => panic!("unexpected {:?}", other),
    }
}

#[test]
fn database_failure_during_toggle() {
    let (mut t, _) = LikeToggle::start(None);
    like_step(&mut t, LikeEvent::Begun);
    assert!(!t.accepts(&LikeEvent::Executed));
    match like_step(&mut t, LikeEvent::DatabaseFailed { error: "connection reset".to_string() }) {
        LikeAction::Fail(e) => {
            assert_eq!(e.message(), "Infrastructure error: connection reset")
        },
        other => panic!("unexpected {:?}", other),
    }
    assert_eq!(t.stage(), LikeStage::Finished);
}

fn comment_step(c: &mut CommentAddition, e: CommentEvent) -> CommentAction {
    assert!(c.accepts(&e));
    c.step(e)
}

#[test]
fn visible_comment_raises_the_count() {
    let (mut c, a) = CommentAddition::start("VISIBLE");
    assert!(matches!(a, CommentAction::InsertComment));
    assert!(matches!(comment_step(&mut c, CommentEvent::Executed), CommentAction::IncrementComments));
    assert!(matches!(comment_step(&mut c, CommentEvent::Executed), CommentAction::FetchComment));
    assert!(matches!(comment_step(&mut c, CommentEvent::Fetched), CommentAction::Succeed));
    assert_eq!(c.stage(), CommentStage::Finished);
}

#[test]
fn hidden_comment_is_not_counted() {
    for status in ["HIDDEN", "FLAGGED", "visible"] {
        let (mut c, _) = CommentAddition::start(status);
        assert!(matches!(comment_step(&mut c, CommentEvent::Executed), CommentAction::FetchComment));
        assert!(matches!(comment_step(&mut c, CommentEvent::Fetched), CommentAction::Succeed));
    }
}

#[test]
fn database_failure_while_commenting() {
    let (mut c, _) = CommentAddition::start("VISIBLE");
    comment_step(&mut c, CommentEvent::Executed);
    match comment_step(&mut c, CommentEvent::DatabaseFailed { error: "timeout".to_string() }) {
        CommentAction::Fail(DomainError::InfrastructureError(m)) => assert_eq!(m, "timeout"),
        other => panic!("unexpected {:?}", other),
    }
    assert!(!c.accepts(&CommentEvent::Fetched));
}
