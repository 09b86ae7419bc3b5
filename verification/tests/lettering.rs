use lettering_core::lettering::{
    clamp_search_limit, split_point_wkt, ts_config_for_locale, ContributorTag, DomainError,
    LetteringStatus, PinCode, ValueObjectError,
};

#[test]
fn status_visibility_and_moderation() {
    assert!(LetteringStatus::Approved.is_public());
    assert!(!LetteringStatus::Pending.is_public());
    assert!(!LetteringStatus::Rejected.is_public());
    assert!(LetteringStatus::Pending.needs_moderation());
    assert!(LetteringStatus::Reported.needs_moderation());
    assert!(!LetteringStatus::Approved.needs_moderation());
    assert_eq!(LetteringStatus::default(), LetteringStatus::Pending);
}

#[test]
fn status_labels_round_trip() {
    for s in [
        LetteringStatus::Pending,
        LetteringStatus::Approved,
        LetteringStatus::Rejected,
        LetteringStatus::Reported,
    ] {
        assert_eq!(LetteringStatus::from_label(s.label()), s);
    }
    assert_eq!(LetteringStatus::Approved.label(), "APPROVED");
    assert_eq!(LetteringStatus::from_label("whatever"), LetteringStatus::Pending);
}

#[test]
fn pin_codes_of_the_region() {
    assert!(PinCode::new("560001".to_string()).is_ok());
    assert_eq!(PinCode::new("400001".to_string()).err(), Some(ValueObjectError::PatternMismatch));
    assert_eq!(PinCode::new("5600012".to_string()).err(), Some(ValueObjectError::PatternMismatch));
}

#[test]
fn contributor_tag_length() {
    assert!(ContributorTag::new("abc".to_string()).is_ok());
    assert_eq!(
        ContributorTag::new("ab".to_string()).err(),
        Some(ValueObjectError::LengthOutOfRange { min: 3, max: 30 })
    );
    assert!(ContributorTag::new("a".repeat(31)).is_err());
}

#[test]
fn search_configuration_and_limits() {
    assert_eq!(ts_config_for_locale(Some("en-IN")), "english");
    assert_eq!(ts_config_for_locale(Some(" EN ")), "english");
    assert_eq!(ts_config_for_locale(None), "english");
    assert_eq!(ts_config_for_locale(Some("kn")), "simple");
    assert_eq!(clamp_search_limit(0), 1);
    assert_eq!(clamp_search_limit(50), 50);
    assert_eq!(clamp_search_limit(500), 100);
}

#[test]
fn point_texts_are_split() {
    assert_eq!(
        split_point_wkt("POINT(77.5946 12.9716)"),
        Some(("77.5946".to_string(), "12.9716".to_string()))
    );
    assert_eq!(split_point_wkt("POINT(1 2 3)"), Some(("1".to_string(), "2 3".to_string())));
    assert_eq!(split_point_wkt("POINT(12)"), None);
    assert_eq!(split_point_wkt("LINESTRING(1 2)"), None);
    assert_eq!(split_point_wkt("POINT(1 2"), None);
}

#[test]
fn domain_error_messages() {
    assert_eq!(DomainError::NotFound("x".to_string()).message(), "Not found");
    assert_eq!(
        DomainError::ValidationError("bad".to_string()).message(),
        "Validation error: bad"
    );
    assert_eq!(DomainError::RateLimitExceeded.message(), "Rate limit exceeded");
}

#[test]
fn locations_need_two_coordinates() {
    assert!(lettering_core::lettering::check_location(2).is_ok());
    assert!(lettering_core::lettering::check_location(3).is_ok());
    for n in [0, 1] {
        match lettering_core::lettering::check_location(n) {
            Err(lettering_core::lettering::DomainError::ValidationError(m)) => {
                assert_eq!(m, "location must include longitude and latitude")
            }
            other => panic!("unexpected {:?}", other),
        }
    }
}
