use lettering_core::validation::{ValidationError, ValidationService};

#[test]
fn test_email_validation() {
    let service = ValidationService::new().unwrap();

    let valid_email = format!("{}@{}.{}", "test", "example", "com");
    let result = service.validate_email(&valid_email);
    assert!(result.is_valid);

    let result = service.validate_email("invalid email");
    assert!(!result.is_valid);
}

#[test]
fn test_xss_detection() {
    let service = ValidationService::new().unwrap();

    let malicious_content = format!("<{}>{}</{}>", "script", "alert('xss')", "script");
    let result = service.validate_user_content(&malicious_content, "comment");
    assert!(!result.is_valid);
    assert!(result.errors.iter().any(|e| matches!(e, ValidationError::SecurityViolation { attack_type, .. } if attack_type == "xss")));
}

#[test]
fn test_sql_injection_detection() {
    let service = ValidationService::new().unwrap();

    let malicious_content = "' ; DROP TABLE users; --".to_string();
    let result = service.validate_user_content(&malicious_content, "comment");
    assert!(!result.is_valid);
    assert!(result.errors.iter().any(|e| matches!(e, ValidationError::SecurityViolation { attack_type, .. } if attack_type == "sql_injection")));
}

#[test]
fn test_contributor_tag_validation() {
    let service = ValidationService::new().unwrap();

    let result = service.validate_contributor_tag("ValidUser123");
    assert!(result.is_valid);

    let long_tag = "a".repeat(60);
    let result = service.validate_contributor_tag(&long_tag);
    assert!(!result.is_valid);
}

#[test]
fn test_file_format_validation() {
    let service = ValidationService::new().unwrap();

    let png_data = vec![0x89, 0x50, 0x4E, 0x47, 0x0D, 0x0A, 0x1A, 0x0A];
    let mut full_png = png_data;
    full_png.extend(vec![0; 100]);

    let result = service.validate_file_upload(&full_png, "test.png");
    assert!(result.is_valid);

    let invalid_data = vec![0; 50];
    let result = service.validate_file_upload(&invalid_data, "test.png");
    assert!(!result.is_valid);
}

#[test]
fn email_value_is_trimmed_and_lowercased() {
    let service = ValidationService::new().unwrap();
    let result = service.validate_email("Test.User@Example.COM");
    assert!(result.is_valid);
    assert_eq!(result.value.as_deref(), Some("test.user@example.com"));
    let short = service.validate_email("a@");
    assert!(matches!(short.errors[0], ValidationError::TooShort { min_length: 3, .. }));
    assert!(short.value.is_none());
}

#[test]
fn url_unsafe_schemes_are_refused() {
    let service = ValidationService::new().unwrap();
    let ok = service.validate_url("https://example.com/sign");
    assert!(ok.is_valid);
    assert_eq!(ok.value.as_deref(), Some("https://example.com/sign"));
    let bad = service.validate_url("JavaScript:alert(1)//x");
    assert!(bad.errors.iter().any(|e| matches!(e, ValidationError::SecurityViolation { attack_type, .. } if attack_type == "unsafe_protocol")));
}

#[test]
fn pin_code_validation_trims() {
    let service = ValidationService::new().unwrap();
    let r = service.validate_pin_code("  560001 ");
    assert!(r.is_valid);
    assert_eq!(r.value.as_deref(), Some("560001"));
    let bad = service.validate_pin_code("5!");
    assert!(matches!(bad.errors[0], ValidationError::InvalidFormat { .. }));
}

#[test]
fn file_upload_reports_each_problem() {
    let service = ValidationService::new().unwrap();
    let data = vec![1u8; 10];
    let r = service.validate_file_upload(&data, "archive.tar.GIF");
    let reasons: Vec<String> = r
        .errors
        .iter()
        .map(|e| match e {
            ValidationError::FileValidation { reason } => reason.clone(),
            _ => String::new(),
        })
        .collect();
    assert_eq!(
        reasons,
        vec![
            "File too small to be a valid image".to_string(),
            "File extension 'gif' not allowed".to_string(),
            "File content does not match claimed image format".to_string(),
        ]
    );
    let mut webp = b"RIFF\0\0\0\0WEBP".to_vec();
    webp.extend(vec![0u8; 100]);
    assert!(service.validate_file_upload(&webp, "photo.WebP").is_valid);
    let big = vec![0xFFu8; 20 * 1024 * 1024 + 1];
    let r = service.validate_file_upload(&big, "big.jpg");
    assert!(matches!(&r.errors[0], ValidationError::FileValidation { reason } if reason == "File size 20971521 exceeds maximum 20971520"));
}

#[test]
fn user_content_limits_depend_on_kind() {
    let service = ValidationService::new().unwrap();
    let text = "a".repeat(600);
    let r = service.validate_user_content(&text, "comment");
    assert!(matches!(r.errors[0], ValidationError::TooLong { max_length: 500, .. }));
    let r = service.validate_user_content(&text, "description");
    assert!(r.is_valid);
    let r = service.validate_user_content(&"b".repeat(1001), "other");
    assert!(matches!(r.errors[0], ValidationError::TooLong { max_length: 1000, .. }));
}
