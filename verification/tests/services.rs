use lettering_core::health::{all_healthy, database_outcome, redis_outcome, timed_out, PingReply};
use lettering_core::ml::{TesseractService, TextDetector};
use lettering_core::rate_limit::{counter_key, decide, RateDecision};
use lettering_core::virus_scanner::{instream_request, scan_verdict, VirusScanner};

#[test]
fn virus_scanner_defaults_and_verdicts() {
    let scanner = VirusScanner::new(true, None, None);
    assert!(scanner.enabled());
    assert_eq!(scanner.address(), "clamav:3310");
    let custom = VirusScanner::new(true, Some("scan.local".to_string()), Some(9999));
    assert_eq!(custom.address(), "scan.local:9999");
    assert!(scan_verdict("stream: OK"));
    assert!(!scan_verdict("stream: Eicar-Test-Signature FOUND"));
    assert!(scan_verdict("unexpected"));
    assert!(!scanner.outcome(Some("stream: Eicar FOUND")));
    assert!(scanner.outcome(None));
    let disabled = VirusScanner::new(false, None, None);
    assert!(disabled.outcome(Some("stream: Eicar FOUND")));
}

#[test]
fn instream_request_frames_the_data() {
    let req = instream_request(&[1, 2, 3]);
    let mut expected = b"zINSTREAM\0".to_vec();
    expected.extend_from_slice(&[0, 0, 0, 3, 1, 2, 3, 0, 0, 0, 0]);
    assert_eq!(req, expected);
}

#[test]
fn detectors_answer_as_configured() {
    assert!(TesseractService::new(true).enabled());
    assert!(!TesseractService::new(false).enabled());
    let d = TextDetector::new("model.onnx").unwrap();
    assert_eq!(d.detect_text(&[]).unwrap(), Some("Sample detected text".to_string()));
    assert_eq!(d.classify_style(&[]).unwrap(), Some("handpainted".to_string()));
}

#[test]
fn rate_limit_decisions() {
    assert_eq!(counter_key("1.2.3.4"), "rl:1.2.3.4");
    assert_eq!(decide(Some(1), 100), RateDecision { allowed: true, start_window: true });
    assert_eq!(decide(Some(100), 100), RateDecision { allowed: true, start_window: false });
    assert_eq!(decide(Some(101), 100), RateDecision { allowed: false, start_window: false });
    assert_eq!(decide(None, 0), RateDecision { allowed: true, start_window: false });
}

#[test]
fn health_check_outcomes() {
    let ok = database_outcome(Ok(()), 3);
    assert!(ok.healthy);
    assert_eq!(ok.message.as_deref(), Some("Database connection successful"));
    let bad = database_outcome(Err("refused".to_string()), 4);
    assert!(!bad.healthy);
    assert_eq!(bad.message.as_deref(), Some("Database connection failed: refused"));
    let pong = redis_outcome(PingReply::Answered { response: "PONG".to_string() }, 1);
    assert!(pong.healthy);
    assert_eq!(pong.message.as_deref(), Some("Redis ping response: PONG"));
    let odd = redis_outcome(PingReply::Answered { response: "NOPE".to_string() }, 1);
    assert!(!odd.healthy);
    let down = redis_outcome(PingReply::ConnectionFailed { error: "x".to_string() }, 1);
    assert_eq!(down.message.as_deref(), Some("Redis connection failed: x"));
    let slow = timed_out(10000);
    assert_eq!(slow.response_time_ms, 10000);
    assert_eq!(slow.message.as_deref(), Some("Health check timed out"));
    let results = vec![("database".to_string(), ok), ("redis".to_string(), pong)];
    assert!(all_healthy(&results));
    let results = vec![("database".to_string(), bad)];
    assert!(!all_healthy(&results));
}
