use lettering_core::metrics::{
    calculate_health_indicators, request_key, BusinessEvent, EngagementType, HealthStatus,
    MetricsService, RequestMetrics,
};
use lettering_core::monitor::{
    assess_overall_health, sort_by_count_descending, AlertSeverity, BusinessEvent as MonitorEvent,
    DatabaseMetrics, EngagementType as MonitorEngagement, ErrorMetrics,
    HealthStatus as MonitorHealth, HttpMetrics, MonitorLimits, PerformanceMonitor,
};
use lettering_core::stats::{
    calculate_percentile, classify_status, drop_oldest, sort_ascending, StatusClass,
};

#[test]
fn metrics_test_http_request_recording() {
    let mut metrics = MetricsService::new();
    metrics.record_http_request("/api/v1/letterings", "GET", 200, 150);
    metrics.record_http_request("/api/v1/letterings", "GET", 404, 50);
    let summary = metrics.calculate_http_summary();
    assert_eq!(summary.total_requests, 2);
    let success_rate = summary.successful_requests as f64 / summary.total_requests as f64;
    assert_eq!(success_rate, 0.5);
}

#[test]
fn metrics_test_percentile_calculation() {
    let data = vec![1, 2, 3, 4, 5, 6, 7, 8, 9, 10];
    assert_eq!(calculate_percentile(&data, 50) as f64, 5.0);
    assert_eq!(calculate_percentile(&data, 95) as f64, 10.0);
}

#[test]
fn performance_test_percentile_calculation() {
    let data = vec![1, 2, 3, 4, 5, 6, 7, 8, 9, 10];
    assert_eq!(calculate_percentile(&data, 50) as f64, 5.0);
    assert_eq!(calculate_percentile(&data, 95) as f64, 10.0);
    assert_eq!(calculate_percentile(&[], 50) as f64, 0.0);
}

#[test]
fn percentile_by_nearest_rank() {
    let data = vec![10, 20, 30, 40];
    assert_eq!(calculate_percentile(&data, 0), 10);
    assert_eq!(calculate_percentile(&data, 25), 10);
    assert_eq!(calculate_percentile(&data, 26), 20);
    assert_eq!(calculate_percentile(&data, 100), 40);
    assert_eq!(calculate_percentile(&data, 250), 40);
}

#[test]
fn performance_test_http_request_recording() {
    let mut monitor = PerformanceMonitor::new();
    monitor.record_http_request("/api/v1/letterings", "GET", 200, 150, 5, 0);
    monitor.record_http_request("/api/v1/letterings", "GET", 404, 50, 3, 0);
    let summary = monitor.calculate_http_summary();
    assert_eq!(summary.total_requests, 2);
    let success_rate = summary.successful_requests as f64 / summary.total_requests as f64;
    assert_eq!(success_rate, 0.5);
    assert_eq!(summary.concurrent_requests, 3);
}

#[test]
fn test_database_query_recording() {
    let mut monitor = PerformanceMonitor::new();
    monitor.record_database_query("SELECT", 100, true);
    monitor.record_database_query("INSERT", 200, false);
    let summary = monitor.calculate_database_summary();
    assert_eq!(summary.total_queries, 2);
    let success_rate = summary.successful_queries as f64 / summary.total_queries as f64;
    assert_eq!(success_rate, 0.5);
    assert_eq!(summary.sample_count, 2);
    assert_eq!(summary.sample_sum, 300);
    assert_eq!(summary.p95_execution_time_ms, 200);
}

#[test]
fn test_business_event_recording() {
    let mut monitor = PerformanceMonitor::new();
    monitor.record_business_event(&MonitorEvent::LetteringUploaded { country_code: "IN".to_string() });
    monitor.record_business_event(&MonitorEvent::LetteringApproved);
    monitor.record_business_event(&MonitorEvent::UserEngagement {
        engagement_type: MonitorEngagement::Like,
    });
    let (users, uploads, likes, comments, reports, backlog) = monitor_counts(&monitor);
    assert_eq!(uploads, 1);
    assert_eq!(likes, 1);
    assert_eq!((users, comments, reports, backlog), (0, 0, 0, 0));
}

fn monitor_counts(m: &PerformanceMonitor) -> (u64, u64, u64, u64, u64, u64) {
    m.business_counts()
}

#[test]
fn slow_request_raises_alert_and_errors_are_counted() {
    let mut monitor = PerformanceMonitor::new();
    assert!(!monitor.record_http_request("/a", "GET", 500, 5000, 1, 1_000));
    assert!(monitor.record_http_request("/a", "GET", 503, 5001, 1, 2_000));
    assert!(!monitor.record_http_request("/a", "GET", 404, 10, 1, 3_000));
    let errors = monitor.calculate_error_summary();
    assert_eq!(errors.total_errors, 3);
    assert_eq!(errors.critical_errors, 2);
    assert_eq!(errors.top_error_types.len(), 3);
    assert_eq!(errors.top_error_types[2], ("HTTP 404".to_string(), 1));
    let breakdown = monitor.get_error_breakdown();
    assert_eq!(breakdown.len(), 1);
    assert_eq!(breakdown[0].0, "GET:/a");
    assert_eq!(monitor.get_time_since_last_error("/a", 10_500), Some(7));
    assert_eq!(monitor.get_time_since_last_error("/b", 10_500), None);
}

#[test]
fn time_since_last_error_of_an_endpoint_under_any_method() {
    let mut monitor = PerformanceMonitor::new();
    monitor.record_http_request("/api/v1/letterings", "GET", 500, 10, 1, 4_000);
    assert_eq!(monitor.get_time_since_last_error("/api/v1/letterings", 4_000), Some(0));
    monitor.record_http_request("/api/v1/letterings", "POST", 400, 10, 1, 9_000);
    monitor.record_http_request("/api/v1/letterings", "GET", 200, 10, 1, 12_000);
    monitor.record_http_request("/api/v1/other", "GET", 500, 10, 1, 13_000);
    assert_eq!(monitor.get_time_since_last_error("/api/v1/letterings", 15_000), Some(6));
    assert_eq!(monitor.get_time_since_last_error("letterings", 15_000), None);
    assert_eq!(monitor.get_time_since_last_error("/api/v1/other", 15_000), Some(2));
}

#[test]
fn test_health_assessment() {
    // Overall health is the worst of its parts.
    assert_eq!(
        assess_overall_health(MonitorHealth::Healthy, MonitorHealth::Healthy, MonitorHealth::Healthy),
        MonitorHealth::Healthy
    );
    assert_eq!(
        assess_overall_health(MonitorHealth::Degraded, MonitorHealth::Healthy, MonitorHealth::Unhealthy),
        MonitorHealth::Unhealthy
    );
    assert_eq!(
        assess_overall_health(MonitorHealth::Healthy, MonitorHealth::Critical, MonitorHealth::Degraded),
        MonitorHealth::Critical
    );
}

#[test]
fn status_codes_are_classified() {
    assert_eq!(classify_status(200), StatusClass::Success);
    assert_eq!(classify_status(299), StatusClass::Success);
    assert_eq!(classify_status(302), StatusClass::Other);
    assert_eq!(classify_status(404), StatusClass::ClientError);
    assert_eq!(classify_status(599), StatusClass::ServerError);
    assert_eq!(classify_status(600), StatusClass::Other);
}

#[test]
fn request_window_drops_oldest_thousand() {
    let mut m = RequestMetrics::new();
    for i in 0..10001u64 {
        m.record(200, i);
    }
    assert_eq!(m.response_times().len(), 9001);
    assert_eq!(m.response_times()[0], 1000);
    assert_eq!(m.counts(), (10001, 10001, 0, 0));
}

#[test]
fn monitor_windows_drop_oldest_hundred() {
    let mut m = HttpMetrics::new();
    for i in 0..101u64 {
        m.record(500, i, 2, 100);
    }
    assert_eq!(m.response_times().len(), 1);
    assert_eq!(m.response_times()[0], 100);
    assert_eq!(m.counts(), (101, 0, 0, 101));
    let mut d = DatabaseMetrics::new();
    d.record(1500, true, 1000, 10000);
    d.record(10, false, 1000, 10000);
    assert_eq!(d.counts(), (2, 1, 1, 1));
}

#[test]
fn error_breakdown_orders_by_count() {
    let mut e = ErrorMetrics::new();
    e.record_error(404, false, 0);
    e.record_error(500, true, 0);
    e.record_error(500, true, 5_000);
    let b = e.error_breakdown();
    assert_eq!(b, vec![(500, 2), (404, 1)]);
    assert_eq!(e.counts(), (3, 2));
    assert_eq!(e.time_since_last_error(7_999), Some(2));
    let sorted = sort_by_count_descending(&vec![(1, 1), (2, 3), (3, 3)]);
    assert_eq!(sorted, vec![(2, 3), (3, 3), (1, 1)]);
}

#[test]
fn business_counters_follow_events() {
    let mut metrics = MetricsService::new();
    metrics.record_business_event(&BusinessEvent::UserActivity { user_id: 7 });
    metrics.record_business_event(&BusinessEvent::LetteringUploaded { country_code: "IN".to_string() });
    metrics.record_business_event(&BusinessEvent::UserEngagement { engagement_type: EngagementType::Comment });
    metrics.record_business_event(&BusinessEvent::UserEngagement { engagement_type: EngagementType::Report });
    metrics.record_business_event(&BusinessEvent::DuplicateDetected);
    let b = metrics.business();
    assert_eq!(b.daily_active_users, 1);
    assert_eq!(b.total_uploads, 1);
    assert_eq!(b.total_likes, 0);
    assert_eq!(b.total_comments, 1);
    assert_eq!(b.total_reports, 1);
}

#[test]
fn summary_percentiles_cover_all_endpoints() {
    let mut metrics = MetricsService::new();
    for d in [30u64, 10, 20] {
        metrics.record_http_request("/a", "GET", 200, d);
    }
    metrics.record_http_request("/b", "POST", 500, 40);
    let s = metrics.calculate_http_summary();
    assert_eq!(s.total_requests, 4);
    assert_eq!(s.successful_requests, 3);
    assert_eq!(s.p50_response_time_ms, 20);
    assert_eq!(s.p95_response_time_ms, 40);
    assert_eq!(s.p99_response_time_ms, 40);
    assert!(metrics.endpoint("POST:/b").is_some());
    assert!(metrics.endpoint("GET:/b").is_none());
}

#[test]
fn key_sorting_and_window_helpers() {
    assert_eq!(request_key("GET", "/x"), "GET:/x");
    assert_eq!(sort_ascending(&vec![3, 1, 2, 1]), vec![1, 1, 2, 3]);
    let mut v = vec![1, 2, 3, 4];
    drop_oldest(&mut v, 3);
    assert_eq!(v, vec![4]);
}

#[test]
fn health_indicators_report_healthy() {
    let h = calculate_health_indicators();
    assert_eq!(h.overall_health, HealthStatus::Healthy);
    assert_eq!(h.ml_service_health, HealthStatus::Healthy);
    assert_eq!(h.critical_errors_24h, 0);
}

#[test]
fn monitor_limits_default() {
    let l = MonitorLimits::default();
    assert_eq!(l.max_data_points, 10000);
    assert_eq!(l.slow_query_threshold_ms, 1000);
    assert_eq!(l.high_response_time_threshold_ms, 5000);
    assert_eq!(AlertSeverity::Warning, AlertSeverity::Warning);
}

#[test]
fn cleanup_keeps_the_newest_samples() {
    let mut monitor = PerformanceMonitor::with_config(MonitorLimits {
        max_data_points: 150,
        slow_query_threshold_ms: 1000,
        high_response_time_threshold_ms: 5000,
    });
    for i in 0..150u64 {
        monitor.record_http_request("/a", "GET", 200, i, 1, 0);
    }
    assert_eq!(monitor.http_endpoints()[0].1.response_times().len(), 150);
    monitor.record_http_request("/a", "GET", 200, 150, 1, 0);
    // Past the window, the hundred oldest went.
    assert_eq!(monitor.http_endpoints()[0].1.response_times().len(), 51);
    monitor.cleanup_old_metrics();
    assert_eq!(monitor.http_endpoints()[0].1.response_times().len(), 51);
    let mut m = HttpMetrics::new();
    for i in 0..10u64 {
        m.record(200, i, 1, 10000);
    }
    m.keep_latest(3);
    assert_eq!(m.response_times(), &vec![7, 8, 9]);
}
