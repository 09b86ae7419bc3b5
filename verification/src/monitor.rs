//! The counting side of the performance monitor: per-endpoint request
//! counters with bounded latency windows, per-query-type database
//! counters, error counts by status code, business event counters, and
//! the integer parts of the summaries built from them.
use vstd::prelude::*;
use crate::text::{to_chars, occurs_at_exec};
use crate::stats::{
    StatusClass,
    status_class,
    classify_status,
    drop_oldest,
    find_key,
    keys_unique,
    update_keyed,
    ascending,
    sort_ascending,
    calculate_percentile,
    percentile_of_sorted,
    sample_sum,
    sum_samples,
    cap_u64,
};

verus! {

/// Supported metric types for proper aggregation strategies.
#[derive(Debug, Clone, Copy, PartialEq, Eq, Structural)]
pub enum MetricType {
    /// Monotonically increasing counter.
    Counter,
    /// Value that can increase or decrease.
    Gauge,
    /// Duration measurements with percentile calculations.
    Histogram,
    /// Rate of events over time windows.
    Rate,
}

/// Service health status levels, from best to worst.
#[derive(Debug, Clone, Copy, PartialEq, Eq, Structural)]
pub enum HealthStatus {
    /// All systems operating normally within acceptable parameters.
    Healthy,
    /// Minor issues present but service remains functional.
    Degraded,
    /// Significant issues affecting functionality or performance.
    Unhealthy,
    /// Service unavailable or critically impaired.
    Critical,
}

/// Alert severity levels.
#[derive(Debug, Clone, Copy, PartialEq, Eq, Structural)]
pub enum AlertSeverity {
    Info,
    Warning,
    Critical,
}

/// Types of user engagement for analytics tracking.
#[derive(Debug, Clone, Copy, PartialEq, Eq, Structural)]
pub enum EngagementType {
    Like,
    Comment,
    Report,
    Share,
    Download,
}

/// How bad a status is: 0 for healthy up to 3 for critical.
pub open spec fn severity_rank(h: HealthStatus) -> nat {
    match h {
        HealthStatus::Healthy => 0,
        HealthStatus::Degraded => 1,
        HealthStatus::Unhealthy => 2,
        HealthStatus::Critical => 3,
    }
}

/// The overall health: the worst of the API, database and resource health.
pub fn assess_overall_health(
    api_health: HealthStatus,
    db_health: HealthStatus,
    resource_health: HealthStatus,
) -> (r: HealthStatus)
    ensures
        severity_rank(r) >= severity_rank(api_health),
        severity_rank(r) >= severity_rank(db_health),
        severity_rank(r) >= severity_rank(resource_health),
        r == api_health || r == db_health || r == resource_health,
{
    match (api_health, db_health, resource_health) {
        (HealthStatus::Critical, _, _)
        | (_, HealthStatus::Critical, _)
        | (_, _, HealthStatus::Critical) => HealthStatus::Critical,
        (HealthStatus::Unhealthy, _, _)
        | (_, HealthStatus::Unhealthy, _)
        | (_, _, HealthStatus::Unhealthy) => HealthStatus::Unhealthy,
        (HealthStatus::Degraded, _, _)
        | (_, HealthStatus::Degraded, _)
        | (_, _, HealthStatus::Degraded) => HealthStatus::Degraded,
        _ => HealthStatus::Healthy,
    }
}

/// A window of samples after one more: when it then holds more than
/// `max_data_points`, the 100 oldest go.
pub open spec fn push_window(times: Seq<u64>, sample: u64, max_data_points: usize) -> Seq<u64> {
    let t = times.push(sample);
    if t.len() > max_data_points {
        t.subrange(100, t.len() as int)
    } else {
        t
    }
}

/// The newest `max_data_points` samples of a window.
pub open spec fn latest(times: Seq<u64>, max_data_points: usize) -> Seq<u64> {
    if times.len() > max_data_points {
        times.subrange(times.len() - max_data_points, times.len() as int)
    } else {
        times
    }
}

fn keep_latest(times: &mut Vec<u64>, max_data_points: usize)
    ensures
        final(times)@ == latest(old(times)@, max_data_points),
{
    if times.len() > max_data_points {
        let n = times.len() - max_data_points;
        drop_oldest(times, n);
    }
}

fn push_bounded(times: &mut Vec<u64>, sample: u64, max_data_points: usize)
    requires
        max_data_points >= 99,
    ensures
        final(times)@ == push_window(old(times)@, sample, max_data_points),
{
    times.push(sample);
    if times.len() > max_data_points {
        drop_oldest(times, 100);
    }
}

/// Request counters of one endpoint.
pub struct HttpMetrics {
    total_requests: u64,
    successful_requests: u64,
    client_errors: u64,
    server_errors: u64,
    response_times: Vec<u64>,
    concurrent_requests: u32,
}

/// The request counters of one endpoint as the caller sees them.
#[verifier::ext_equal]
pub struct HttpCounters {
    pub total_requests: u64,
    pub successful_requests: u64,
    pub client_errors: u64,
    pub server_errors: u64,
    pub response_times: Seq<u64>,
    pub concurrent_requests: u32,
}

impl View for HttpMetrics {
    type V = HttpCounters;

    closed spec fn view(&self) -> HttpCounters {
        HttpCounters {
            total_requests: self.total_requests,
            successful_requests: self.successful_requests,
            client_errors: self.client_errors,
            server_errors: self.server_errors,
            response_times: self.response_times@,
            concurrent_requests: self.concurrent_requests,
        }
    }
}

pub open spec fn empty_http_counters() -> HttpCounters {
    HttpCounters {
        total_requests: 0,
        successful_requests: 0,
        client_errors: 0,
        server_errors: 0,
        response_times: Seq::empty(),
        concurrent_requests: 0,
    }
}

/// The counters after one request: one more in total and in the status's
/// class (stopping at their maximum), the concurrency as reported, and the
/// latency kept in the window.
pub open spec fn http_after(
    m: HttpCounters,
    status_code: u16,
    duration_ms: u64,
    concurrent_requests: u32,
    max_data_points: usize,
) -> HttpCounters {
    let class = status_class(status_code);
    HttpCounters {
        total_requests: m.total_requests.saturating_add(1),
        successful_requests: if class == StatusClass::Success {
            m.successful_requests.saturating_add(1)
        } else {
            m.successful_requests
        },
        client_errors: if class == StatusClass::ClientError {
            m.client_errors.saturating_add(1)
        } else {
            m.client_errors
        },
        server_errors: if class == StatusClass::ServerError {
            m.server_errors.saturating_add(1)
        } else {
            m.server_errors
        },
        response_times: push_window(m.response_times, duration_ms, max_data_points),
        concurrent_requests,
    }
}

impl HttpMetrics {
    pub fn new() -> (r: HttpMetrics)
        ensures
            r@ == empty_http_counters(),
    {
        let r = HttpMetrics {
            total_requests: 0,
            successful_requests: 0,
            client_errors: 0,
            server_errors: 0,
            response_times: Vec::new(),
            concurrent_requests: 0,
        };
        proof {
            assert(r@ =~= empty_http_counters());
        }
        r
    }

    /// Counts one request.
    pub fn record(
        &mut self,
        status_code: u16,
        duration_ms: u64,
        concurrent_requests: u32,
        max_data_points: usize,
    )
        requires
            max_data_points >= 99,
        ensures
            final(self)@ == http_after(
                old(self)@,
                status_code,
                duration_ms,
                concurrent_requests,
                max_data_points,
            ),
    {
        self.total_requests = self.total_requests.saturating_add(1);
        self.concurrent_requests = concurrent_requests;
        push_bounded(&mut self.response_times, duration_ms, max_data_points);
        match classify_status(status_code) {
            StatusClass::Success => {
                self.successful_requests = self.successful_requests.saturating_add(1);
            },
            StatusClass::ClientError => {
                self.client_errors = self.client_errors.saturating_add(1);
            },
            StatusClass::ServerError => {
                self.server_errors = self.server_errors.saturating_add(1);
            },
            StatusClass::Other => {},
        }
        proof {
            assert(self@ =~= http_after(
                old(self)@,
                status_code,
                duration_ms,
                concurrent_requests,
                max_data_points,
            ));
        }
    }

    /// Keeps only the newest `max_data_points` latency samples.
    pub fn keep_latest(&mut self, max_data_points: usize)
        ensures
            final(self)@ == (HttpCounters {
                response_times: latest(old(self)@.response_times, max_data_points),
                ..old(self)@
            }),
    {
        keep_latest(&mut self.response_times, max_data_points);
        proof {
            assert(self@ =~= (HttpCounters {
                response_times: latest(old(self)@.response_times, max_data_points),
                ..old(self)@
            }));
        }
    }

    /// Total, successful, client-error and server-error requests.
    pub fn counts(&self) -> (r: (u64, u64, u64, u64))
        ensures
            r == (self@.total_requests, self@.successful_requests, self@.client_errors, self@.server_errors),
    {
        (self.total_requests, self.successful_requests, self.client_errors, self.server_errors)
    }

    /// The concurrency last reported.
    pub fn concurrent_requests(&self) -> (r: u32)
        ensures
            r == self@.concurrent_requests,
    {
        self.concurrent_requests
    }

    /// The kept latency samples, oldest first.
    pub fn response_times(&self) -> (r: &Vec<u64>)
        ensures
            r@ == self@.response_times,
    {
        &self.response_times
    }
}

/// Query counters of one query type.
pub struct DatabaseMetrics {
    total_queries: u64,
    successful_queries: u64,
    failed_queries: u64,
    execution_times: Vec<u64>,
    slow_queries: u64,
}

/// The query counters of one query type as the caller sees them.
#[verifier::ext_equal]
pub struct DatabaseCounters {
    pub total_queries: u64,
    pub successful_queries: u64,
    pub failed_queries: u64,
    pub execution_times: Seq<u64>,
    pub slow_queries: u64,
}

impl View for DatabaseMetrics {
    type V = DatabaseCounters;

    closed spec fn view(&self) -> DatabaseCounters {
        DatabaseCounters {
            total_queries: self.total_queries,
            successful_queries: self.successful_queries,
            failed_queries: self.failed_queries,
            execution_times: self.execution_times@,
            slow_queries: self.slow_queries,
        }
    }
}

pub open spec fn empty_database_counters() -> DatabaseCounters {
    DatabaseCounters {
        total_queries: 0,
        successful_queries: 0,
        failed_queries: 0,
        execution_times: Seq::empty(),
        slow_queries: 0,
    }
}

/// The counters after one query: one more in total and as succeeded or
/// failed, one more slow query when it took longer than the threshold
/// (counters stop at their maximum), and its time kept in the window.
pub open spec fn database_after(
    m: DatabaseCounters,
    duration_ms: u64,
    success: bool,
    slow_query_threshold_ms: u64,
    max_data_points: usize,
) -> DatabaseCounters {
    DatabaseCounters {
        total_queries: m.total_queries.saturating_add(1),
        successful_queries: if success {
            m.successful_queries.saturating_add(1)
        } else {
            m.successful_queries
        },
        failed_queries: if success {
            m.failed_queries
        } else {
            m.failed_queries.saturating_add(1)
        },
        execution_times: push_window(m.execution_times, duration_ms, max_data_points),
        slow_queries: if duration_ms > slow_query_threshold_ms {
            m.slow_queries.saturating_add(1)
        } else {
            m.slow_queries
        },
    }
}

impl DatabaseMetrics {
    pub fn new() -> (r: DatabaseMetrics)
        ensures
            r@ == empty_database_counters(),
    {
        let r = DatabaseMetrics {
            total_queries: 0,
            successful_queries: 0,
            failed_queries: 0,
            execution_times: Vec::new(),
            slow_queries: 0,
        };
        proof {
            assert(r@ =~= empty_database_counters());
        }
        r
    }

    /// Counts one query.
    pub fn record(
        &mut self,
        duration_ms: u64,
        success: bool,
        slow_query_threshold_ms: u64,
        max_data_points: usize,
    )
        requires
            max_data_points >= 99,
        ensures
            final(self)@ == database_after(
                old(self)@,
                duration_ms,
                success,
                slow_query_threshold_ms,
                max_data_points,
            ),
    {
        self.total_queries = self.total_queries.saturating_add(1);
        if success {
            self.successful_queries = self.successful_queries.saturating_add(1);
        } else {
            self.failed_queries = self.failed_queries.saturating_add(1);
        }
        if duration_ms > slow_query_threshold_ms {
            self.slow_queries = self.slow_queries.saturating_add(1);
        }
        push_bounded(&mut self.execution_times, duration_ms, max_data_points);
        proof {
            assert(self@ =~= database_after(
                old(self)@,
                duration_ms,
                success,
                slow_query_threshold_ms,
                max_data_points,
            ));
        }
    }

    /// Keeps only the newest `max_data_points` execution times.
    pub fn keep_latest(&mut self, max_data_points: usize)
        ensures
            final(self)@ == (DatabaseCounters {
                execution_times: latest(old(self)@.execution_times, max_data_points),
                ..old(self)@
            }),
    {
        keep_latest(&mut self.execution_times, max_data_points);
        proof {
            assert(self@ =~= (DatabaseCounters {
                execution_times: latest(old(self)@.execution_times, max_data_points),
                ..old(self)@
            }));
        }
    }

    /// Total, successful, failed and slow queries.
    pub fn counts(&self) -> (r: (u64, u64, u64, u64))
        ensures
            r == (self@.total_queries, self@.successful_queries, self@.failed_queries, self@.slow_queries),
    {
        (self.total_queries, self.successful_queries, self.failed_queries, self.slow_queries)
    }

    /// The kept execution times, oldest first.
    pub fn execution_times(&self) -> (r: &Vec<u64>)
        ensures
            r@ == self@.execution_times,
    {
        &self.execution_times
    }
}


/// Counts per status code after `n` more responses with `code`: an existing
/// count grows (stopping at its maximum), a new code is added last.
pub open spec fn add_status(s: Seq<(u16, u64)>, code: u16, n: u64) -> Seq<(u16, u64)> {
    if exists|i: int| 0 <= i < s.len() && s[i].0 == code {
        let i = choose|i: int| 0 <= i < s.len() && s[i].0 == code;
        s.update(i, (code, s[i].1.saturating_add(n)))
    } else {
        s.push((code, n))
    }
}

/// Each status code occurs once.
pub open spec fn unique_codes(s: Seq<(u16, u64)>) -> bool {
    forall|i: int, j: int| 0 <= i < j < s.len() ==> s[i].0 != s[j].0
}

fn add_status_exec(s: &mut Vec<(u16, u64)>, code: u16, n: u64)
    requires
        unique_codes(old(s)@),
    ensures
        final(s)@ == add_status(old(s)@, code, n),
        unique_codes(final(s)@),
{
    let mut i: usize = 0;
    while i < s.len()
        invariant
            i <= s.len(),
            s@ == old(s)@,
            unique_codes(s@),
            forall|j: int| 0 <= j < i ==> s@[j].0 != code,
        decreases s.len() - i,
    {
        if s[i].0 == code {
            let c = s[i].1;
            s.set(i, (code, c.saturating_add(n)));
            proof {
                let o = old(s)@;
                assert(o[i as int].0 == code);
                let w = choose|j: int| 0 <= j < o.len() && o[j].0 == code;
                assert(w == i as int);
            }
            return;
        }
        i = i + 1;
    }
    s.push((code, n));
}

/// Error counters of one endpoint.
pub struct ErrorMetrics {
    total_errors: u64,
    errors_by_status: Vec<(u16, u64)>,
    critical_errors: u64,
    last_error_ms: Option<u64>,
}

/// The error counters of one endpoint as the caller sees them.
#[verifier::ext_equal]
pub struct ErrorCounters {
    pub total_errors: u64,
    pub errors_by_status: Seq<(u16, u64)>,
    pub critical_errors: u64,
    pub last_error_ms: Option<u64>,
}

impl View for ErrorMetrics {
    type V = ErrorCounters;

    closed spec fn view(&self) -> ErrorCounters {
        ErrorCounters {
            total_errors: self.total_errors,
            errors_by_status: self.errors_by_status@,
            critical_errors: self.critical_errors,
            last_error_ms: self.last_error_ms,
        }
    }
}

pub open spec fn empty_error_counters() -> ErrorCounters {
    ErrorCounters {
        total_errors: 0,
        errors_by_status: Seq::empty(),
        critical_errors: 0,
        last_error_ms: None,
    }
}

/// The counters after an error with `status_code` at `now_ms`.
pub open spec fn error_after(m: ErrorCounters, status_code: u16, is_critical: bool, now_ms: u64) -> ErrorCounters {
    ErrorCounters {
        total_errors: m.total_errors.saturating_add(1),
        errors_by_status: add_status(m.errors_by_status, status_code, 1),
        critical_errors: if is_critical {
            m.critical_errors.saturating_add(1)
        } else {
            m.critical_errors
        },
        last_error_ms: Some(now_ms),
    }
}

/// `s` is ordered by count, largest first.
pub open spec fn by_count_descending(s: Seq<(u16, u64)>) -> bool {
    forall|i: int, j: int| 0 <= i < j < s.len() ==> s[i].1 >= s[j].1
}

/// The pairs ordered by count, largest first; pairs with equal counts keep
/// their order.
pub fn sort_by_count_descending(v: &Vec<(u16, u64)>) -> (r: Vec<(u16, u64)>)
    ensures
        by_count_descending(r@),
        r@.to_multiset() == v@.to_multiset(),
{
    crate::stats::rank_by_count(v)
}

impl ErrorMetrics {
    /// Each status code is counted under one entry.
    pub open spec fn wf(&self) -> bool {
        unique_codes(self@.errors_by_status)
    }

    pub fn new() -> (r: ErrorMetrics)
        ensures
            r.wf(),
            r@ == empty_error_counters(),
    {
        let r = ErrorMetrics {
            total_errors: 0,
            errors_by_status: Vec::new(),
            critical_errors: 0,
            last_error_ms: None,
        };
        proof {
            assert(r@ =~= empty_error_counters());
        }
        r
    }

    /// Counts an error response at time `now_ms`.
    pub fn record_error(&mut self, status_code: u16, is_critical: bool, now_ms: u64)
        requires
            old(self).wf(),
        ensures
            final(self).wf(),
            final(self)@ == error_after(old(self)@, status_code, is_critical, now_ms),
    {
        self.total_errors = self.total_errors.saturating_add(1);
        add_status_exec(&mut self.errors_by_status, status_code, 1);
        if is_critical {
            self.critical_errors = self.critical_errors.saturating_add(1);
        }
        self.last_error_ms = Some(now_ms);
        proof {
            assert(self@ =~= error_after(old(self)@, status_code, is_critical, now_ms));
        }
    }

    /// The counts per status code, largest first.
    pub fn error_breakdown(&self) -> (r: Vec<(u16, u64)>)
        ensures
            by_count_descending(r@),
            r@.to_multiset() == self@.errors_by_status.to_multiset(),
    {
        sort_by_count_descending(&self.errors_by_status)
    }

    /// Whole seconds since the last error, if there was one (none when the
    /// clock reads earlier).
    pub fn time_since_last_error(&self, now_ms: u64) -> (r: Option<u64>)
        ensures
            r == (match self@.last_error_ms {
                Some(t) => Some((if now_ms >= t { (now_ms - t) as u64 } else { 0u64 }) / 1000),
                None => None,
            }),
    {
        match self.last_error_ms {
            Some(t) => {
                let elapsed: u64 = if now_ms >= t { now_ms - t } else { 0 };
                Some(elapsed / 1000)
            },
            None => None,
        }
    }

    /// Total and critical errors.
    pub fn counts(&self) -> (r: (u64, u64))
        ensures
            r == (self@.total_errors, self@.critical_errors),
    {
        (self.total_errors, self.critical_errors)
    }

    /// The counts per status code, in the order the codes were first seen.
    pub fn errors_by_status(&self) -> (r: &Vec<(u16, u64)>)
        ensures
            r@ == self@.errors_by_status,
    {
        &self.errors_by_status
    }
}

/// Business events that can be tracked for analytics. A user is named by
/// the 128 bits of its id.
#[derive(Debug, Clone)]
pub enum BusinessEvent {
    UserActivity { user_id: Option<u128> },
    LetteringUploaded { country_code: String },
    LetteringApproved,
    LetteringRejected { reason: String },
    UserEngagement { engagement_type: EngagementType },
    ModerationCompleted,
    DuplicateDetected,
    CacheHit { cache_type: String },
    CacheMiss { cache_type: String },
    MlProcessingCompleted { success: bool, processing_time_ms: u64 },
}

/// Business counters for product analytics.
pub struct BusinessMetrics {
    daily_active_users: u64,
    total_uploads: u64,
    total_likes: u64,
    total_comments: u64,
    total_reports: u64,
    uploads_by_country: Vec<(String, u64)>,
    pending_moderation_queue_size: u64,
}

/// The business counters as the caller sees them.
#[verifier::ext_equal]
pub struct BusinessCounts {
    pub daily_active_users: u64,
    pub total_uploads: u64,
    pub total_likes: u64,
    pub total_comments: u64,
    pub total_reports: u64,
    pub uploads_by_country: Seq<(Seq<char>, u64)>,
    pub pending_moderation_queue_size: u64,
}

/// Every business counter at zero and no upload counted by country.
pub open spec fn empty_business_counts() -> BusinessCounts {
    BusinessCounts {
        daily_active_users: 0,
        total_uploads: 0,
        total_likes: 0,
        total_comments: 0,
        total_reports: 0,
        uploads_by_country: Seq::empty(),
        pending_moderation_queue_size: 0,
    }
}

impl View for BusinessMetrics {
    type V = BusinessCounts;

    closed spec fn view(&self) -> BusinessCounts {
        BusinessCounts {
            daily_active_users: self.daily_active_users,
            total_uploads: self.total_uploads,
            total_likes: self.total_likes,
            total_comments: self.total_comments,
            total_reports: self.total_reports,
            uploads_by_country: self.uploads_by_country@.map_values(
                |e: (String, u64)| (e.0@, e.1),
            ),
            pending_moderation_queue_size: self.pending_moderation_queue_size,
        }
    }
}

pub open spec fn one_more(n: u64) -> u64 {
    n.saturating_add(1)
}

/// The counters after an event: activity, uploads (also per country) and
/// likes, comments and reports count one more, stopping at their maximum;
/// no other event changes a counter.
pub open spec fn business_after(b: BusinessCounts, event: BusinessEvent) -> BusinessCounts {
    match event {
        BusinessEvent::UserActivity { .. } => BusinessCounts {
            daily_active_users: one_more(b.daily_active_users),
            ..b
        },
        BusinessEvent::LetteringUploaded { country_code } => BusinessCounts {
            total_uploads: one_more(b.total_uploads),
            uploads_by_country: update_keyed(
                b.uploads_by_country,
                country_code@,
                |n: u64| one_more(n),
                0u64,
            ),
            ..b
        },
        BusinessEvent::UserEngagement { engagement_type } => match engagement_type {
            EngagementType::Like => BusinessCounts { total_likes: one_more(b.total_likes), ..b },
            EngagementType::Comment => BusinessCounts {
                total_comments: one_more(b.total_comments),
                ..b
            },
            EngagementType::Report => BusinessCounts {
                total_reports: one_more(b.total_reports),
                ..b
            },
            _ => b,
        },
        _ => b,
    }
}

impl BusinessMetrics {
    /// Each country is counted under one entry.
    pub open spec fn wf(&self) -> bool {
        keys_unique(self@.uploads_by_country)
    }

    pub fn new() -> (r: BusinessMetrics)
        ensures
            r.wf(),
            r@ == empty_business_counts(),
    {
        let r = BusinessMetrics {
            daily_active_users: 0,
            total_uploads: 0,
            total_likes: 0,
            total_comments: 0,
            total_reports: 0,
            uploads_by_country: Vec::new(),
            pending_moderation_queue_size: 0,
        };
        proof {
            assert(r@.uploads_by_country =~= Seq::<(Seq<char>, u64)>::empty());
        }
        r
    }

    fn count_upload(&mut self, country_code: &str)
        requires
            old(self).wf(),
        ensures
            final(self).wf(),
            final(self)@ == (BusinessCounts {
                total_uploads: one_more(old(self)@.total_uploads),
                uploads_by_country: update_keyed(
                    old(self)@.uploads_by_country,
                    country_code@,
                    |n: u64| one_more(n),
                    0u64,
                ),
                ..old(self)@
            }),
    {
        let ghost before = self@.uploads_by_country;
        let ghost raw = self.uploads_by_country@;
        self.total_uploads = self.total_uploads.saturating_add(1);
        match find_key(&self.uploads_by_country, country_code) {
            Some(i) => {
                let (k, n) = self.uploads_by_country.remove(i);
                self.uploads_by_country.insert(i, (k, n.saturating_add(1)));
                proof {
                    assert(before[i as int].0 == country_code@);
                    let w = choose|j: int|
                        0 <= j < before.len() && before[j].0 == country_code@;
                    assert(w == i as int);
                    assert(self@.uploads_by_country =~= before.update(
                        i as int,
                        (country_code@, one_more(before[i as int].1)),
                    ));
                }
            },
            None => {
                self.uploads_by_country.push((country_code.to_string(), 1));
                proof {
                    assert forall|j: int| 0 <= j < before.len() implies before[j].0
                        != country_code@ by {
                        assert(raw[j].0@ != country_code@);
                    }
                    assert(self@.uploads_by_country =~= before.push((country_code@, one_more(0u64))));
                }
            },
        }
    }

    /// Counts a business event.
    pub fn record(&mut self, event: &BusinessEvent)
        requires
            old(self).wf(),
        ensures
            final(self).wf(),
            final(self)@ == business_after(old(self)@, *event),
    {
        match event {
            BusinessEvent::UserActivity { .. } => {
                self.daily_active_users = self.daily_active_users.saturating_add(1);
            },
            BusinessEvent::LetteringUploaded { country_code } => {
                self.count_upload(country_code.as_str());
            },
            BusinessEvent::UserEngagement { engagement_type } => match engagement_type {
                EngagementType::Like => {
                    self.total_likes = self.total_likes.saturating_add(1);
                },
                EngagementType::Comment => {
                    self.total_comments = self.total_comments.saturating_add(1);
                },
                EngagementType::Report => {
                    self.total_reports = self.total_reports.saturating_add(1);
                },
                _ => {},
            },
            _ => {},
        }
        proof {
            assert(self@ =~= business_after(old(self)@, *event));
        }
    }

    /// Daily active users, uploads, likes, comments, reports and the
    /// moderation backlog.
    pub fn counts(&self) -> (r: (u64, u64, u64, u64, u64, u64))
        ensures
            r == (
                self@.daily_active_users,
                self@.total_uploads,
                self@.total_likes,
                self@.total_comments,
                self@.total_reports,
                self@.pending_moderation_queue_size,
            ),
    {
        (
            self.daily_active_users,
            self.total_uploads,
            self.total_likes,
            self.total_comments,
            self.total_reports,
            self.pending_moderation_queue_size,
        )
    }
}

/// The limits the monitor counts with.
#[derive(Debug, Clone, Copy, PartialEq, Eq, Structural)]
pub struct MonitorLimits {
    /// Most samples kept per window; past it the 100 oldest go.
    pub max_data_points: usize,
    /// A query that takes longer counts as slow.
    pub slow_query_threshold_ms: u64,
    /// A request that takes longer raises an alert.
    pub high_response_time_threshold_ms: u64,
}

impl Default for MonitorLimits {
    /// 10000 samples per window, queries slow past a second, requests
    /// alerting past five.
    fn default() -> (r: Self)
        ensures
            r.max_data_points == 10000,
            r.slow_query_threshold_ms == 1000,
            r.high_response_time_threshold_ms == 5000,
    {
        MonitorLimits {
            max_data_points: 10000,
            slow_query_threshold_ms: 1000,
            high_response_time_threshold_ms: 5000,
        }
    }
}

/// A request's status is recorded as an error when it is 4xx or 5xx, as a
/// critical one when 5xx.
pub open spec fn is_error_status(status_code: u16) -> bool {
    400 <= status_code <= 599
}

pub open spec fn is_critical_status(status_code: u16) -> bool {
    500 <= status_code <= 599
}

/// The counters of the performance monitor.
pub struct PerformanceMonitor {
    http_metrics: Vec<(String, HttpMetrics)>,
    db_metrics: Vec<(String, DatabaseMetrics)>,
    error_metrics: Vec<(String, ErrorMetrics)>,
    business_metrics: BusinessMetrics,
    limits: MonitorLimits,
}

/// The monitor as the caller sees it.
#[verifier::ext_equal]
pub struct MonitorView {
    pub http: Seq<(Seq<char>, HttpCounters)>,
    pub db: Seq<(Seq<char>, DatabaseCounters)>,
    pub errors: Seq<(Seq<char>, ErrorCounters)>,
    pub business: BusinessCounts,
    pub limits: MonitorLimits,
}

impl View for PerformanceMonitor {
    type V = MonitorView;

    closed spec fn view(&self) -> MonitorView {
        MonitorView {
            http: self.http_metrics@.map_values(|e: (String, HttpMetrics)| (e.0@, e.1@)),
            db: self.db_metrics@.map_values(|e: (String, DatabaseMetrics)| (e.0@, e.1@)),
            errors: self.error_metrics@.map_values(|e: (String, ErrorMetrics)| (e.0@, e.1@)),
            business: self.business_metrics@,
            limits: self.limits,
        }
    }
}

/// The monitor's state is well formed: keys occur once, each endpoint's
/// status codes occur once, and windows keep at least 99 samples.
pub open spec fn monitor_wf(v: MonitorView) -> bool {
    &&& keys_unique(v.http)
    &&& keys_unique(v.db)
    &&& keys_unique(v.errors)
    &&& forall|i: int| 0 <= i < v.errors.len() ==> unique_codes(#[trigger] v.errors[i].1.errors_by_status)
    &&& keys_unique(v.business.uploads_by_country)
    &&& v.limits.max_data_points >= 99
}

impl PerformanceMonitor {
    pub closed spec fn wf(&self) -> bool {
        &&& monitor_wf(self@)
        &&& self.business_metrics.wf()
        &&& forall|i: int| 0 <= i < self.error_metrics@.len() ==> (#[trigger] self.error_metrics@[i]).1.wf()
    }

    /// A monitor with nothing counted, using the given limits.
    pub fn with_config(limits: MonitorLimits) -> (r: PerformanceMonitor)
        requires
            limits.max_data_points >= 99,
        ensures
            r.wf(),
            r@.http == Seq::<(Seq<char>, HttpCounters)>::empty(),
            r@.db == Seq::<(Seq<char>, DatabaseCounters)>::empty(),
            r@.errors == Seq::<(Seq<char>, ErrorCounters)>::empty(),
            r@.business == empty_business_counts(),
            r@.limits == limits,
    {
        let r = PerformanceMonitor {
            http_metrics: Vec::new(),
            db_metrics: Vec::new(),
            error_metrics: Vec::new(),
            business_metrics: BusinessMetrics::new(),
            limits,
        };
        proof {
            assert(r@.http =~= Seq::<(Seq<char>, HttpCounters)>::empty());
            assert(r@.db =~= Seq::<(Seq<char>, DatabaseCounters)>::empty());
            assert(r@.errors =~= Seq::<(Seq<char>, ErrorCounters)>::empty());
        }
        r
    }

    /// A monitor with the default limits.
    pub fn new() -> (r: PerformanceMonitor)
        ensures
            r.wf(),
            r@.http == Seq::<(Seq<char>, HttpCounters)>::empty(),
            r@.db == Seq::<(Seq<char>, DatabaseCounters)>::empty(),
            r@.errors == Seq::<(Seq<char>, ErrorCounters)>::empty(),
            r@.business == empty_business_counts(),
            r@.limits.max_data_points == 10000,
            r@.limits.slow_query_threshold_ms == 1000,
            r@.limits.high_response_time_threshold_ms == 5000,
    {
        PerformanceMonitor::with_config(MonitorLimits::default())
    }

    /// Daily active users, uploads, likes, comments, reports and the
    /// moderation backlog.
    pub fn business_counts(&self) -> (r: (u64, u64, u64, u64, u64, u64))
        ensures
            r == (
                self@.business.daily_active_users,
                self@.business.total_uploads,
                self@.business.total_likes,
                self@.business.total_comments,
                self@.business.total_reports,
                self@.business.pending_moderation_queue_size,
            ),
    {
        self.business_metrics.counts()
    }

    /// The request counters of every endpoint, keyed by `method:endpoint`.
    pub fn http_endpoints(&self) -> (r: &Vec<(String, HttpMetrics)>)
        ensures
            r@.map_values(|e: (String, HttpMetrics)| (e.0@, e.1@)) == self@.http,
    {
        &self.http_metrics
    }

    /// The query counters of every query type.
    pub fn query_types(&self) -> (r: &Vec<(String, DatabaseMetrics)>)
        ensures
            r@.map_values(|e: (String, DatabaseMetrics)| (e.0@, e.1@)) == self@.db,
    {
        &self.db_metrics
    }

    /// The error counters of every endpoint, keyed by `method:endpoint`.
    pub fn error_endpoints(&self) -> (r: &Vec<(String, ErrorMetrics)>)
        ensures
            r@.map_values(|e: (String, ErrorMetrics)| (e.0@, e.1@)) == self@.errors,
    {
        &self.error_metrics
    }

    /// The limits.
    pub fn limits(&self) -> (r: MonitorLimits)
        ensures
            r == self@.limits,
    {
        self.limits
    }

    fn count_http(&mut self, key: &String, status_code: u16, duration_ms: u64, concurrent_requests: u32)
        requires
            old(self).wf(),
        ensures
            final(self).wf(),
            final(self)@ == (MonitorView {
                http: update_keyed(
                    old(self)@.http,
                    key@,
                    |m: HttpCounters|
                        http_after(
                            m,
                            status_code,
                            duration_ms,
                            concurrent_requests,
                            old(self)@.limits.max_data_points,
                        ),
                    empty_http_counters(),
                ),
                ..old(self)@
            }),
    {
        let ghost before = self@.http;
        let ghost raw = self.http_metrics@;
        let max = self.limits.max_data_points;
        match find_key(&self.http_metrics, key.as_str()) {
            Some(i) => {
                let (k, mut m) = self.http_metrics.remove(i);
                m.record(status_code, duration_ms, concurrent_requests, max);
                self.http_metrics.insert(i, (k, m));
                proof {
                    assert(before[i as int].0 == key@);
                    let w = choose|j: int| 0 <= j < before.len() && before[j].0 == key@;
                    assert(w == i as int);
                    assert(self@.http =~= before.update(
                        i as int,
                        (key@, http_after(before[i as int].1, status_code, duration_ms, concurrent_requests, max)),
                    ));
                }
            },
            None => {
                let mut m = HttpMetrics::new();
                m.record(status_code, duration_ms, concurrent_requests, max);
                self.http_metrics.push((key.clone(), m));
                proof {
                    assert forall|j: int| 0 <= j < before.len() implies before[j].0 != key@ by {
                        assert(raw[j].0@ != key@);
                    }
                    assert(self@.http =~= before.push(
                        (key@, http_after(empty_http_counters(), status_code, duration_ms, concurrent_requests, max)),
                    ));
                }
            },
        }
        proof {
            assert(self@ =~= (MonitorView {
                http: update_keyed(
                    old(self)@.http,
                    key@,
                    |m: HttpCounters|
                        http_after(
                            m,
                            status_code,
                            duration_ms,
                            concurrent_requests,
                            old(self)@.limits.max_data_points,
                        ),
                    empty_http_counters(),
                ),
                ..old(self)@
            }));
        }
    }

    fn count_error(&mut self, key: &String, status_code: u16, is_critical: bool, now_ms: u64)
        requires
            old(self).wf(),
        ensures
            final(self).wf(),
            final(self)@ == (MonitorView {
                errors: update_keyed(
                    old(self)@.errors,
                    key@,
                    |m: ErrorCounters| error_after(m, status_code, is_critical, now_ms),
                    empty_error_counters(),
                ),
                ..old(self)@
            }),
    {
        let ghost before = self@.errors;
        let ghost raw = self.error_metrics@;
        match find_key(&self.error_metrics, key.as_str()) {
            Some(i) => {
                let (k, mut m) = self.error_metrics.remove(i);
                proof {
                    assert(raw[i as int].1.wf());
                }
                m.record_error(status_code, is_critical, now_ms);
                self.error_metrics.insert(i, (k, m));
                proof {
                    assert(before[i as int].0 == key@);
                    let w = choose|j: int| 0 <= j < before.len() && before[j].0 == key@;
                    assert(w == i as int);
                    assert(self@.errors =~= before.update(
                        i as int,
                        (key@, error_after(before[i as int].1, status_code, is_critical, now_ms)),
                    ));
                    assert forall|j: int| 0 <= j < self.error_metrics@.len() implies (
                    #[trigger] self.error_metrics@[j]).1.wf() by {
                        if j != i {
                            assert(self.error_metrics@[j] == raw[j]);
                        }
                    }
                }
            },
            None => {
                let mut m = ErrorMetrics::new();
                m.record_error(status_code, is_critical, now_ms);
                self.error_metrics.push((key.clone(), m));
                proof {
                    assert forall|j: int| 0 <= j < before.len() implies before[j].0 != key@ by {
                        assert(raw[j].0@ != key@);
                    }
                    assert(self@.errors =~= before.push(
                        (key@, error_after(empty_error_counters(), status_code, is_critical, now_ms)),
                    ));
                    assert forall|j: int| 0 <= j < self.error_metrics@.len() implies (
                    #[trigger] self.error_metrics@[j]).1.wf() by {
                        if j < raw.len() {
                            assert(self.error_metrics@[j] == raw[j]);
                        }
                    }
                }
            },
        }
        proof {
            assert forall|j: int| 0 <= j < self@.errors.len() implies unique_codes(
                #[trigger] self@.errors[j].1.errors_by_status,
            ) by {
                assert(self.error_metrics@[j].1.wf());
            }
            assert(self@ =~= (MonitorView {
                errors: update_keyed(
                    old(self)@.errors,
                    key@,
                    |m: ErrorCounters| error_after(m, status_code, is_critical, now_ms),
                    empty_error_counters(),
                ),
                ..old(self)@
            }));
        }
    }

    fn count_query(&mut self, query_type: &str, duration_ms: u64, success: bool)
        requires
            old(self).wf(),
        ensures
            final(self).wf(),
            final(self)@ == (MonitorView {
                db: update_keyed(
                    old(self)@.db,
                    query_type@,
                    |m: DatabaseCounters|
                        database_after(
                            m,
                            duration_ms,
                            success,
                            old(self)@.limits.slow_query_threshold_ms,
                            old(self)@.limits.max_data_points,
                        ),
                    empty_database_counters(),
                ),
                ..old(self)@
            }),
    {
        let ghost before = self@.db;
        let ghost raw = self.db_metrics@;
        let max = self.limits.max_data_points;
        let slow = self.limits.slow_query_threshold_ms;
        match find_key(&self.db_metrics, query_type) {
            Some(i) => {
                let (k, mut m) = self.db_metrics.remove(i);
                m.record(duration_ms, success, slow, max);
                self.db_metrics.insert(i, (k, m));
                proof {
                    assert(before[i as int].0 == query_type@);
                    let w = choose|j: int| 0 <= j < before.len() && before[j].0 == query_type@;
                    assert(w == i as int);
                    assert(self@.db =~= before.update(
                        i as int,
                        (query_type@, database_after(before[i as int].1, duration_ms, success, slow, max)),
                    ));
                }
            },
            None => {
                let mut m = DatabaseMetrics::new();
                m.record(duration_ms, success, slow, max);
                self.db_metrics.push((query_type.to_string(), m));
                proof {
                    assert forall|j: int| 0 <= j < before.len() implies before[j].0 != query_type@ by {
                        assert(raw[j].0@ != query_type@);
                    }
                    assert(self@.db =~= before.push(
                        (query_type@, database_after(empty_database_counters(), duration_ms, success, slow, max)),
                    ));
                }
            },
        }
        proof {
            assert(self@ =~= (MonitorView {
                db: update_keyed(
                    old(self)@.db,
                    query_type@,
                    |m: DatabaseCounters|
                        database_after(
                            m,
                            duration_ms,
                            success,
                            old(self)@.limits.slow_query_threshold_ms,
                            old(self)@.limits.max_data_points,
                        ),
                    empty_database_counters(),
                ),
                ..old(self)@
            }));
        }
    }

    /// Counts a completed request under `method:endpoint`; a 4xx or 5xx
    /// status is also counted as an error of that key at `now_ms` (5xx as
    /// critical). Returns whether the request took longer than the alert
    /// threshold.
    pub fn record_http_request(
        &mut self,
        endpoint: &str,
        method: &str,
        status_code: u16,
        duration_ms: u64,
        concurrent_requests: u32,
        now_ms: u64,
    ) -> (slow: bool)
        requires
            old(self).wf(),
        ensures
            final(self).wf(),
            slow == (duration_ms > old(self)@.limits.high_response_time_threshold_ms),
            final(self)@.http == update_keyed(
                old(self)@.http,
                method@ + ":"@ + endpoint@,
                |m: HttpCounters|
                    http_after(
                        m,
                        status_code,
                        duration_ms,
                        concurrent_requests,
                        old(self)@.limits.max_data_points,
                    ),
                empty_http_counters(),
            ),
            final(self)@.errors == (if is_error_status(status_code) {
                update_keyed(
                    old(self)@.errors,
                    method@ + ":"@ + endpoint@,
                    |m: ErrorCounters|
                        error_after(m, status_code, is_critical_status(status_code), now_ms),
                    empty_error_counters(),
                )
            } else {
                old(self)@.errors
            }),
            final(self)@.db == old(self)@.db,
            final(self)@.business == old(self)@.business,
            final(self)@.limits == old(self)@.limits,
    {
        let key = crate::metrics::request_key(method, endpoint);
        let should_record_error = 400 <= status_code && status_code <= 599;
        let is_critical_error = 500 <= status_code && status_code <= 599;
        self.count_http(&key, status_code, duration_ms, concurrent_requests);
        if should_record_error {
            self.count_error(&key, status_code, is_critical_error, now_ms);
        }
        duration_ms > self.limits.high_response_time_threshold_ms
    }

    /// Counts a database query of `query_type`.
    pub fn record_database_query(&mut self, query_type: &str, duration_ms: u64, success: bool)
        requires
            old(self).wf(),
        ensures
            final(self).wf(),
            final(self)@.db == update_keyed(
                old(self)@.db,
                query_type@,
                |m: DatabaseCounters|
                    database_after(
                        m,
                        duration_ms,
                        success,
                        old(self)@.limits.slow_query_threshold_ms,
                        old(self)@.limits.max_data_points,
                    ),
                empty_database_counters(),
            ),
            final(self)@.http == old(self)@.http,
            final(self)@.errors == old(self)@.errors,
            final(self)@.business == old(self)@.business,
            final(self)@.limits == old(self)@.limits,
    {
        self.count_query(query_type, duration_ms, success);
    }

    /// Counts a business event.
    pub fn record_business_event(&mut self, event: &BusinessEvent)
        requires
            old(self).wf(),
        ensures
            final(self).wf(),
            final(self)@.business == business_after(old(self)@.business, *event),
            final(self)@.http == old(self)@.http,
            final(self)@.db == old(self)@.db,
            final(self)@.errors == old(self)@.errors,
            final(self)@.limits == old(self)@.limits,
    {
        self.business_metrics.record(event);
    }
}

/// Requests counted over all endpoints.
pub open spec fn http_total_sum(s: Seq<(Seq<char>, HttpCounters)>) -> nat
    decreases s.len(),
{
    if s.len() == 0 {
        0
    } else {
        http_total_sum(s.drop_last()) + s.last().1.total_requests as nat
    }
}

/// Successful requests counted over all endpoints.
pub open spec fn http_success_sum(s: Seq<(Seq<char>, HttpCounters)>) -> nat
    decreases s.len(),
{
    if s.len() == 0 {
        0
    } else {
        http_success_sum(s.drop_last()) + s.last().1.successful_requests as nat
    }
}

/// The latency samples of all endpoints, endpoint after endpoint.
pub open spec fn http_times(s: Seq<(Seq<char>, HttpCounters)>) -> Seq<u64>
    decreases s.len(),
{
    if s.len() == 0 {
        Seq::empty()
    } else {
        http_times(s.drop_last()) + s.last().1.response_times
    }
}

/// The highest concurrency any endpoint last reported, 0 without endpoints.
pub open spec fn max_concurrent(s: Seq<(Seq<char>, HttpCounters)>) -> u32
    decreases s.len(),
{
    if s.len() == 0 {
        0
    } else {
        let m = max_concurrent(s.drop_last());
        let c = s.last().1.concurrent_requests;
        if c > m {
            c
        } else {
            m
        }
    }
}

/// The integer part of the HTTP summary.
#[derive(Debug, Clone, Copy, PartialEq, Eq, Structural)]
pub struct HttpTotals {
    pub total_requests: u64,
    pub successful_requests: u64,
    pub sample_count: usize,
    pub sample_sum: u128,
    pub p50_response_time_ms: u64,
    pub p95_response_time_ms: u64,
    pub p99_response_time_ms: u64,
    pub concurrent_requests: u32,
}

/// The HTTP summary of the counters: totals over all endpoints (stopping
/// at the largest `u64`), the count, exact sum and 50th, 95th and 99th
/// percentiles of all kept latency samples, and the highest concurrency.
pub open spec fn http_totals_of(s: Seq<(Seq<char>, HttpCounters)>) -> HttpTotals {
    let times = http_times(s);
    let sorted = ascending(times);
    HttpTotals {
        total_requests: cap_u64(http_total_sum(s)),
        successful_requests: cap_u64(http_success_sum(s)),
        sample_count: times.len() as usize,
        sample_sum: sample_sum(times) as u128,
        p50_response_time_ms: percentile_of_sorted(sorted, 50),
        p95_response_time_ms: percentile_of_sorted(sorted, 95),
        p99_response_time_ms: percentile_of_sorted(sorted, 99),
        concurrent_requests: max_concurrent(s),
    }
}

/// Queries counted over all query types.
pub open spec fn db_total_sum(s: Seq<(Seq<char>, DatabaseCounters)>) -> nat
    decreases s.len(),
{
    if s.len() == 0 {
        0
    } else {
        db_total_sum(s.drop_last()) + s.last().1.total_queries as nat
    }
}

/// Successful queries counted over all query types.
pub open spec fn db_success_sum(s: Seq<(Seq<char>, DatabaseCounters)>) -> nat
    decreases s.len(),
{
    if s.len() == 0 {
        0
    } else {
        db_success_sum(s.drop_last()) + s.last().1.successful_queries as nat
    }
}

/// Slow queries counted over all query types.
pub open spec fn db_slow_sum(s: Seq<(Seq<char>, DatabaseCounters)>) -> nat
    decreases s.len(),
{
    if s.len() == 0 {
        0
    } else {
        db_slow_sum(s.drop_last()) + s.last().1.slow_queries as nat
    }
}

/// The execution times of all query types, one type after another.
pub open spec fn db_times(s: Seq<(Seq<char>, DatabaseCounters)>) -> Seq<u64>
    decreases s.len(),
{
    if s.len() == 0 {
        Seq::empty()
    } else {
        db_times(s.drop_last()) + s.last().1.execution_times
    }
}

/// The integer part of the database summary.
#[derive(Debug, Clone, Copy, PartialEq, Eq, Structural)]
pub struct DatabaseTotals {
    pub total_queries: u64,
    pub successful_queries: u64,
    pub slow_query_count: u64,
    pub sample_count: usize,
    pub sample_sum: u128,
    pub p95_execution_time_ms: u64,
}

/// The database summary of the counters: totals over all query types
/// (stopping at the largest `u64`) and the count, exact sum and 95th
/// percentile of all kept execution times.
pub open spec fn db_totals_of(s: Seq<(Seq<char>, DatabaseCounters)>) -> DatabaseTotals {
    let times = db_times(s);
    DatabaseTotals {
        total_queries: cap_u64(db_total_sum(s)),
        successful_queries: cap_u64(db_success_sum(s)),
        slow_query_count: cap_u64(db_slow_sum(s)),
        sample_count: times.len() as usize,
        sample_sum: sample_sum(times) as u128,
        p95_execution_time_ms: percentile_of_sorted(ascending(times), 95),
    }
}

fn append_samples(all: &mut Vec<u64>, times: &Vec<u64>)
    ensures
        final(all)@ == old(all)@ + times@,
{
    let mut j: usize = 0;
    while j < times.len()
        invariant
            j <= times.len(),
            all@ == old(all)@ + times@.subrange(0, j as int),
        decreases times.len() - j,
    {
        all.push(times[j]);
        proof {
            assert(old(all)@ + times@.subrange(0, j + 1) =~= (old(all)@ + times@.subrange(
                0,
                j as int,
            )).push(times@[j as int]));
        }
        j = j + 1;
    }
    proof {
        assert(times@.subrange(0, times@.len() as int) =~= times@);
    }
}

impl PerformanceMonitor {
    /// The HTTP summary: totals over all endpoints, latency statistics and
    /// the highest concurrency.
    pub fn calculate_http_summary(&self) -> (r: HttpTotals)
        ensures
            r == http_totals_of(self@.http),
    {
        let ghost h = self@.http;
        let mut total: u64 = 0;
        let mut successful: u64 = 0;
        let mut concurrent: u32 = 0;
        let mut all: Vec<u64> = Vec::new();
        let mut i: usize = 0;
        while i < self.http_metrics.len()
            invariant
                h == self@.http,
                i <= self.http_metrics.len(),
                total == cap_u64(http_total_sum(h.subrange(0, i as int))),
                successful == cap_u64(http_success_sum(h.subrange(0, i as int))),
                concurrent == max_concurrent(h.subrange(0, i as int)),
                all@ == http_times(h.subrange(0, i as int)),
            decreases self.http_metrics.len() - i,
        {
            let m = &self.http_metrics[i].1;
            proof {
                assert(h.subrange(0, i + 1).drop_last() =~= h.subrange(0, i as int));
                assert(h[i as int].1 == m@);
            }
            let (t, ok, _, _) = m.counts();
            total = total.saturating_add(t);
            successful = successful.saturating_add(ok);
            let c = m.concurrent_requests();
            if c > concurrent {
                concurrent = c;
            }
            append_samples(&mut all, m.response_times());
            i = i + 1;
        }
        proof {
            assert(h.subrange(0, h.len() as int) =~= h);
        }
        let sum = sum_samples(&all);
        let sorted = sort_ascending(&all);
        HttpTotals {
            total_requests: total,
            successful_requests: successful,
            sample_count: all.len(),
            sample_sum: sum,
            p50_response_time_ms: calculate_percentile(sorted.as_slice(), 50),
            p95_response_time_ms: calculate_percentile(sorted.as_slice(), 95),
            p99_response_time_ms: calculate_percentile(sorted.as_slice(), 99),
            concurrent_requests: concurrent,
        }
    }

    /// The database summary: totals over all query types and execution
    /// time statistics.
    pub fn calculate_database_summary(&self) -> (r: DatabaseTotals)
        ensures
            r == db_totals_of(self@.db),
    {
        let ghost d = self@.db;
        let mut total: u64 = 0;
        let mut successful: u64 = 0;
        let mut slow: u64 = 0;
        let mut all: Vec<u64> = Vec::new();
        let mut i: usize = 0;
        while i < self.db_metrics.len()
            invariant
                d == self@.db,
                i <= self.db_metrics.len(),
                total == cap_u64(db_total_sum(d.subrange(0, i as int))),
                successful == cap_u64(db_success_sum(d.subrange(0, i as int))),
                slow == cap_u64(db_slow_sum(d.subrange(0, i as int))),
                all@ == db_times(d.subrange(0, i as int)),
            decreases self.db_metrics.len() - i,
        {
            let m = &self.db_metrics[i].1;
            proof {
                assert(d.subrange(0, i + 1).drop_last() =~= d.subrange(0, i as int));
                assert(d[i as int].1 == m@);
            }
            let (t, ok, _, sl) = m.counts();
            total = total.saturating_add(t);
            successful = successful.saturating_add(ok);
            slow = slow.saturating_add(sl);
            append_samples(&mut all, m.execution_times());
            i = i + 1;
        }
        proof {
            assert(d.subrange(0, d.len() as int) =~= d);
        }
        let sum = sum_samples(&all);
        let sorted = sort_ascending(&all);
        DatabaseTotals {
            total_queries: total,
            successful_queries: successful,
            slow_query_count: slow,
            sample_count: all.len(),
            sample_sum: sum,
            p95_execution_time_ms: calculate_percentile(sorted.as_slice(), 95),
        }
    }
}

/// `acc` with the counts of `more` added, code by code.
pub open spec fn merge_codes(acc: Seq<(u16, u64)>, more: Seq<(u16, u64)>) -> Seq<(u16, u64)>
    decreases more.len(),
{
    if more.len() == 0 {
        acc
    } else {
        add_status(merge_codes(acc, more.drop_last()), more.last().0, more.last().1)
    }
}

/// The counts per status code over all endpoints.
pub open spec fn merged_error_codes(s: Seq<(Seq<char>, ErrorCounters)>) -> Seq<(u16, u64)>
    decreases s.len(),
{
    if s.len() == 0 {
        Seq::empty()
    } else {
        merge_codes(merged_error_codes(s.drop_last()), s.last().1.errors_by_status)
    }
}

/// Errors counted over all endpoints.
pub open spec fn error_total_sum(s: Seq<(Seq<char>, ErrorCounters)>) -> nat
    decreases s.len(),
{
    if s.len() == 0 {
        0
    } else {
        error_total_sum(s.drop_last()) + s.last().1.total_errors as nat
    }
}

/// Critical errors counted over all endpoints.
pub open spec fn critical_sum(s: Seq<(Seq<char>, ErrorCounters)>) -> nat
    decreases s.len(),
{
    if s.len() == 0 {
        0
    } else {
        critical_sum(s.drop_last()) + s.last().1.critical_errors as nat
    }
}

/// How an error type is named: `HTTP ` and the status code.
pub open spec fn error_type_name(code: u16) -> Seq<char> {
    "HTTP "@ + crate::text::decimal(code as nat)
}

/// `top` names the first (at most five) codes of `ranked`, with their
/// counts.
pub open spec fn names_top_five(top: Seq<(Seq<char>, u64)>, ranked: Seq<(u16, u64)>) -> bool {
    &&& top.len() == (if ranked.len() < 5 { ranked.len() } else { 5 })
    &&& forall|i: int|
        0 <= i < top.len() ==> #[trigger] top[i] == (error_type_name(ranked[i].0), ranked[i].1)
}

/// The integer part of the error summary.
pub struct ErrorTotals {
    pub total_errors: u64,
    pub critical_errors: u64,
    pub top_error_types: Vec<(String, u64)>,
}

fn merge_codes_exec(acc: &mut Vec<(u16, u64)>, more: &Vec<(u16, u64)>)
    requires
        unique_codes(old(acc)@),
    ensures
        unique_codes(final(acc)@),
        final(acc)@ == merge_codes(old(acc)@, more@),
{
    let mut j: usize = 0;
    while j < more.len()
        invariant
            j <= more.len(),
            unique_codes(acc@),
            acc@ == merge_codes(old(acc)@, more@.subrange(0, j as int)),
        decreases more.len() - j,
    {
        proof {
            let nxt = more@.subrange(0, j + 1);
            assert(nxt.drop_last() =~= more@.subrange(0, j as int));
            assert(nxt.last() == more@[j as int]);
        }
        let (code, n) = more[j];
        add_status_exec(acc, code, n);
        j = j + 1;
    }
    proof {
        assert(more@.subrange(0, more@.len() as int) =~= more@);
    }
}

fn error_type_label(code: u16) -> (r: String)
    ensures
        r@ == error_type_name(code),
{
    let mut s = String::from_str("HTTP ");
    let digits = crate::text::usize_to_decimal(code as usize);
    s.append(digits.as_str());
    s
}

impl PerformanceMonitor {
    /// The error summary: totals over all endpoints (stopping at the largest
    /// `u64`) and the five status codes with the most errors over all
    /// endpoints, most first (codes with equal counts in either order).
    pub fn calculate_error_summary(&self) -> (r: ErrorTotals)
        requires
            self.wf(),
        ensures
            r.total_errors == cap_u64(error_total_sum(self@.errors)),
            r.critical_errors == cap_u64(critical_sum(self@.errors)),
            exists|ranked: Seq<(u16, u64)>|
                by_count_descending(ranked) && ranked.to_multiset() == merged_error_codes(
                    self@.errors,
                ).to_multiset() && names_top_five(
                    r.top_error_types@.map_values(|e: (String, u64)| (e.0@, e.1)),
                    ranked,
                ),
    {
        let ghost e = self@.errors;
        let mut total: u64 = 0;
        let mut critical: u64 = 0;
        let mut merged: Vec<(u16, u64)> = Vec::new();
        let mut i: usize = 0;
        while i < self.error_metrics.len()
            invariant
                e == self@.errors,
                i <= self.error_metrics.len(),
                total == cap_u64(error_total_sum(e.subrange(0, i as int))),
                critical == cap_u64(critical_sum(e.subrange(0, i as int))),
                merged@ == merged_error_codes(e.subrange(0, i as int)),
                unique_codes(merged@),
            decreases self.error_metrics.len() - i,
        {
            let m = &self.error_metrics[i].1;
            proof {
                assert(e.subrange(0, i + 1).drop_last() =~= e.subrange(0, i as int));
                assert(e[i as int].1 == m@);
            }
            let (t, c) = m.counts();
            total = total.saturating_add(t);
            critical = critical.saturating_add(c);
            merge_codes_exec(&mut merged, m.errors_by_status());
            i = i + 1;
        }
        proof {
            assert(e.subrange(0, e.len() as int) =~= e);
        }
        let ranked = sort_by_count_descending(&merged);
        let mut top: Vec<(String, u64)> = Vec::new();
        let mut k: usize = 0;
        while k < ranked.len() && k < 5
            invariant
                k <= ranked.len(),
                k <= 5,
                top@.len() == k,
                forall|j: int|
                    0 <= j < k ==> (#[trigger] top@[j]).0@ == error_type_name(ranked@[j].0)
                        && top@[j].1 == ranked@[j].1,
            decreases ranked.len() - k,
        {
            let (code, n) = ranked[k];
            top.push((error_type_label(code), n));
            k = k + 1;
        }
        let r = ErrorTotals { total_errors: total, critical_errors: critical, top_error_types: top };
        proof {
            let v = r.top_error_types@.map_values(|e: (String, u64)| (e.0@, e.1));
            assert forall|j: int| 0 <= j < v.len() implies #[trigger] v[j] == (
            error_type_name(ranked@[j].0), ranked@[j].1) by {
                assert(top@[j].0@ == error_type_name(ranked@[j].0));
            }
            assert(names_top_five(v, ranked@));
        }
        r
    }

    /// Each endpoint's counts per status code, most first.
    pub fn get_error_breakdown(&self) -> (r: Vec<(String, Vec<(u16, u64)>)>)
        ensures
            r@.len() == self@.errors.len(),
            forall|i: int|
                0 <= i < r@.len() ==> (#[trigger] r@[i]).0@ == self@.errors[i].0
                    && by_count_descending(r@[i].1@) && r@[i].1@.to_multiset()
                    == self@.errors[i].1.errors_by_status.to_multiset(),
    {
        let mut r: Vec<(String, Vec<(u16, u64)>)> = Vec::new();
        let mut i: usize = 0;
        while i < self.error_metrics.len()
            invariant
                i <= self.error_metrics.len(),
                r@.len() == i,
                forall|j: int|
                    0 <= j < i ==> (#[trigger] r@[j]).0@ == self@.errors[j].0
                        && by_count_descending(r@[j].1@) && r@[j].1@.to_multiset()
                        == self@.errors[j].1.errors_by_status.to_multiset(),
            decreases self.error_metrics.len() - i,
        {
            let key = self.error_metrics[i].0.clone();
            let breakdown = self.error_metrics[i].1.error_breakdown();
            r.push((key, breakdown));
            i = i + 1;
        }
        r
    }

    /// Whole seconds since the latest error recorded for `endpoint`, by any
    /// method, if one was recorded (none when the clock reads earlier).
    pub fn get_time_since_last_error(&self, endpoint: &str, now_ms: u64) -> (r: Option<u64>)
        requires
            self.wf(),
        ensures
            r == (match latest_error_ms(self@.errors, endpoint@) {
                Some(t) => Some((if now_ms >= t { (now_ms - t) as u64 } else { 0u64 }) / 1000),
                None => None,
            }),
    {
        let ep = to_chars(endpoint);
        let mut latest: Option<u64> = None;
        let mut i: usize = 0;
        while i < self.error_metrics.len()
            invariant
                i <= self.error_metrics@.len(),
                self@.errors.len() == self.error_metrics@.len(),
                ep@ == endpoint@,
                latest == latest_error_ms(self@.errors.take(i as int), endpoint@),
            decreases self.error_metrics.len() - i,
        {
            proof {
                assert(self@.errors.take(i + 1).drop_last() =~= self@.errors.take(i as int));
                assert(self@.errors[i as int].0 == self.error_metrics@[i as int].0@);
                assert(self@.errors[i as int].1 == self.error_metrics@[i as int].1@);
            }
            let key = to_chars(self.error_metrics[i].0.as_str());
            if key_names_endpoint(&key, &ep) {
                latest = later_time(latest, self.error_metrics[i].1.last_error_ms);
            }
            i = i + 1;
        }
        proof {
            assert(self@.errors.take(self.error_metrics@.len() as int) =~= self@.errors);
        }
        match latest {
            Some(t) => {
                let elapsed: u64 = if now_ms >= t { now_ms - t } else { 0 };
                Some(elapsed / 1000)
            },
            None => None,
        }
    }
}

/// `key` is a `method:endpoint` key for `endpoint`: a method without a
/// colon, a colon, then exactly `endpoint`.
pub open spec fn names_endpoint(key: Seq<char>, endpoint: Seq<char>) -> bool {
    let k = key.len() - endpoint.len() - 1;
    &&& endpoint.len() < key.len()
    &&& key[k] == ':'
    &&& key.subrange(k + 1, key.len() as int) == endpoint
    &&& forall|j: int| 0 <= j < k ==> key[j] != ':'
}

/// The later of two optional times.
pub open spec fn later(a: Option<u64>, b: Option<u64>) -> Option<u64> {
    match (a, b) {
        (Some(x), Some(y)) => Some(if x >= y { x } else { y }),
        (Some(x), None) => Some(x),
        (None, y) => y,
    }
}

/// The latest error time recorded under any key for `endpoint`.
pub open spec fn latest_error_ms(errors: Seq<(Seq<char>, ErrorCounters)>, endpoint: Seq<char>) -> Option<u64>
    decreases errors.len(),
{
    if errors.len() == 0 {
        None
    } else {
        let rest = latest_error_ms(errors.drop_last(), endpoint);
        if names_endpoint(errors.last().0, endpoint) {
            later(rest, errors.last().1.last_error_ms)
        } else {
            rest
        }
    }
}

fn later_time(a: Option<u64>, b: Option<u64>) -> (r: Option<u64>)
    ensures
        r == later(a, b),
{
    match (a, b) {
        (Some(x), Some(y)) => Some(if x >= y { x } else { y }),
        (Some(x), None) => Some(x),
        (None, y) => y,
    }
}

fn key_names_endpoint(key: &Vec<char>, endpoint: &Vec<char>) -> (r: bool)
    ensures
        r == names_endpoint(key@, endpoint@),
{
    if endpoint.len() >= key.len() {
        return false;
    }
    let k: usize = key.len() - endpoint.len() - 1;
    if key[k] != ':' {
        return false;
    }
    if !occurs_at_exec(key, endpoint, k + 1) {
        return false;
    }
    let mut j: usize = 0;
    while j < k
        invariant
            j <= k,
            k < key.len(),
            k == key@.len() - endpoint@.len() - 1,
            forall|m: int| 0 <= m < j ==> key@[m] != ':',
        decreases k - j,
    {
        if key[j] == ':' {
            proof {
                let kk: int = key@.len() - endpoint@.len() - 1;
                assert(0 <= j < kk && key@[j as int] == ':');
            }
            return false;
        }
        j = j + 1;
    }
    true
}

/// A window never keeps more than `max_data_points` samples, and (when it
/// keeps at least 100) the newest sample is always kept.
pub proof fn lemma_window_bounded(times: Seq<u64>, sample: u64, max_data_points: usize)
    requires
        times.len() <= max_data_points,
        max_data_points >= 99,
    ensures
        push_window(times, sample, max_data_points).len() <= max_data_points,
        max_data_points >= 100 ==> push_window(times, sample, max_data_points).last() == sample,
{
}

/// Every request is counted once more in total over all endpoints, as long
/// as the endpoint's own count has room to grow.
pub proof fn lemma_http_counted_once(
    s: Seq<(Seq<char>, HttpCounters)>,
    key: Seq<char>,
    status_code: u16,
    duration_ms: u64,
    concurrent_requests: u32,
    max_data_points: usize,
)
    requires
        keys_unique(s),
        forall|i: int| 0 <= i < s.len() && s[i].0 == key ==> s[i].1.total_requests < u64::MAX,
    ensures
        http_total_sum(
            update_keyed(
                s,
                key,
                |m: HttpCounters|
                    http_after(m, status_code, duration_ms, concurrent_requests, max_data_points),
                empty_http_counters(),
            ),
        ) == http_total_sum(s) + 1,
{
    let f = |m: HttpCounters|
        http_after(m, status_code, duration_ms, concurrent_requests, max_data_points);
    if exists|i: int| 0 <= i < s.len() && s[i].0 == key {
        let i = choose|i: int| 0 <= i < s.len() && s[i].0 == key;
        assert(s[i].1.total_requests < u64::MAX);
        lemma_http_sum_update(s, i, (key, f(s[i].1)));
    } else {
        assert(s.push((key, f(empty_http_counters()))).drop_last() =~= s);
    }
}

proof fn lemma_http_sum_update(s: Seq<(Seq<char>, HttpCounters)>, i: int, v: (Seq<char>, HttpCounters))
    requires
        0 <= i < s.len(),
    ensures
        http_total_sum(s.update(i, v)) + s[i].1.total_requests == http_total_sum(s)
            + v.1.total_requests,
    decreases s.len(),
{
    let u = s.update(i, v);
    if i == s.len() - 1 {
        assert(u.drop_last() =~= s.drop_last());
    } else {
        assert(u.drop_last() =~= s.drop_last().update(i, v));
        lemma_http_sum_update(s.drop_last(), i, v);
    }
}

impl PerformanceMonitor {
    /// Trims every endpoint's and every query type's window to its newest
    /// `max_data_points` samples.
    pub fn cleanup_old_metrics(&mut self)
        requires
            old(self).wf(),
        ensures
            final(self).wf(),
            final(self)@.http.len() == old(self)@.http.len(),
            forall|i: int|
                0 <= i < old(self)@.http.len() ==> #[trigger] final(self)@.http[i] == (
                old(self)@.http[i].0,
                HttpCounters {
                    response_times: latest(
                        old(self)@.http[i].1.response_times,
                        old(self)@.limits.max_data_points,
                    ),
                    ..old(self)@.http[i].1
                },
            ),
            final(self)@.db.len() == old(self)@.db.len(),
            forall|i: int|
                0 <= i < old(self)@.db.len() ==> #[trigger] final(self)@.db[i] == (
                old(self)@.db[i].0,
                DatabaseCounters {
                    execution_times: latest(
                        old(self)@.db[i].1.execution_times,
                        old(self)@.limits.max_data_points,
                    ),
                    ..old(self)@.db[i].1
                },
            ),
            final(self)@.errors == old(self)@.errors,
            final(self)@.business == old(self)@.business,
            final(self)@.limits == old(self)@.limits,
    {
        let max = self.limits.max_data_points;
        let ghost h0 = self@.http;
        let ghost d0 = self@.db;
        let mut i: usize = 0;
        while i < self.http_metrics.len()
            invariant
                self.wf(),
                max == self.limits.max_data_points,
                self@.limits == old(self)@.limits,
                self@.db == d0,
                self@.errors == old(self)@.errors,
                self@.business == old(self)@.business,
                h0 == old(self)@.http,
                d0 == old(self)@.db,
                i <= self.http_metrics.len(),
                self@.http.len() == h0.len(),
                forall|j: int| i <= j < h0.len() ==> #[trigger] self@.http[j] == h0[j],
                forall|j: int|
                    0 <= j < i ==> #[trigger] self@.http[j] == (
                    h0[j].0,
                    HttpCounters { response_times: latest(h0[j].1.response_times, max), ..h0[j].1 },
                ),
            decreases self.http_metrics.len() - i,
        {
            let ghost before = self@.http;
            let ghost raw = self.http_metrics@;
            let (k, mut m) = self.http_metrics.remove(i);
            let ghost m0 = m@;
            m.keep_latest(max);
            self.http_metrics.insert(i, (k, m));
            proof {
                assert(self.http_metrics@ =~= raw.update(i as int, (k, m)));
                assert(m0 == before[i as int].1);
                assert(self@.http[i as int] == (k@, m@));
                assert forall|q: int| 0 <= q < before.len() && q != i implies #[trigger] self@.http[q]
                    == before[q] by {
                    assert(self.http_metrics@[q] == raw[q]);
                }
                assert forall|q: int| i + 1 <= q < h0.len() implies #[trigger] self@.http[q] == h0[q] by {
                    assert(self@.http[q] == before[q]);
                }
                assert forall|q: int| 0 <= q < i + 1 implies #[trigger] self@.http[q] == (
                    h0[q].0,
                    HttpCounters { response_times: latest(h0[q].1.response_times, max), ..h0[q].1 },
                ) by {
                    if q < i {
                        assert(self@.http[q] == before[q]);
                    } else {
                        assert(before[q] == h0[q]);
                    }
                }
                assert(self@.http.len() == before.len());
                assert forall|a: int, b: int| 0 <= a < b < self@.http.len() implies self@.http[a].0
                    != self@.http[b].0 by {
                    assert(self@.http[a].0 == before[a].0);
                    assert(self@.http[b].0 == before[b].0);
                }
            }
            i = i + 1;
        }
        let mut j: usize = 0;
        while j < self.db_metrics.len()
            invariant
                self.wf(),
                max == self.limits.max_data_points,
                self@.limits == old(self)@.limits,
                self@.errors == old(self)@.errors,
                self@.business == old(self)@.business,
                d0 == old(self)@.db,
                h0 == old(self)@.http,
                self@.http.len() == h0.len(),
                forall|k: int|
                    0 <= k < h0.len() ==> #[trigger] self@.http[k] == (
                    h0[k].0,
                    HttpCounters { response_times: latest(h0[k].1.response_times, max), ..h0[k].1 },
                ),
                j <= self.db_metrics.len(),
                self@.db.len() == d0.len(),
                forall|k: int| j <= k < d0.len() ==> #[trigger] self@.db[k] == d0[k],
                forall|k: int|
                    0 <= k < j ==> #[trigger] self@.db[k] == (
                    d0[k].0,
                    DatabaseCounters { execution_times: latest(d0[k].1.execution_times, max), ..d0[k].1 },
                ),
            decreases self.db_metrics.len() - j,
        {
            let ghost before = self@.db;
            let ghost raw = self.db_metrics@;
            let (k, mut m) = self.db_metrics.remove(j);
            let ghost m0 = m@;
            m.keep_latest(max);
            self.db_metrics.insert(j, (k, m));
            proof {
                assert(self.db_metrics@ =~= raw.update(j as int, (k, m)));
                assert(m0 == before[j as int].1);
                assert(self@.db[j as int] == (k@, m@));
                assert forall|q: int| 0 <= q < before.len() && q != j implies #[trigger] self@.db[q]
                    == before[q] by {
                    assert(self.db_metrics@[q] == raw[q]);
                }
                assert forall|q: int| j + 1 <= q < d0.len() implies #[trigger] self@.db[q] == d0[q] by {
                    assert(self@.db[q] == before[q]);
                }
                assert forall|q: int| 0 <= q < j + 1 implies #[trigger] self@.db[q] == (
                    d0[q].0,
                    DatabaseCounters { execution_times: latest(d0[q].1.execution_times, max), ..d0[q].1 },
                ) by {
                    if q < j {
                        assert(self@.db[q] == before[q]);
                    } else {
                        assert(before[q] == d0[q]);
                    }
                }
                assert(self@.db.len() == before.len());
                assert forall|a: int, b: int| 0 <= a < b < self@.db.len() implies self@.db[a].0
                    != self@.db[b].0 by {
                    assert(self@.db[a].0 == before[a].0);
                    assert(self@.db[b].0 == before[b].0);
                }
            }
            j = j + 1;
        }
    }
}
/// An engagement raises exactly its own counter by one (staying at the
/// largest value once there): a like the likes, a comment the comments, a
/// report the reports. No other counter changes.
pub proof fn lemma_engagement_counts(b: BusinessCounts, engagement_type: EngagementType)
    ensures
        ({
            let a = business_after(b, BusinessEvent::UserEngagement { engagement_type });
            let up = |n: u64| if n < u64::MAX { (n + 1) as u64 } else { n };
            &&& a.total_likes == (if engagement_type is Like { up(b.total_likes) } else { b.total_likes })
            &&& a.total_comments == (if engagement_type is Comment {
                up(b.total_comments)
            } else {
                b.total_comments
            })
            &&& a.total_reports == (if engagement_type is Report {
                up(b.total_reports)
            } else {
                b.total_reports
            })
        }),
        ({
            let a = business_after(b, BusinessEvent::UserEngagement { engagement_type });
            &&& a.daily_active_users == b.daily_active_users
            &&& a.total_uploads == b.total_uploads
            &&& a.uploads_by_country == b.uploads_by_country
            &&& a.pending_moderation_queue_size == b.pending_moderation_queue_size
        }),
{
}

} // verus!
