//! Request and business counters of the metrics service: per-endpoint
//! request counts by status class with a bounded window of latency
//! samples, business event counters, and the integer part of the HTTP
//! summary (totals and latency percentiles).
use vstd::prelude::*;
use crate::stats::{
    StatusClass,
    status_class,
    classify_status,
    ascending,
    sort_ascending,
    calculate_percentile,
    percentile_of_sorted,
    drop_oldest,
    find_key,
};

verus! {

/// Supported metric types for proper aggregation strategies.
#[derive(Debug, Clone, Copy, PartialEq, Eq, Structural)]
pub enum MetricType {
    /// Monotonically increasing counter.
    Counter,
    /// Value that can increase or decrease.
    Gauge,
    /// Duration measurements with percentile calculations.
    Histogram,
    /// Rate of events over time windows.
    Rate,
}

/// Service health status levels.
#[derive(Debug, Clone, Copy, PartialEq, Eq, Structural)]
pub enum HealthStatus {
    /// All systems operating normally.
    Healthy,
    /// Minor issues present, service functional.
    Degraded,
    /// Significant issues affecting functionality.
    Unhealthy,
    /// Service unavailable or critically impaired.
    Critical,
}

/// Types of user engagement for analytics tracking.
#[derive(Debug, Clone, Copy, PartialEq, Eq, Structural)]
pub enum EngagementType {
    Like,
    Comment,
    Report,
}

/// Business events that can be tracked for product analytics. A user is
/// named by the 128 bits of its id.
#[derive(Debug, Clone)]
pub enum BusinessEvent {
    UserActivity { user_id: u128 },
    LetteringUploaded { country_code: String },
    LetteringApproved,
    UserEngagement { engagement_type: EngagementType },
    ModerationCompleted,
    DuplicateDetected,
}

/// Overall service health indicators.
#[derive(Debug, Clone, Copy, PartialEq, Eq, Structural)]
pub struct HealthIndicators {
    pub overall_health: HealthStatus,
    pub database_health: HealthStatus,
    pub redis_health: HealthStatus,
    pub storage_health: HealthStatus,
    pub ml_service_health: HealthStatus,
    pub critical_errors_24h: u64,
}

/// The health indicators: every component is reported healthy and no
/// critical error is counted.
pub fn calculate_health_indicators() -> (r: HealthIndicators)
    ensures
        r == (HealthIndicators {
            overall_health: HealthStatus::Healthy,
            database_health: HealthStatus::Healthy,
            redis_health: HealthStatus::Healthy,
            storage_health: HealthStatus::Healthy,
            ml_service_health: HealthStatus::Healthy,
            critical_errors_24h: 0,
        }),
{
    HealthIndicators {
        overall_health: HealthStatus::Healthy,
        database_health: HealthStatus::Healthy,
        redis_health: HealthStatus::Healthy,
        storage_health: HealthStatus::Healthy,
        ml_service_health: HealthStatus::Healthy,
        critical_errors_24h: 0,
    }
}

/// The most latency samples an endpoint keeps.
pub const MAX_RESPONSE_SAMPLES: usize = 10000;

/// How many of the oldest samples go when the window overflows.
pub const SAMPLES_DROPPED: usize = 1000;

/// Counters of one endpoint.
pub struct RequestMetrics {
    total_requests: u64,
    successful_requests: u64,
    client_errors: u64,
    server_errors: u64,
    response_times: Vec<u64>,
}

/// The counters of one endpoint as the caller sees them.
#[verifier::ext_equal]
pub struct RequestCounts {
    pub total_requests: u64,
    pub successful_requests: u64,
    pub client_errors: u64,
    pub server_errors: u64,
    pub response_times: Seq<u64>,
}

impl View for RequestMetrics {
    type V = RequestCounts;

    closed spec fn view(&self) -> RequestCounts {
        RequestCounts {
            total_requests: self.total_requests,
            successful_requests: self.successful_requests,
            client_errors: self.client_errors,
            server_errors: self.server_errors,
            response_times: self.response_times@,
        }
    }
}

/// No counts and no samples.
pub open spec fn empty_counts() -> RequestCounts {
    RequestCounts {
        total_requests: 0,
        successful_requests: 0,
        client_errors: 0,
        server_errors: 0,
        response_times: Seq::empty(),
    }
}

/// The sample window after one more sample: when it then holds more than
/// `MAX_RESPONSE_SAMPLES`, the `SAMPLES_DROPPED` oldest go.
pub open spec fn push_sample(times: Seq<u64>, duration_ms: u64) -> Seq<u64> {
    let t = times.push(duration_ms);
    if t.len() > MAX_RESPONSE_SAMPLES {
        t.subrange(SAMPLES_DROPPED as int, t.len() as int)
    } else {
        t
    }
}

/// The counters after one request: one more in total and one more in the
/// status's class (counters stop at their maximum), and the latency kept.
pub open spec fn record_request_spec(m: RequestCounts, status_code: u16, duration_ms: u64) -> RequestCounts {
    let class = status_class(status_code);
    RequestCounts {
        total_requests: m.total_requests.saturating_add(1),
        successful_requests: if class == StatusClass::Success {
            m.successful_requests.saturating_add(1)
        } else {
            m.successful_requests
        },
        client_errors: if class == StatusClass::ClientError {
            m.client_errors.saturating_add(1)
        } else {
            m.client_errors
        },
        server_errors: if class == StatusClass::ServerError {
            m.server_errors.saturating_add(1)
        } else {
            m.server_errors
        },
        response_times: push_sample(m.response_times, duration_ms),
    }
}

impl RequestMetrics {
    /// An endpoint with no requests yet.
    pub fn new() -> (r: RequestMetrics)
        ensures
            r@ == empty_counts(),
    {
        let r = RequestMetrics {
            total_requests: 0,
            successful_requests: 0,
            client_errors: 0,
            server_errors: 0,
            response_times: Vec::new(),
        };
        proof {
            assert(r@ =~= empty_counts());
        }
        r
    }

    /// Counts one request with its status and latency.
    pub fn record(&mut self, status_code: u16, duration_ms: u64)
        ensures
            final(self)@ == record_request_spec(old(self)@, status_code, duration_ms),
    {
        self.total_requests = self.total_requests.saturating_add(1);
        self.response_times.push(duration_ms);
        match classify_status(status_code) {
            StatusClass::Success => {
                self.successful_requests = self.successful_requests.saturating_add(1);
            },
            StatusClass::ClientError => {
                self.client_errors = self.client_errors.saturating_add(1);
            },
            StatusClass::ServerError => {
                self.server_errors = self.server_errors.saturating_add(1);
            },
            StatusClass::Other => {},
        }
        if self.response_times.len() > MAX_RESPONSE_SAMPLES {
            drop_oldest(&mut self.response_times, SAMPLES_DROPPED);
        }
        proof {
            assert(self@ =~= record_request_spec(old(self)@, status_code, duration_ms));
        }
    }

    /// The counters.
    pub fn counts(&self) -> (r: (u64, u64, u64, u64))
        ensures
            r == (self@.total_requests, self@.successful_requests, self@.client_errors, self@.server_errors),
    {
        (self.total_requests, self.successful_requests, self.client_errors, self.server_errors)
    }

    /// The kept latency samples, oldest first.
    pub fn response_times(&self) -> (r: &Vec<u64>)
        ensures
            r@ == self@.response_times,
    {
        &self.response_times
    }
}

/// Business counters for product analytics.
#[derive(Debug, Clone, Copy, PartialEq, Eq, Structural)]
pub struct BusinessCounters {
    pub daily_active_users: u64,
    pub total_uploads: u64,
    pub total_likes: u64,
    pub total_comments: u64,
    pub total_reports: u64,
}

/// The counters after an event: activity, uploads and each kind of
/// engagement count one more (stopping at their maximum); approvals,
/// completed moderations and duplicates change no counter.
pub open spec fn business_after(b: BusinessCounters, event: BusinessEvent) -> BusinessCounters {
    match event {
        BusinessEvent::UserActivity { .. } => BusinessCounters {
            daily_active_users: b.daily_active_users.saturating_add(1),
            ..b
        },
        BusinessEvent::LetteringUploaded { .. } => BusinessCounters {
            total_uploads: b.total_uploads.saturating_add(1),
            ..b
        },
        BusinessEvent::UserEngagement { engagement_type } => match engagement_type {
            EngagementType::Like => BusinessCounters {
                total_likes: b.total_likes.saturating_add(1),
                ..b
            },
            EngagementType::Comment => BusinessCounters {
                total_comments: b.total_comments.saturating_add(1),
                ..b
            },
            EngagementType::Report => BusinessCounters {
                total_reports: b.total_reports.saturating_add(1),
                ..b
            },
        },
        _ => b,
    }
}

impl BusinessCounters {
    /// All counters at zero.
    pub fn new() -> (r: BusinessCounters)
        ensures
            r == (BusinessCounters {
                daily_active_users: 0,
                total_uploads: 0,
                total_likes: 0,
                total_comments: 0,
                total_reports: 0,
            }),
    {
        BusinessCounters {
            daily_active_users: 0,
            total_uploads: 0,
            total_likes: 0,
            total_comments: 0,
            total_reports: 0,
        }
    }

    /// Counts a business event.
    pub fn record(&mut self, event: &BusinessEvent)
        ensures
            *final(self) == business_after(*old(self), *event),
    {
        match event {
            BusinessEvent::UserActivity { .. } => {
                self.daily_active_users = self.daily_active_users.saturating_add(1);
            },
            BusinessEvent::LetteringUploaded { .. } => {
                self.total_uploads = self.total_uploads.saturating_add(1);
            },
            BusinessEvent::UserEngagement { engagement_type } => match engagement_type {
                EngagementType::Like => {
                    self.total_likes = self.total_likes.saturating_add(1);
                },
                EngagementType::Comment => {
                    self.total_comments = self.total_comments.saturating_add(1);
                },
                EngagementType::Report => {
                    self.total_reports = self.total_reports.saturating_add(1);
                },
            },
            _ => {},
        }
    }
}


/// The key under which an endpoint is counted: `method:endpoint`.
pub fn request_key(method: &str, endpoint: &str) -> (r: String)
    ensures
        r@ == method@ + ":"@ + endpoint@,
{
    let mut k = method.to_string();
    k.append(":");
    k.append(endpoint);
    k
}

/// Every key occurs once.
pub open spec fn unique_keys<T>(s: Seq<(Seq<char>, T)>) -> bool {
    forall|i: int, j: int| 0 <= i < j < s.len() ==> s[i].0 != s[j].0
}

/// The counters kept under `key` after one request: an endpoint seen
/// before has its counters updated in place, a new one is added last.
pub open spec fn record_keyed(
    s: Seq<(Seq<char>, RequestCounts)>,
    key: Seq<char>,
    status_code: u16,
    duration_ms: u64,
) -> Seq<(Seq<char>, RequestCounts)> {
    if exists|i: int| 0 <= i < s.len() && s[i].0 == key {
        let i = choose|i: int| 0 <= i < s.len() && s[i].0 == key;
        s.update(i, (key, record_request_spec(s[i].1, status_code, duration_ms)))
    } else {
        s.push((key, record_request_spec(empty_counts(), status_code, duration_ms)))
    }
}

/// The sum of the requests counted over all endpoints.
pub open spec fn total_requests_sum(s: Seq<(Seq<char>, RequestCounts)>) -> nat
    decreases s.len(),
{
    if s.len() == 0 {
        0
    } else {
        total_requests_sum(s.drop_last()) + s.last().1.total_requests as nat
    }
}

/// The sum of the successful requests counted over all endpoints.
pub open spec fn successful_requests_sum(s: Seq<(Seq<char>, RequestCounts)>) -> nat
    decreases s.len(),
{
    if s.len() == 0 {
        0
    } else {
        successful_requests_sum(s.drop_last()) + s.last().1.successful_requests as nat
    }
}

/// The latency samples of all endpoints, endpoint after endpoint.
pub open spec fn all_response_times(s: Seq<(Seq<char>, RequestCounts)>) -> Seq<u64>
    decreases s.len(),
{
    if s.len() == 0 {
        Seq::empty()
    } else {
        all_response_times(s.drop_last()) + s.last().1.response_times
    }
}

/// A count that stops at the largest `u64`.
pub open spec fn capped(n: nat) -> u64 {
    if n > u64::MAX {
        u64::MAX
    } else {
        n as u64
    }
}

/// The integer part of the HTTP summary.
#[derive(Debug, Clone, Copy, PartialEq, Eq, Structural)]
pub struct HttpCounts {
    pub total_requests: u64,
    pub successful_requests: u64,
    pub p50_response_time_ms: u64,
    pub p95_response_time_ms: u64,
    pub p99_response_time_ms: u64,
}

/// The HTTP summary of the counters: totals over all endpoints (stopping
/// at the largest `u64`) and the 50th, 95th and 99th percentiles of all
/// kept latency samples.
pub open spec fn http_counts_of(s: Seq<(Seq<char>, RequestCounts)>) -> HttpCounts {
    let sorted = ascending(all_response_times(s));
    HttpCounts {
        total_requests: capped(total_requests_sum(s)),
        successful_requests: capped(successful_requests_sum(s)),
        p50_response_time_ms: percentile_of_sorted(sorted, 50),
        p95_response_time_ms: percentile_of_sorted(sorted, 95),
        p99_response_time_ms: percentile_of_sorted(sorted, 99),
    }
}

/// The counters of the metrics service.
pub struct MetricsService {
    http_requests: Vec<(String, RequestMetrics)>,
    business: BusinessCounters,
}

/// The counters as the caller sees them.
#[verifier::ext_equal]
pub struct MetricsView {
    pub http: Seq<(Seq<char>, RequestCounts)>,
    pub business: BusinessCounters,
}

impl View for MetricsService {
    type V = MetricsView;

    closed spec fn view(&self) -> MetricsView {
        MetricsView {
            http: self.http_requests@.map_values(|e: (String, RequestMetrics)| (e.0@, e.1@)),
            business: self.business,
        }
    }
}

impl MetricsService {
    /// Each endpoint is counted under one key.
    pub open spec fn wf(&self) -> bool {
        unique_keys(self@.http)
    }

    /// No endpoint and no event counted yet.
    pub fn new() -> (r: MetricsService)
        ensures
            r.wf(),
            r@.http == Seq::<(Seq<char>, RequestCounts)>::empty(),
            r@.business == (BusinessCounters {
                daily_active_users: 0,
                total_uploads: 0,
                total_likes: 0,
                total_comments: 0,
                total_reports: 0,
            }),
    {
        let r = MetricsService { http_requests: Vec::new(), business: BusinessCounters::new() };
        proof {
            assert(r@.http =~= Seq::<(Seq<char>, RequestCounts)>::empty());
        }
        r
    }

    /// Counts a completed request under `method:endpoint`.
    pub fn record_http_request(
        &mut self,
        endpoint: &str,
        method: &str,
        status_code: u16,
        duration_ms: u64,
    )
        requires
            old(self).wf(),
        ensures
            final(self).wf(),
            final(self)@.business == old(self)@.business,
            final(self)@.http == record_keyed(
                old(self)@.http,
                method@ + ":"@ + endpoint@,
                status_code,
                duration_ms,
            ),
    {
        let key = request_key(method, endpoint);
        let ghost before = self@.http;
        let ghost raw = self.http_requests@;
        match find_key(&self.http_requests, key.as_str()) {
            Some(i) => {
                let (k, mut m) = self.http_requests.remove(i);
                m.record(status_code, duration_ms);
                self.http_requests.insert(i, (k, m));
                proof {
                    assert(before[i as int].0 == key@);
                    let w = choose|j: int| 0 <= j < before.len() && before[j].0 == key@;
                    assert(w == i as int);
                    assert(self@.http =~= before.update(
                        i as int,
                        (key@, record_request_spec(before[i as int].1, status_code, duration_ms)),
                    ));
                }
            },
            None => {
                let mut m = RequestMetrics::new();
                m.record(status_code, duration_ms);
                self.http_requests.push((key, m));
                proof {
                    assert forall|j: int| 0 <= j < before.len() implies before[j].0 != key@ by {
                        assert(raw[j].0@ != key@);
                    }
                    assert(self@.http =~= before.push(
                        (key@, record_request_spec(empty_counts(), status_code, duration_ms)),
                    ));
                }
            },
        }
    }

    /// Counts a business event.
    pub fn record_business_event(&mut self, event: &BusinessEvent)
        requires
            old(self).wf(),
        ensures
            final(self).wf(),
            final(self)@.http == old(self)@.http,
            final(self)@.business == business_after(old(self)@.business, *event),
    {
        self.business.record(event);
    }

    /// The business counters.
    pub fn business(&self) -> (r: BusinessCounters)
        ensures
            r == self@.business,
    {
        self.business
    }

    /// The counters of the endpoint counted under `key`, if any.
    pub fn endpoint(&self, key: &str) -> (r: Option<&RequestMetrics>)
        requires
            self.wf(),
        ensures
            r matches Some(m) ==> exists|i: int|
                0 <= i < self@.http.len() && self@.http[i].0 == key@ && self@.http[i].1 == m@,
            r is None ==> forall|i: int| 0 <= i < self@.http.len() ==> self@.http[i].0 != key@,
    {
        match find_key(&self.http_requests, key) {
            Some(i) => {
                proof {
                    assert(self@.http[i as int].0 == key@);
                }
                Some(&self.http_requests[i].1)
            },
            None => {
                proof {
                    assert forall|i: int| 0 <= i < self@.http.len() implies self@.http[i].0
                        != key@ by {
                        assert(self.http_requests@[i].0@ != key@);
                    }
                }
                None
            },
        }
    }

    /// The HTTP summary: totals over all endpoints and latency percentiles.
    pub fn calculate_http_summary(&self) -> (r: HttpCounts)
        ensures
            r == http_counts_of(self@.http),
    {
        let ghost h = self@.http;
        let mut total: u64 = 0;
        let mut successful: u64 = 0;
        let mut all: Vec<u64> = Vec::new();
        let mut i: usize = 0;
        while i < self.http_requests.len()
            invariant
                h == self@.http,
                i <= self.http_requests.len(),
                total == capped(total_requests_sum(h.subrange(0, i as int))),
                successful == capped(successful_requests_sum(h.subrange(0, i as int))),
                all@ == all_response_times(h.subrange(0, i as int)),
            decreases self.http_requests.len() - i,
        {
            let m = &self.http_requests[i].1;
            let ghost prefix = h.subrange(0, i as int);
            let ghost next = h.subrange(0, i + 1);
            proof {
                assert(next.drop_last() =~= prefix);
                assert(next.last() == h[i as int]);
                assert(h[i as int].1 == m@);
            }
            total = total.saturating_add(m.total_requests);
            successful = successful.saturating_add(m.successful_requests);
            let times = m.response_times();
            let mut j: usize = 0;
            let ghost all0 = all@;
            while j < times.len()
                invariant
                    j <= times.len(),
                    all@ == all0 + times@.subrange(0, j as int),
                decreases times.len() - j,
            {
                all.push(times[j]);
                proof {
                    assert(times@.subrange(0, j + 1) =~= times@.subrange(0, j as int).push(times@[j as int]));
                    assert(all0 + times@.subrange(0, j + 1) =~= (all0 + times@.subrange(0, j as int)).push(times@[j as int]));
                }
                j = j + 1;
            }
            proof {
                assert(times@.subrange(0, times@.len() as int) =~= times@);
            }
            i = i + 1;
        }
        proof {
            assert(h.subrange(0, h.len() as int) =~= h);
        }
        let sorted = sort_ascending(&all);
        HttpCounts {
            total_requests: total,
            successful_requests: successful,
            p50_response_time_ms: calculate_percentile(sorted.as_slice(), 50),
            p95_response_time_ms: calculate_percentile(sorted.as_slice(), 95),
            p99_response_time_ms: calculate_percentile(sorted.as_slice(), 99),
        }
    }
}

proof fn lemma_total_sum_update(s: Seq<(Seq<char>, RequestCounts)>, i: int, v: (Seq<char>, RequestCounts))
    requires
        0 <= i < s.len(),
    ensures
        total_requests_sum(s.update(i, v)) + s[i].1.total_requests == total_requests_sum(s)
            + v.1.total_requests,
    decreases s.len(),
{
    let u = s.update(i, v);
    if i == s.len() - 1 {
        assert(u.drop_last() =~= s.drop_last());
    } else {
        assert(u.drop_last() =~= s.drop_last().update(i, v));
        lemma_total_sum_update(s.drop_last(), i, v);
    }
}

proof fn lemma_total_sum_push(s: Seq<(Seq<char>, RequestCounts)>, v: (Seq<char>, RequestCounts))
    ensures
        total_requests_sum(s.push(v)) == total_requests_sum(s) + v.1.total_requests,
{
    assert(s.push(v).drop_last() =~= s);
}

/// Each recorded request adds exactly one to the requests counted over all
/// endpoints, as long as the endpoint's own count has not reached its
/// maximum.
pub proof fn lemma_request_counted_once(
    s: Seq<(Seq<char>, RequestCounts)>,
    key: Seq<char>,
    status_code: u16,
    duration_ms: u64,
)
    requires
        unique_keys(s),
        forall|i: int| 0 <= i < s.len() && s[i].0 == key ==> s[i].1.total_requests < u64::MAX,
    ensures
        total_requests_sum(record_keyed(s, key, status_code, duration_ms)) == total_requests_sum(s)
            + 1,
{
    if exists|i: int| 0 <= i < s.len() && s[i].0 == key {
        let i = choose|i: int| 0 <= i < s.len() && s[i].0 == key;
        assert(s[i].1.total_requests < u64::MAX);
        let r = record_request_spec(s[i].1, status_code, duration_ms);
        assert(r.total_requests == s[i].1.total_requests + 1);
        lemma_total_sum_update(s, i, (key, r));
        assert(record_keyed(s, key, status_code, duration_ms) =~= s.update(i, (key, r)));
    } else {
        lemma_total_sum_push(s, (key, record_request_spec(empty_counts(), status_code, duration_ms)));
    }
}

/// An endpoint never keeps more than `MAX_RESPONSE_SAMPLES` latency samples.
pub proof fn lemma_sample_window_bounded(m: RequestCounts, status_code: u16, duration_ms: u64)
    requires
        m.response_times.len() <= MAX_RESPONSE_SAMPLES,
    ensures
        record_request_spec(m, status_code, duration_ms).response_times.len() <= MAX_RESPONSE_SAMPLES,
        record_request_spec(m, status_code, duration_ms).response_times.last() == duration_ms,
{
}

/// Success, client errors and server errors never add up to more requests
/// than were counted, while the total has room to grow.
pub proof fn lemma_classes_within_total(m: RequestCounts, status_code: u16, duration_ms: u64)
    requires
        m.successful_requests + m.client_errors + m.server_errors <= m.total_requests,
        m.total_requests < u64::MAX,
    ensures
        ({
            let r = record_request_spec(m, status_code, duration_ms);
            r.successful_requests + r.client_errors + r.server_errors <= r.total_requests
        }),
{
}
/// An engagement raises exactly its own counter by one (staying at the
/// largest value once there): a like the likes, a comment the comments, a
/// report the reports. No other counter changes.
pub proof fn lemma_engagement_counts(b: BusinessCounters, engagement_type: EngagementType)
    ensures
        ({
            let a = business_after(b, BusinessEvent::UserEngagement { engagement_type });
            let up = |n: u64| if n < u64::MAX { (n + 1) as u64 } else { n };
            &&& a.total_likes == (if engagement_type is Like { up(b.total_likes) } else { b.total_likes })
            &&& a.total_comments == (if engagement_type is Comment {
                up(b.total_comments)
            } else {
                b.total_comments
            })
            &&& a.total_reports == (if engagement_type is Report {
                up(b.total_reports)
            } else {
                b.total_reports
            })
        }),
        ({
            let a = business_after(b, BusinessEvent::UserEngagement { engagement_type });
            &&& a.daily_active_users == b.daily_active_users
            &&& a.total_uploads == b.total_uploads
        }),
{
}

} // verus!
