//! The lettering domain: moderation status, value objects, errors, and the
//! pieces of the search and storage rules that do not touch the database.
use vstd::prelude::*;
use vstd::string::*;
use crate::pattern::{CompiledPattern, regex_compiles, regex_is_match};
use crate::text::{
    to_chars, trim_chars, trim, to_ascii_lower, ascii_lower, starts_with_chars, starts_with_seq,
    str_eq,
};

verus! {

/// Moderation and visibility status of a lettering.
#[derive(Debug, Clone, Copy, PartialEq, Eq, Structural)]
pub enum LetteringStatus {
    /// Initial state after upload, awaiting moderation review.
    Pending,
    /// Approved for public discovery and search results.
    Approved,
    /// Hidden from public view.
    Rejected,
    /// Flagged by community reports.
    Reported,
}

impl Default for LetteringStatus {
    /// New letterings start out pending.
    fn default() -> (r: Self)
        ensures
            r == LetteringStatus::Pending,
    {
        LetteringStatus::Pending
    }
}

/// The label under which a status is stored.
pub open spec fn status_label(s: LetteringStatus) -> Seq<char> {
    match s {
        LetteringStatus::Pending => "PENDING"@,
        LetteringStatus::Approved => "APPROVED"@,
        LetteringStatus::Rejected => "REJECTED"@,
        LetteringStatus::Reported => "REPORTED"@,
    }
}

/// The status a stored label stands for; unknown labels read as pending.
pub open spec fn status_from_label(label: Seq<char>) -> LetteringStatus {
    if label == "APPROVED"@ {
        LetteringStatus::Approved
    } else if label == "REJECTED"@ {
        LetteringStatus::Rejected
    } else if label == "REPORTED"@ {
        LetteringStatus::Reported
    } else {
        LetteringStatus::Pending
    }
}

impl LetteringStatus {
    /// Whether this status allows public visibility: only approved
    /// letterings are public.
    pub fn is_public(&self) -> (r: bool)
        ensures
            r == (*self == LetteringStatus::Approved),
    {
        matches!(self, LetteringStatus::Approved)
    }

    /// Whether this status requires administrator attention: pending and
    /// reported letterings do.
    pub fn needs_moderation(&self) -> (r: bool)
        ensures
            r == (*self == LetteringStatus::Pending || *self == LetteringStatus::Reported),
    {
        matches!(self, LetteringStatus::Pending | LetteringStatus::Reported)
    }

    /// The label under which this status is stored.
    pub fn label(&self) -> (r: &'static str)
        ensures
            r@ == status_label(*self),
    {
        match self {
            LetteringStatus::Pending => "PENDING",
            LetteringStatus::Approved => "APPROVED",
            LetteringStatus::Rejected => "REJECTED",
            LetteringStatus::Reported => "REPORTED",
        }
    }

    /// The status that a stored label stands for; any label other than
    /// `APPROVED`, `REJECTED` and `REPORTED` reads as pending.
    pub fn from_label(label: &str) -> (r: LetteringStatus)
        ensures
            r == status_from_label(label@),
    {
        if str_eq(label, "APPROVED") {
            LetteringStatus::Approved
        } else if str_eq(label, "REJECTED") {
            LetteringStatus::Rejected
        } else if str_eq(label, "REPORTED") {
            LetteringStatus::Reported
        } else {
            LetteringStatus::Pending
        }
    }
}

/// Reading back the label of a status gives the status again.
pub proof fn lemma_status_label_round_trip(s: LetteringStatus)
    ensures
        status_from_label(status_label(s)) == s,
{
    reveal_strlit("PENDING");
    reveal_strlit("APPROVED");
    reveal_strlit("REJECTED");
    reveal_strlit("REPORTED");
    match s {
        LetteringStatus::Pending => {
            assert("PENDING"@[0] != "APPROVED"@[0]);
            assert("PENDING"@[0] != "REJECTED"@[0]);
            assert("PENDING"@[0] != "REPORTED"@[0]);
        },
        LetteringStatus::Approved => {},
        LetteringStatus::Rejected => {
            assert("REJECTED"@[0] != "APPROVED"@[0]);
        },
        LetteringStatus::Reported => {
            assert("REPORTED"@[0] != "APPROVED"@[0]);
            assert("REPORTED"@[2] != "REJECTED"@[2]);
        },
    }
}

/// Thumbnail image URLs for the display sizes.
#[derive(Debug, Clone)]
pub struct ThumbnailUrls {
    /// Small thumbnail (200px) for compact displays and map markers.
    pub small: String,
    /// Medium thumbnail (600px) for gallery cards and search results.
    pub medium: String,
    /// Large thumbnail (1200px) for detail views.
    pub large: String,
}

/// Errors of the lettering domain.
#[derive(Debug, Clone)]
pub enum DomainError {
    NotFound(String),
    ValidationError(String),
    InfrastructureError(String),
    RateLimitExceeded,
    Unauthorized,
}

/// The message shown for a domain error.
pub open spec fn domain_error_message(e: DomainError) -> Seq<char> {
    match e {
        DomainError::NotFound(_) => "Not found"@,
        DomainError::ValidationError(m) => "Validation error: "@ + m@,
        DomainError::InfrastructureError(m) => "Infrastructure error: "@ + m@,
        DomainError::RateLimitExceeded => "Rate limit exceeded"@,
        DomainError::Unauthorized => "Unauthorized"@,
    }
}

impl DomainError {
    /// The message shown for this error.
    pub fn message(&self) -> (r: String)
        ensures
            r@ == domain_error_message(*self),
    {
        match self {
            DomainError::NotFound(_) => String::from_str("Not found"),
            DomainError::ValidationError(m) => {
                let mut s = String::from_str("Validation error: ");
                s.append(m.as_str());
                s
            },
            DomainError::InfrastructureError(m) => {
                let mut s = String::from_str("Infrastructure error: ");
                s.append(m.as_str());
                s
            },
            DomainError::RateLimitExceeded => String::from_str("Rate limit exceeded"),
            DomainError::Unauthorized => String::from_str("Unauthorized"),
        }
    }
}

/// The refusal of a location without both coordinates.
pub open spec fn location_error_message() -> Seq<char> {
    "location must include longitude and latitude"@
}

/// A stored location needs a longitude and a latitude: a point with fewer
/// than two coordinates is refused before it is written.
pub fn check_location(coordinate_count: usize) -> (r: Result<(), DomainError>)
    ensures
        r is Ok <==> coordinate_count >= 2,
        coordinate_count < 2 ==> (r matches Err(DomainError::ValidationError(m))
            && m@ == location_error_message()),
{
    if coordinate_count < 2 {
        Err(DomainError::ValidationError(String::from_str("location must include longitude and latitude")))
    } else {
        Ok(())
    }
}

/// Why a value object was refused.
#[derive(Debug, Clone, PartialEq, Eq, Structural)]
pub enum ValueObjectError {
    /// The value does not match the required pattern.
    PatternMismatch,
    /// The value's length in characters lies outside `min..=max`.
    LengthOutOfRange { min: usize, max: usize },
    /// The regex engine refused the pattern.
    PatternUnavailable,
}

/// The pattern a PIN code must match: `56` followed by four digits.
pub open spec fn pin_code_pattern() -> Seq<char> {
    "^56\\d{4}$"@
}

/// A postal PIN code of the Bengaluru region.
#[derive(Debug, Clone)]
pub struct PinCode {
    pub value: String,
}

impl PinCode {
    /// Accepts `value` when it matches `^56\d{4}$` (with the regex crate's
    /// Unicode digits).
    pub fn new(value: String) -> (r: Result<PinCode, ValueObjectError>)
        ensures
            !regex_compiles(pin_code_pattern()) ==> r == Err::<PinCode, ValueObjectError>(
                ValueObjectError::PatternUnavailable,
            ),
            regex_compiles(pin_code_pattern()) && regex_is_match(pin_code_pattern(), value@)
                ==> (r matches Ok(p) && p.value@ == value@),
            regex_compiles(pin_code_pattern()) && !regex_is_match(pin_code_pattern(), value@)
                ==> r == Err::<PinCode, ValueObjectError>(ValueObjectError::PatternMismatch),
            !(value@.len() >= 2 && value@[0] == '5' && value@[1] == '6') ==> r == Err::<
                PinCode,
                ValueObjectError,
            >(ValueObjectError::PatternMismatch),
            (forall|i: int| 0 <= i < value@.len() ==> (value@[i] as u32) < 128) ==> (r is Ok <==> (
            value@.len() == 6 && value@[0] == '5' && value@[1] == '6' && (forall|i: int|
                2 <= i < 6 ==> '0' <= #[trigger] value@[i] <= '9'))),
            r matches Ok(p) ==> p.value@ == value@,
    {
        match CompiledPattern::compile("^56\\d{4}$") {
            Ok(p) => {
                if p.is_match(value.as_str()) {
                    Ok(PinCode { value })
                } else {
                    Err(ValueObjectError::PatternMismatch)
                }
            },
            Err(_) => Err(ValueObjectError::PatternUnavailable),
        }
    }
}

/// A contributor's display tag.
#[derive(Debug, Clone)]
pub struct ContributorTag {
    pub value: String,
}

impl ContributorTag {
    /// Accepts `value` when it has between 3 and 30 characters.
    pub fn new(value: String) -> (r: Result<ContributorTag, ValueObjectError>)
        ensures
            3 <= value@.len() <= 30 ==> (r matches Ok(t) && t.value@ == value@),
            !(3 <= value@.len() <= 30) ==> r == Err::<ContributorTag, ValueObjectError>(
                ValueObjectError::LengthOutOfRange { min: 3, max: 30 },
            ),
    {
        let n = value.as_str().unicode_len();
        if 3 <= n && n <= 30 {
            Ok(ContributorTag { value })
        } else {
            Err(ValueObjectError::LengthOutOfRange { min: 3, max: 30 })
        }
    }
}

/// The text search configuration for a locale: locales whose trimmed,
/// ASCII-lower-cased name starts with `en` search in English; every other
/// locale uses the simple configuration. No locale counts as `en`.
pub open spec fn ts_config_of(locale: Option<Seq<char>>) -> Seq<char> {
    let name = match locale {
        Some(l) => l,
        None => "en"@,
    };
    if starts_with_seq(trim(name).map_values(|c: char| ascii_lower(c)), "en"@) {
        "english"@
    } else {
        "simple"@
    }
}

pub open spec fn opt_str_view(o: Option<&str>) -> Option<Seq<char>> {
    match o {
        Some(s) => Some(s@),
        None => None,
    }
}

/// The PostgreSQL text search configuration used for a search locale.
pub fn ts_config_for_locale(locale: Option<&str>) -> (r: &'static str)
    ensures
        r@ == ts_config_of(opt_str_view(locale)),
{
    let name = match locale {
        Some(l) => l,
        None => "en",
    };
    let trimmed = trim_chars(&to_chars(name));
    let mut lowered: Vec<char> = Vec::new();
    let mut i: usize = 0;
    while i < trimmed.len()
        invariant
            i <= trimmed.len(),
            lowered@ == trimmed@.take(i as int).map_values(|c: char| ascii_lower(c)),
        decreases trimmed.len() - i,
    {
        lowered.push(to_ascii_lower(trimmed[i]));
        proof {
            assert(trimmed@.take(i + 1).map_values(|c: char| ascii_lower(c)) =~= trimmed@.take(
                i as int,
            ).map_values(|c: char| ascii_lower(c)).push(ascii_lower(trimmed@[i as int])));
        }
        i = i + 1;
    }
    proof {
        assert(trimmed@.take(trimmed@.len() as int) == trimmed@);
    }
    if starts_with_chars(&lowered, &to_chars("en")) {
        "english"
    } else {
        "simple"
    }
}

/// The number of search results asked for, kept within 1 to 100.
pub fn clamp_search_limit(limit: i64) -> (r: i64)
    ensures
        r == (if limit < 1 {
            1
        } else if limit > 100 {
            100
        } else {
            limit
        }),
{
    if limit < 1 {
        1
    } else if limit > 100 {
        100
    } else {
        limit
    }
}

/// A search request.
#[derive(Debug, Clone)]
pub struct SearchRequest {
    pub query: String,
    pub limit: Option<i64>,
}


/// The text between `POINT(` and the closing `)` of a point in
/// well-known text, if it has that shape.
pub open spec fn point_body(wkt: Seq<char>) -> Option<Seq<char>> {
    let prefix = "POINT("@;
    if starts_with_seq(wkt, prefix) && wkt.len() > prefix.len() && wkt.last() == ')' {
        Some(wkt.subrange(prefix.len() as int, wkt.len() - 1))
    } else {
        None
    }
}

/// The text before and after the first space, if there is one.
pub open spec fn split_at_first_space(s: Seq<char>) -> Option<(Seq<char>, Seq<char>)> {
    if exists|i: int| 0 <= i < s.len() && s[i] == ' ' {
        let i = choose|i: int| 0 <= i < s.len() && s[i] == ' ' && forall|j: int| 0 <= j < i ==> s[j] != ' ';
        Some((s.subrange(0, i), s.subrange(i + 1, s.len() as int)))
    } else {
        None
    }
}

/// The longitude and latitude texts of a point in well-known text
/// (`POINT(lng lat)`), if it has that shape.
pub open spec fn point_coordinate_texts(wkt: Seq<char>) -> Option<(Seq<char>, Seq<char>)> {
    match point_body(wkt) {
        Some(body) => split_at_first_space(body),
        None => None,
    }
}

/// Splits a point in well-known text into its longitude and latitude texts.
pub fn split_point_wkt(wkt: &str) -> (r: Option<(String, String)>)
    ensures
        match point_coordinate_texts(wkt@) {
            Some((lng, lat)) => r matches Some(p) && p.0@ == lng && p.1@ == lat,
            None => r is None,
        },
{
    let chars = to_chars(wkt);
    let prefix = to_chars("POINT(");
    if !starts_with_chars(&chars, &prefix) || chars.len() <= prefix.len() || chars[chars.len() - 1] != ')' {
        return None;
    }
    let start = prefix.len();
    let end = chars.len() - 1;
    let ghost body = chars@.subrange(start as int, end as int);
    proof {
        assert(point_body(wkt@) == Some(body));
    }
    let mut i: usize = start;
    while i < end
        invariant
            point_body(wkt@) == Some(body),
            start <= i <= end,
            end < chars.len(),
            body == chars@.subrange(start as int, end as int),
            forall|j: int| start <= j < i ==> chars@[j] != ' ',
        decreases end - i,
    {
        if chars[i] == ' ' {
            let mut lng: Vec<char> = Vec::new();
            let mut k: usize = start;
            while k < i
                invariant
                    start <= k <= i,
                    i < end,
                    end < chars.len(),
                    lng@ == chars@.subrange(start as int, k as int),
                decreases i - k,
            {
                lng.push(chars[k]);
                proof {
                    assert(chars@.subrange(start as int, k + 1) =~= chars@.subrange(start as int, k as int).push(chars@[k as int]));
                }
                k = k + 1;
            }
            let mut lat: Vec<char> = Vec::new();
            let mut m: usize = i + 1;
            while m < end
                invariant
                    i + 1 <= m <= end,
                    end < chars.len(),
                    lat@ == chars@.subrange(i + 1, m as int),
                decreases end - m,
            {
                lat.push(chars[m]);
                proof {
                    assert(chars@.subrange(i + 1, m + 1) =~= chars@.subrange(i + 1, m as int).push(chars@[m as int]));
                }
                m = m + 1;
            }
            proof {
                let p = i - start;
                assert(body[p] == ' ');
                let w = choose|w: int| 0 <= w < body.len() && body[w] == ' ' && forall|j: int| 0 <= j < w ==> body[j] != ' ';
                if w < p {
                    assert(chars@[start + w] == ' ');
                }
                if p < w {
                    assert(body[p] != ' ');
                }
                assert(w == p);
                assert(body.subrange(0, p) =~= chars@.subrange(start as int, i as int));
                assert(body.subrange(p + 1, body.len() as int) =~= chars@.subrange(i + 1, end as int));
            }
            return Some((crate::text::chars_to_string(&lng), crate::text::chars_to_string(&lat)));
        }
        i = i + 1;
    }
    proof {
        assert forall|j: int| 0 <= j < body.len() implies body[j] != ' ' by {
            assert(body[j] == chars@[start + j]);
        }
    }
    None
}
} // verus!
