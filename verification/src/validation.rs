//! Input validation for security hardening and data integrity: lengths,
//! formats (regular expressions), injection patterns and image uploads.
use vstd::prelude::*;
use vstd::string::*;
use vstd::utf8::encode_utf8;
use crate::pattern::{CompiledPattern, regex_compiles, regex_is_match};
use crate::text::{to_chars, trim_chars, trim, chars_to_string, usize_to_decimal, decimal, str_eq};

verus! {

// ---------------------------------------------------------------------
// Errors and results
// ---------------------------------------------------------------------

/// A validation failure with its context.
#[derive(Debug, Clone)]
pub enum ValidationError {
    TooLong { field: String, max_length: usize },
    TooShort { field: String, min_length: usize },
    InvalidFormat { field: String },
    SecurityViolation { field: String, attack_type: String },
    InvalidRange { field: String, value: String },
    FileValidation { reason: String },
    InvalidCoordinates,
}

/// A validation failure with its strings taken as character sequences.
pub enum ErrorView {
    TooLong { field: Seq<char>, max_length: usize },
    TooShort { field: Seq<char>, min_length: usize },
    InvalidFormat { field: Seq<char> },
    SecurityViolation { field: Seq<char>, attack_type: Seq<char> },
    InvalidRange { field: Seq<char>, value: Seq<char> },
    FileValidation { reason: Seq<char> },
    InvalidCoordinates,
}

impl View for ValidationError {
    type V = ErrorView;

    open spec fn view(&self) -> ErrorView {
        match self {
            ValidationError::TooLong { field, max_length } => ErrorView::TooLong {
                field: field@,
                max_length: *max_length,
            },
            ValidationError::TooShort { field, min_length } => ErrorView::TooShort {
                field: field@,
                min_length: *min_length,
            },
            ValidationError::InvalidFormat { field } => ErrorView::InvalidFormat { field: field@ },
            ValidationError::SecurityViolation { field, attack_type } =>
                ErrorView::SecurityViolation { field: field@, attack_type: attack_type@ },
            ValidationError::InvalidRange { field, value } => ErrorView::InvalidRange {
                field: field@,
                value: value@,
            },
            ValidationError::FileValidation { reason } => ErrorView::FileValidation {
                reason: reason@,
            },
            ValidationError::InvalidCoordinates => ErrorView::InvalidCoordinates,
        }
    }
}

pub open spec fn error_views(es: Seq<ValidationError>) -> Seq<ErrorView> {
    es.map_values(|e: ValidationError| e@)
}

/// The outcome of a validation: the errors found and, when there are none,
/// the accepted (possibly cleaned) value.
#[derive(Debug, Clone)]
pub struct ValidationResult<T> {
    pub is_valid: bool,
    pub value: Option<T>,
    pub errors: Vec<ValidationError>,
    pub warnings: Vec<String>,
}

/// `e` when `b` holds, nothing otherwise.
pub open spec fn check(b: bool, e: ErrorView) -> Seq<ErrorView> {
    if b {
        seq![e]
    } else {
        seq![]
    }
}

/// `r` reports exactly `errors`, is valid when there are none, and then
/// carries `value`.
pub open spec fn text_result(r: ValidationResult<String>, errors: Seq<ErrorView>, value: Seq<char>) -> bool {
    &&& error_views(r.errors@) == errors
    &&& r.is_valid == (errors.len() == 0)
    &&& errors.len() == 0 ==> (r.value matches Some(v) && v@ == value)
    &&& errors.len() > 0 ==> r.value is None
    &&& r.warnings@.len() == 0
}

/// The length that `str::len` reports for a string of these characters:
/// the length of its UTF-8 encoding.
pub open spec fn str_len_of(s: Seq<char>) -> int {
    (encode_utf8(s).len() as usize) as int
}

fn push_error(errors: &mut Vec<ValidationError>, e: ValidationError)
    ensures
        error_views(final(errors)@) == error_views(old(errors)@).push(e@),
{
    let ghost ev = e@;
    errors.push(e);
    proof {
        assert(error_views(errors@) =~= error_views(old(errors)@).push(ev));
    }
}

fn finish_text(errors: Vec<ValidationError>, value: String) -> (r: ValidationResult<String>)
    ensures
        text_result(r, error_views(errors@), value@),
{
    let is_valid = errors.len() == 0;
    let warnings: Vec<String> = Vec::new();
    ValidationResult { is_valid, value: if is_valid { Some(value) } else { None }, errors, warnings }
}

/// The Unicode lower-case mapping of a string (`str::to_lowercase`).
pub uninterp spec fn unicode_lowercase(s: Seq<char>) -> Seq<char>;

/// Every character is ASCII.
pub open spec fn all_ascii(s: Seq<char>) -> bool {
    forall|i: int| 0 <= i < s.len() ==> (s[i] as u32) < 128
}

/// The ASCII lower-case form of a string: `A` to `Z` become `a` to `z`,
/// every other character stays.
pub open spec fn ascii_lowercase(s: Seq<char>) -> Seq<char> {
    s.map_values(|c: char| crate::text::ascii_lower(c))
}

/// `str::to_lowercase`: the result is the Unicode lower-case mapping of
/// the input, which maps the string character by character; the mapping
/// of non-ASCII characters is not spelled out here. Believed without
/// proof, as the Unicode tables give it for ASCII: an ASCII string becomes
/// its ASCII lower-case form, and a leading run of ASCII characters comes
/// out as its ASCII lower-case form at the start of the result.
#[verifier::external_body]
fn to_lowercase(s: &str) -> (r: String)
    ensures
        r@ == unicode_lowercase(s@),
        all_ascii(s@) ==> r@ == ascii_lowercase(s@),
        forall|k: int|
            0 <= k <= s@.len() && all_ascii(#[trigger] s@.take(k)) ==> crate::text::starts_with_seq(
                r@,
                ascii_lowercase(s@.take(k)),
            ),
{
    s.to_lowercase()
}

fn trim_str(s: &str) -> (r: String)
    ensures
        r@ == trim(s@),
{
    let t = trim_chars(&to_chars(s));
    chars_to_string(&t)
}

fn field(name: &str) -> (r: String)
    ensures
        r@ == name@,
{
    String::from_str(name)
}

// ---------------------------------------------------------------------
// Patterns
// ---------------------------------------------------------------------

pub open spec fn email_pattern() -> Seq<char> {
    r"^[a-zA-Z0-9._%+-]+@[a-zA-Z0-9.-]+\.[a-zA-Z]{2,}$"@
}

pub open spec fn pin_pattern() -> Seq<char> {
    r"^[A-Za-z0-9\s-]{3,10}$"@
}

pub open spec fn tag_pattern() -> Seq<char> {
    r"^[a-zA-Z0-9._\-\s]{2,50}$"@
}

pub open spec fn url_pattern() -> Seq<char> {
    r"^https?://[^\s/$.?#].[^\s]*$"@
}

pub open spec fn sql_injection_patterns() -> Seq<Seq<char>> {
    seq![r"(?i)(union|select|insert|update|delete|drop|exec|script)"@, r"(?i)(--|;)"@]
}

pub open spec fn xss_patterns() -> Seq<Seq<char>> {
    seq![
        r"(?i)(<script|</script|javascript:|vbscript:|onload=|onerror=)"@,
        r"(?i)(alert|confirm|prompt)"@,
        r"(?i)(<iframe|<object|<embed|<applet)"@,
    ]
}

pub open spec fn command_injection_patterns() -> Seq<Seq<char>> {
    seq![r"(?i)(;|&&)"@, r"(?i)(nc|netcat|wget|curl|ping|nslookup)"@]
}

/// Some pattern of the list matches somewhere in `input`.
pub open spec fn matches_any(patterns: Seq<Seq<char>>, input: Seq<char>) -> bool {
    exists|i: int| 0 <= i < patterns.len() && regex_is_match(patterns[i], input)
}

/// Every pattern of the list compiles.
pub open spec fn all_compile(patterns: Seq<Seq<char>>) -> bool {
    forall|i: int| 0 <= i < patterns.len() ==> regex_compiles(patterns[i])
}

/// SQL injection, script injection or shell command injection patterns
/// occur in `input`.
pub open spec fn is_suspicious(input: Seq<char>) -> bool {
    matches_any(sql_injection_patterns(), input) || matches_any(xss_patterns(), input)
        || matches_any(command_injection_patterns(), input)
}

/// Every pattern that the service uses compiles.
pub open spec fn service_patterns_compile() -> bool {
    &&& regex_compiles(email_pattern())
    &&& regex_compiles(pin_pattern())
    &&& regex_compiles(tag_pattern())
    &&& regex_compiles(url_pattern())
    &&& all_compile(sql_injection_patterns())
    &&& all_compile(xss_patterns())
    &&& all_compile(command_injection_patterns())
}

pub(crate) open spec fn sources(ps: Seq<CompiledPattern>) -> Seq<Seq<char>> {
    ps.map_values(|p: CompiledPattern| p.source())
}

/// Pre-compiled regular expressions for input validation.
struct ValidationPatterns {
    email: CompiledPattern,
    pin_code: CompiledPattern,
    contributor_tag: CompiledPattern,
    url: CompiledPattern,
    sql_injection: Vec<CompiledPattern>,
    xss_patterns: Vec<CompiledPattern>,
    command_injection: Vec<CompiledPattern>,
}

/// The regex engine refused one of the validation patterns.
#[derive(Debug, Clone)]
pub struct PatternSetupError {
    pub pattern: String,
}

fn compile_list(list: &Vec<&str>) -> (r: Result<Vec<CompiledPattern>, PatternSetupError>)
    ensures
        r is Ok <==> all_compile(list@.map_values(|t: &str| t@)),
        r matches Ok(ps) ==> sources(ps@) == list@.map_values(|t: &str| t@),
{
    let ghost views = list@.map_values(|t: &str| t@);
    let mut out: Vec<CompiledPattern> = Vec::new();
    let mut i: usize = 0;
    while i < list.len()
        invariant
            i <= list.len(),
            views == list@.map_values(|t: &str| t@),
            sources(out@) == views.take(i as int),
            forall|j: int| 0 <= j < i ==> regex_compiles(views[j]),
        decreases list.len() - i,
    {
        proof {
            assert(views[i as int] == list@[i as int]@);
        }
        match CompiledPattern::compile(list[i]) {
            Ok(p) => {
                let ghost ps = p.source();
                out.push(p);
                proof {
                    assert(views.take(i + 1) =~= views.take(i as int).push(ps));
                }
                proof {
                    assert(sources(out@) =~= views.take(i + 1));
                }
            },
            Err(_) => {
                proof {
                    assert(!regex_compiles(views[i as int]));
                }
                return Err(PatternSetupError { pattern: String::from_str(list[i]) });
            },
        }
        i = i + 1;
    }
    proof {
        assert(views.take(list@.len() as int) == views);
    }
    Ok(out)
}

fn compile_one(source: &str) -> (r: Result<CompiledPattern, PatternSetupError>)
    ensures
        r is Ok <==> regex_compiles(source@),
        r matches Ok(p) ==> p.source() == source@,
{
    match CompiledPattern::compile(source) {
        Ok(p) => Ok(p),
        Err(_) => Err(PatternSetupError { pattern: String::from_str(source) }),
    }
}

impl ValidationPatterns {
    spec fn compiled_from_spec(&self) -> bool {
        &&& self.email.source() == email_pattern()
        &&& self.pin_code.source() == pin_pattern()
        &&& self.contributor_tag.source() == tag_pattern()
        &&& self.url.source() == url_pattern()
        &&& sources(self.sql_injection@) == sql_injection_patterns()
        &&& sources(self.xss_patterns@) == xss_patterns()
        &&& sources(self.command_injection@) == command_injection_patterns()
    }

    fn new() -> (r: Result<ValidationPatterns, PatternSetupError>)
        ensures
            r is Ok <==> service_patterns_compile(),
            r matches Ok(p) ==> p.compiled_from_spec(),
    {
        let email = compile_one(r"^[a-zA-Z0-9._%+-]+@[a-zA-Z0-9.-]+\.[a-zA-Z]{2,}$")?;
        let pin_code = compile_one(r"^[A-Za-z0-9\s-]{3,10}$")?;
        let contributor_tag = compile_one(r"^[a-zA-Z0-9._\-\s]{2,50}$")?;
        let url = compile_one(r"^https?://[^\s/$.?#].[^\s]*$")?;
        let sql_list = vec![
            r"(?i)(union|select|insert|update|delete|drop|exec|script)",
            r"(?i)(--|;)",
        ];
        let xss_list = vec![
            r"(?i)(<script|</script|javascript:|vbscript:|onload=|onerror=)",
            r"(?i)(alert|confirm|prompt)",
            r"(?i)(<iframe|<object|<embed|<applet)",
        ];
        let cmd_list = vec![r"(?i)(;|&&)", r"(?i)(nc|netcat|wget|curl|ping|nslookup)"];
        proof {
            assert(sql_list@.map_values(|t: &str| t@) =~= sql_injection_patterns());
            assert(xss_list@.map_values(|t: &str| t@) =~= xss_patterns());
            assert(cmd_list@.map_values(|t: &str| t@) =~= command_injection_patterns());
        }
        let sql_injection = compile_list(&sql_list)?;
        let xss_patterns = compile_list(&xss_list)?;
        let command_injection = compile_list(&cmd_list)?;
        Ok(ValidationPatterns {
            email,
            pin_code,
            contributor_tag,
            url,
            sql_injection,
            xss_patterns,
            command_injection,
        })
    }
}

fn any_match(ps: &Vec<CompiledPattern>, input: &str) -> (r: bool)
    ensures
        r == matches_any(sources(ps@), input@),
{
    let mut i: usize = 0;
    while i < ps.len()
        invariant
            i <= ps.len(),
            forall|j: int| 0 <= j < i ==> !regex_is_match(sources(ps@)[j], input@),
        decreases ps.len() - i,
    {
        if ps[i].is_match(input) {
            proof {
                assert(sources(ps@)[i as int] == ps@[i as int].source());
            }
            return true;
        }
        proof {
            assert(sources(ps@)[i as int] == ps@[i as int].source());
        }
        i = i + 1;
    }
    false
}

// ---------------------------------------------------------------------
// Configuration
// ---------------------------------------------------------------------

/// Configurable validation limits and rules.
#[derive(Debug, Clone)]
pub struct ValidationConfig {
    pub max_contributor_tag_length: usize,
    pub max_description_length: usize,
    pub max_comment_length: usize,
    pub allowed_image_extensions: Vec<String>,
    pub max_image_size_bytes: usize,
}

pub open spec fn default_image_extensions() -> Seq<Seq<char>> {
    seq!["jpg"@, "jpeg"@, "png"@, "webp"@, "heic"@, "heif"@]
}

/// The default limits: tags up to 50 bytes, descriptions up to 2000,
/// comments up to 500, images up to 20 MiB in the listed formats.
pub open spec fn is_default_config(c: ValidationConfig) -> bool {
    &&& c.max_contributor_tag_length == 50
    &&& c.max_description_length == 2000
    &&& c.max_comment_length == 500
    &&& c.allowed_image_extensions.deep_view() == default_image_extensions()
    &&& c.max_image_size_bytes == 20 * 1024 * 1024
}

impl Default for ValidationConfig {
    fn default() -> (r: Self)
        ensures
            is_default_config(r),
    {
        let mut exts: Vec<String> = Vec::new();
        exts.push(String::from_str("jpg"));
        exts.push(String::from_str("jpeg"));
        exts.push(String::from_str("png"));
        exts.push(String::from_str("webp"));
        exts.push(String::from_str("heic"));
        exts.push(String::from_str("heif"));
        proof {
            assert(exts.deep_view() =~= default_image_extensions());
        }
        ValidationConfig {
            max_contributor_tag_length: 50,
            max_description_length: 2000,
            max_comment_length: 500,
            allowed_image_extensions: exts,
            max_image_size_bytes: 20 * 1024 * 1024,
        }
    }
}

// ---------------------------------------------------------------------
// Expected errors of each validation
// ---------------------------------------------------------------------

pub open spec fn email_errors(email: Seq<char>) -> Seq<ErrorView> {
    check(str_len_of(email) > 254, ErrorView::TooLong { field: "email"@, max_length: 254 })
        + check(str_len_of(email) < 3, ErrorView::TooShort { field: "email"@, min_length: 3 })
        + check(!regex_is_match(email_pattern(), email), ErrorView::InvalidFormat { field: "email"@ })
        + check(
        is_suspicious(email),
        ErrorView::SecurityViolation { field: "email"@, attack_type: "injection"@ },
    )
}

/// A URL that starts with `http://` or `https://`, whose lower-case form
/// begins with the ASCII lower-case form of each of its ASCII prefixes,
/// has no unsafe scheme.
proof fn lemma_http_is_safe(url: Seq<char>, lower: Seq<char>)
    requires
        lower == unicode_lowercase(url),
        forall|k: int|
            0 <= k <= url.len() && all_ascii(#[trigger] url.take(k)) ==> crate::text::starts_with_seq(
                lower,
                ascii_lowercase(url.take(k)),
            ),
    ensures
        crate::text::starts_with_seq(url, "http://"@) || crate::text::starts_with_seq(url, "https://"@)
            ==> !is_unsafe_scheme(url),
{
    reveal_strlit("http://");
    reveal_strlit("https://");
    reveal_strlit("javascript:");
    reveal_strlit("data:");
    reveal_strlit("file:");
    reveal_strlit("vbscript:");
    if crate::text::starts_with_seq(url, "http://"@) || crate::text::starts_with_seq(url, "https://"@) {
        let p = url.take(4);
        assert(p[0] == 'h' && p[1] == 't' && p[2] == 't' && p[3] == 'p');
        assert(all_ascii(p));
        assert(crate::text::starts_with_seq(lower, ascii_lowercase(p)));
        assert(ascii_lowercase(p)[0] == 'h');
        assert(lower[0] == 'h');
    }
}

pub open spec fn is_unsafe_scheme(url: Seq<char>) -> bool {
    let lower = unicode_lowercase(url);
    crate::text::starts_with_seq(lower, "javascript:"@) || crate::text::starts_with_seq(
        lower,
        "data:"@,
    ) || crate::text::starts_with_seq(lower, "file:"@) || crate::text::starts_with_seq(
        lower,
        "vbscript:"@,
    )
}

pub open spec fn url_errors(url: Seq<char>) -> Seq<ErrorView> {
    check(str_len_of(url) > 2048, ErrorView::TooLong { field: "url"@, max_length: 2048 }) + check(
        str_len_of(url) < 10,
        ErrorView::TooShort { field: "url"@, min_length: 10 },
    ) + check(!regex_is_match(url_pattern(), url), ErrorView::InvalidFormat { field: "url"@ })
        + check(
        is_unsafe_scheme(url),
        ErrorView::SecurityViolation { field: "url"@, attack_type: "unsafe_protocol"@ },
    )
}

pub open spec fn tag_errors(tag: Seq<char>, max_length: usize) -> Seq<ErrorView> {
    let t = trim(tag);
    check(
        str_len_of(t) > max_length,
        ErrorView::TooLong { field: "contributor_tag"@, max_length },
    ) + check(
        str_len_of(t) < 2,
        ErrorView::TooShort { field: "contributor_tag"@, min_length: 2 },
    ) + check(
        !regex_is_match(tag_pattern(), t),
        ErrorView::InvalidFormat { field: "contributor_tag"@ },
    ) + check(
        is_suspicious(t),
        ErrorView::SecurityViolation { field: "contributor_tag"@, attack_type: "injection"@ },
    )
}

pub open spec fn pin_errors(pin: Seq<char>) -> Seq<ErrorView> {
    let t = trim(pin);
    check(!regex_is_match(pin_pattern(), t), ErrorView::InvalidFormat { field: "pin_code"@ })
        + check(
        is_suspicious(t),
        ErrorView::SecurityViolation { field: "pin_code"@, attack_type: "injection"@ },
    )
}

/// The length limit for a kind of user content.
pub open spec fn content_limit(c: ValidationConfig, content_type: Seq<char>) -> usize {
    if content_type == "description"@ {
        c.max_description_length
    } else if content_type == "comment"@ {
        c.max_comment_length
    } else {
        1000
    }
}

pub open spec fn content_errors(c: ValidationConfig, content: Seq<char>, content_type: Seq<char>) -> Seq<ErrorView> {
    let t = trim(content);
    let max_length = content_limit(c, content_type);
    check(str_len_of(t) > max_length, ErrorView::TooLong { field: content_type, max_length })
        + check(
        matches_any(xss_patterns(), t),
        ErrorView::SecurityViolation { field: content_type, attack_type: "xss"@ },
    ) + check(
        matches_any(sql_injection_patterns(), t),
        ErrorView::SecurityViolation { field: content_type, attack_type: "sql_injection"@ },
    )
}

/// The text after the last `.` of a file name, or the whole name when it
/// has none (`str::split('.').last()`).
pub open spec fn file_extension(name: Seq<char>) -> Seq<char>
    decreases name.len(),
{
    if name.len() == 0 {
        name
    } else if name.last() == '.' {
        seq![]
    } else {
        file_extension(name.drop_last()).push(name.last())
    }
}

/// PNG, JPEG or WEBP magic numbers at the start of at least twelve bytes.
pub open spec fn is_image_data(d: Seq<u8>) -> bool {
    d.len() >= 12 && ((d[0] == 0x89u8 && d[1] == 0x50u8 && d[2] == 0x4Eu8 && d[3] == 0x47u8) || (
    d[0] == 0xFFu8 && d[1] == 0xD8u8 && d[2] == 0xFFu8) || (d[0] == 0x52u8 && d[1] == 0x49u8
        && d[2] == 0x46u8 && d[3] == 0x46u8 && d[8] == 0x57u8 && d[9] == 0x45u8 && d[10] == 0x42u8
        && d[11] == 0x50u8))
}

pub open spec fn file_errors(c: ValidationConfig, data: Seq<u8>, name: Seq<char>) -> Seq<ErrorView> {
    let ext = unicode_lowercase(file_extension(name));
    check(
        data.len() > c.max_image_size_bytes,
        ErrorView::FileValidation {
            reason: "File size "@ + decimal(data.len()) + " exceeds maximum "@ + decimal(
                c.max_image_size_bytes as nat,
            ),
        },
    ) + check(
        data.len() < 100,
        ErrorView::FileValidation { reason: "File too small to be a valid image"@ },
    ) + check(
        !c.allowed_image_extensions.deep_view().contains(ext),
        ErrorView::FileValidation { reason: "File extension '"@ + ext + "' not allowed"@ },
    ) + check(
        !is_image_data(data),
        ErrorView::FileValidation { reason: "File content does not match claimed image format"@ },
    )
}

// ---------------------------------------------------------------------
// The service
// ---------------------------------------------------------------------

/// Input validation service: compiled patterns and limits.
pub struct ValidationService {
    patterns: ValidationPatterns,
    config: ValidationConfig,
}

fn extract_file_extension(filename: &str) -> (r: String)
    ensures
        r@ == file_extension(filename@),
{
    let chars = to_chars(filename);
    let mut start: usize = chars.len();
    proof {
        assert(chars@.take(chars@.len() as int) =~= chars@);
        assert(chars@.subrange(chars@.len() as int, chars@.len() as int) =~= Seq::<char>::empty());
        assert(file_extension(chars@) + Seq::<char>::empty() =~= file_extension(chars@));
    }
    while start > 0 && chars[start - 1] != '.'
        invariant
            start <= chars.len(),
            chars@ == filename@,
            file_extension(chars@) == file_extension(chars@.take(start as int)) + chars@.subrange(
                start as int,
                chars@.len() as int,
            ),
        decreases start,
    {
        proof {
            let t = chars@.take(start as int);
            assert(t.drop_last() =~= chars@.take(start - 1));
            assert(chars@.subrange(start - 1, chars@.len() as int) =~= seq![t.last()]
                + chars@.subrange(start as int, chars@.len() as int));
        }
        start = start - 1;
    }
    proof {
        let t = chars@.take(start as int);
        if start > 0 {
            assert(t.last() == '.');
        }
        assert(file_extension(t) =~= Seq::<char>::empty());
    }
    let mut ext: Vec<char> = Vec::new();
    let mut i: usize = start;
    while i < chars.len()
        invariant
            start <= i <= chars.len(),
            ext@ == chars@.subrange(start as int, i as int),
        decreases chars.len() - i,
    {
        ext.push(chars[i]);
        proof {
            assert(ext@ =~= chars@.subrange(start as int, i + 1));
        }
        i = i + 1;
    }
    proof {
        assert(file_extension(chars@) =~= ext@);
    }
    chars_to_string(&ext)
}

fn is_valid_image_format(data: &[u8]) -> (r: bool)
    ensures
        r == is_image_data(data@),
{
    if data.len() < 12 {
        return false;
    }
    if data[0] == 0x89 && data[1] == 0x50 && data[2] == 0x4E && data[3] == 0x47 {
        return true;
    }
    if data[0] == 0xFF && data[1] == 0xD8 && data[2] == 0xFF {
        return true;
    }
    data[0] == 0x52 && data[1] == 0x49 && data[2] == 0x46 && data[3] == 0x46 && data[8] == 0x57
        && data[9] == 0x45 && data[10] == 0x42 && data[11] == 0x50
}

fn contains_string(list: &Vec<String>, s: &String) -> (r: bool)
    ensures
        r == list.deep_view().contains(s@),
{
    let mut i: usize = 0;
    while i < list.len()
        invariant
            i <= list.len(),
            forall|j: int| 0 <= j < i ==> list.deep_view()[j] != s@,
        decreases list.len() - i,
    {
        proof {
            assert(list.deep_view()[i as int] == list@[i as int]@);
        }
        if str_eq(list[i].as_str(), s.as_str()) {
            return true;
        }
        i = i + 1;
    }
    false
}

impl ValidationService {
    #[verifier::type_invariant]
    spec fn patterns_from_spec(&self) -> bool {
        self.patterns.compiled_from_spec()
    }

    /// The limits in force.
    pub closed spec fn config(&self) -> ValidationConfig {
        self.config
    }

    /// Creates the service with the default rules. It fails exactly when
    /// the regex engine refuses one of the patterns.
    pub fn new() -> (r: Result<ValidationService, PatternSetupError>)
        ensures
            r is Ok <==> service_patterns_compile(),
            r matches Ok(s) ==> is_default_config(s.config()),
    {
        let patterns = ValidationPatterns::new()?;
        let config = ValidationConfig::default();
        Ok(ValidationService { patterns, config })
    }

    fn contains_sql_injection_patterns(&self, input: &str) -> (r: bool)
        ensures
            r == matches_any(sql_injection_patterns(), input@),
    {
        proof {
            use_type_invariant(self);
        }
        any_match(&self.patterns.sql_injection, input)
    }

    fn contains_xss_patterns(&self, input: &str) -> (r: bool)
        ensures
            r == matches_any(xss_patterns(), input@),
    {
        proof {
            use_type_invariant(self);
        }
        any_match(&self.patterns.xss_patterns, input)
    }

    fn contains_command_injection_patterns(&self, input: &str) -> (r: bool)
        ensures
            r == matches_any(command_injection_patterns(), input@),
    {
        proof {
            use_type_invariant(self);
        }
        any_match(&self.patterns.command_injection, input)
    }

    fn contains_suspicious_patterns(&self, input: &str) -> (r: bool)
        ensures
            r == is_suspicious(input@),
    {
        self.contains_sql_injection_patterns(input) || self.contains_xss_patterns(input)
            || self.contains_command_injection_patterns(input)
    }

    /// Validates an email address; the accepted value is the trimmed,
    /// lower-cased address.
    pub fn validate_email(&self, email: &str) -> (r: ValidationResult<String>)
        ensures
            text_result(r, email_errors(email@), unicode_lowercase(trim(email@))),
    {
        proof {
            use_type_invariant(self);
        }
        let mut errors: Vec<ValidationError> = Vec::new();
        let len = email.len();
        if len > 254 {
            push_error(&mut errors, ValidationError::TooLong { field: field("email"), max_length: 254 });
        }
        if len < 3 {
            push_error(&mut errors, ValidationError::TooShort { field: field("email"), min_length: 3 });
        }
        if !self.patterns.email.is_match(email) {
            push_error(&mut errors, ValidationError::InvalidFormat { field: field("email") });
        }
        if self.contains_suspicious_patterns(email) {
            push_error(
                &mut errors,
                ValidationError::SecurityViolation {
                    field: field("email"),
                    attack_type: field("injection"),
                },
            );
        }
        proof {
            assert(error_views(errors@) =~= email_errors(email@));
        }
        let trimmed = trim_str(email);
        let lowered = to_lowercase(trimmed.as_str());
        finish_text(errors, lowered)
    }

    /// Validates a URL; javascript, data, file and vbscript schemes are
    /// refused. The accepted value is the trimmed URL.
    pub fn validate_url(&self, url: &str) -> (r: ValidationResult<String>)
        ensures
            text_result(r, url_errors(url@), trim(url@)),
            crate::text::starts_with_seq(url@, "http://"@) || crate::text::starts_with_seq(
                url@,
                "https://"@,
            ) ==> (r.is_valid <==> (10 <= str_len_of(url@) <= 2048 && regex_is_match(
                url_pattern(),
                url@,
            ))),
    {
        proof {
            use_type_invariant(self);
        }
        let mut errors: Vec<ValidationError> = Vec::new();
        let len = url.len();
        if len > 2048 {
            push_error(&mut errors, ValidationError::TooLong { field: field("url"), max_length: 2048 });
        }
        if len < 10 {
            push_error(&mut errors, ValidationError::TooShort { field: field("url"), min_length: 10 });
        }
        if !self.patterns.url.is_match(url) {
            push_error(&mut errors, ValidationError::InvalidFormat { field: field("url") });
        }
        let lowered = to_lowercase(url);
        proof {
            lemma_http_is_safe(url@, lowered@);
        }
        let lowercase_url = to_chars(lowered.as_str());
        if crate::text::starts_with_chars(&lowercase_url, &to_chars("javascript:"))
            || crate::text::starts_with_chars(&lowercase_url, &to_chars("data:"))
            || crate::text::starts_with_chars(&lowercase_url, &to_chars("file:"))
            || crate::text::starts_with_chars(&lowercase_url, &to_chars("vbscript:")) {
            push_error(
                &mut errors,
                ValidationError::SecurityViolation {
                    field: field("url"),
                    attack_type: field("unsafe_protocol"),
                },
            );
        }
        proof {
            assert(error_views(errors@) =~= url_errors(url@));
        }
        finish_text(errors, trim_str(url))
    }

    /// Validates a contributor tag; the accepted value is the trimmed tag.
    pub fn validate_contributor_tag(&self, tag: &str) -> (r: ValidationResult<String>)
        ensures
            text_result(r, tag_errors(tag@, self.config().max_contributor_tag_length), trim(tag@)),
    {
        proof {
            use_type_invariant(self);
        }
        let mut errors: Vec<ValidationError> = Vec::new();
        let trimmed = trim_str(tag);
        let t = trimmed.as_str();
        let len = t.len();
        if len > self.config.max_contributor_tag_length {
            push_error(
                &mut errors,
                ValidationError::TooLong {
                    field: field("contributor_tag"),
                    max_length: self.config.max_contributor_tag_length,
                },
            );
        }
        if len < 2 {
            push_error(
                &mut errors,
                ValidationError::TooShort { field: field("contributor_tag"), min_length: 2 },
            );
        }
        if !self.patterns.contributor_tag.is_match(t) {
            push_error(&mut errors, ValidationError::InvalidFormat { field: field("contributor_tag") });
        }
        if self.contains_suspicious_patterns(t) {
            push_error(
                &mut errors,
                ValidationError::SecurityViolation {
                    field: field("contributor_tag"),
                    attack_type: field("injection"),
                },
            );
        }
        proof {
            assert(error_views(errors@) =~= tag_errors(tag@, self.config().max_contributor_tag_length));
        }
        let value = trim_str(tag);
        finish_text(errors, value)
    }

    /// Validates a PIN code; the accepted value is the trimmed code.
    pub fn validate_pin_code(&self, pin_code: &str) -> (r: ValidationResult<String>)
        ensures
            text_result(r, pin_errors(pin_code@), trim(pin_code@)),
    {
        proof {
            use_type_invariant(self);
        }
        let mut errors: Vec<ValidationError> = Vec::new();
        let trimmed = trim_str(pin_code);
        let t = trimmed.as_str();
        if !self.patterns.pin_code.is_match(t) {
            push_error(&mut errors, ValidationError::InvalidFormat { field: field("pin_code") });
        }
        if self.contains_suspicious_patterns(t) {
            push_error(
                &mut errors,
                ValidationError::SecurityViolation {
                    field: field("pin_code"),
                    attack_type: field("injection"),
                },
            );
        }
        proof {
            assert(error_views(errors@) =~= pin_errors(pin_code@));
        }
        finish_text(errors, trim_str(pin_code))
    }

    /// Validates user content of a kind (`description`, `comment`, or any
    /// other) for length, script injection and SQL injection; the accepted
    /// value is the trimmed content.
    pub fn validate_user_content(&self, content: &str, content_type: &str) -> (r: ValidationResult<String>)
        ensures
            text_result(r, content_errors(self.config(), content@, content_type@), trim(content@)),
    {
        proof {
            use_type_invariant(self);
        }
        let mut errors: Vec<ValidationError> = Vec::new();
        let trimmed = trim_str(content);
        let t = trimmed.as_str();
        let max_length = if str_eq(content_type, "description") {
            self.config.max_description_length
        } else if str_eq(content_type, "comment") {
            self.config.max_comment_length
        } else {
            1000
        };
        if t.len() > max_length {
            push_error(
                &mut errors,
                ValidationError::TooLong { field: String::from_str(content_type), max_length },
            );
        }
        if self.contains_xss_patterns(t) {
            push_error(
                &mut errors,
                ValidationError::SecurityViolation {
                    field: String::from_str(content_type),
                    attack_type: field("xss"),
                },
            );
        }
        if self.contains_sql_injection_patterns(t) {
            push_error(
                &mut errors,
                ValidationError::SecurityViolation {
                    field: String::from_str(content_type),
                    attack_type: field("sql_injection"),
                },
            );
        }
        proof {
            assert(error_views(errors@) =~= content_errors(self.config(), content@, content_type@));
        }
        finish_text(errors, trim_str(content))
    }

    /// Validates an uploaded image: size between 100 bytes and the limit,
    /// an allowed extension, and PNG, JPEG or WEBP magic numbers. The
    /// accepted value is a copy of the data.
    pub fn validate_file_upload(&self, file_data: &[u8], filename: &str) -> (r: ValidationResult<Vec<u8>>)
        ensures
            error_views(r.errors@) == file_errors(self.config(), file_data@, filename@),
            all_ascii(file_extension(filename@)) ==> unicode_lowercase(file_extension(filename@))
                == ascii_lowercase(file_extension(filename@)),
            r.is_valid == (r.errors@.len() == 0),
            r.is_valid ==> (r.value matches Some(v) && v@ == file_data@),
            !r.is_valid ==> r.value is None,
            r.warnings@.len() == 0,
    {
        let mut errors: Vec<ValidationError> = Vec::new();
        let size = file_data.len();
        if size > self.config.max_image_size_bytes {
            let mut reason = String::from_str("File size ");
            reason.append(usize_to_decimal(size).as_str());
            reason.append(" exceeds maximum ");
            reason.append(usize_to_decimal(self.config.max_image_size_bytes).as_str());
            push_error(&mut errors, ValidationError::FileValidation { reason });
        }
        if size < 100 {
            push_error(
                &mut errors,
                ValidationError::FileValidation { reason: field("File too small to be a valid image") },
            );
        }
        let extension = to_lowercase(extract_file_extension(filename).as_str());
        if !contains_string(&self.config.allowed_image_extensions, &extension) {
            let mut reason = String::from_str("File extension '");
            reason.append(extension.as_str());
            reason.append("' not allowed");
            push_error(&mut errors, ValidationError::FileValidation { reason });
        }
        if !is_valid_image_format(file_data) {
            push_error(
                &mut errors,
                ValidationError::FileValidation {
                    reason: field("File content does not match claimed image format"),
                },
            );
        }
        proof {
            assert(error_views(errors@) =~= file_errors(self.config(), file_data@, filename@));
        }
        let is_valid = errors.len() == 0;
        let value = if is_valid {
            Some(slice_to_vec(file_data))
        } else {
            None
        };
        ValidationResult { is_valid, value, errors, warnings: Vec::new() }
    }
}

fn slice_to_vec(data: &[u8]) -> (r: Vec<u8>)
    ensures
        r@ == data@,
{
    let mut v: Vec<u8> = Vec::new();
    let mut i: usize = 0;
    while i < data.len()
        invariant
            i <= data.len(),
            v@ == data@.take(i as int),
        decreases data.len() - i,
    {
        v.push(data[i]);
        proof {
            assert(v@ =~= data@.take(i + 1));
        }
        i = i + 1;
    }
    proof {
        assert(data@.take(data@.len() as int) == data@);
    }
    v
}

/// The content check of an upload: data of at least twelve bytes that
/// begins with the PNG signature `89 50 4E 47`, the JPEG start `FF D8 FF`,
/// or `RIFF` with `WEBP` at bytes 8 to 11, passes it; any other data is
/// refused as not matching its claimed format. So an upload within the
/// size limits, with an allowed extension and one of these beginnings,
/// has no error at all.
pub proof fn lemma_image_content_check(c: ValidationConfig, data: Seq<u8>, name: Seq<char>)
    ensures
        ({
            let magic = data.len() >= 12 && ((data[0] == 0x89 && data[1] == 0x50 && data[2] == 0x4E
                && data[3] == 0x47) || (data[0] == 0xFF && data[1] == 0xD8 && data[2] == 0xFF) || (
            data[0] == 0x52 && data[1] == 0x49 && data[2] == 0x46 && data[3] == 0x46 && data[8]
                == 0x57 && data[9] == 0x45 && data[10] == 0x42 && data[11] == 0x50));
            &&& !magic ==> file_errors(c, data, name).contains(
                ErrorView::FileValidation {
                    reason: "File content does not match claimed image format"@,
                },
            )
            &&& magic && 100 <= data.len() <= c.max_image_size_bytes
                && c.allowed_image_extensions.deep_view().contains(
                unicode_lowercase(file_extension(name)),
            ) ==> file_errors(c, data, name).len() == 0
        }),
{
    let errs = file_errors(c, data, name);
    let e = ErrorView::FileValidation {
        reason: "File content does not match claimed image format"@,
    };
    if !is_image_data(data) {
        assert(errs[errs.len() - 1] == e);
    }
}

} // verus!
