//! Automatic moderation of user comments: the comment text is normalised,
//! matched against term lists, scored, and the score decides whether the
//! comment stays visible, is flagged for review, or is hidden.
use vstd::prelude::*;
use vstd::string::*;
use crate::text::{starts_with_chars, count_char_exec, ascii_alpha, ascii_upper, str_eq, contains_chars, to_chars, ascii_alnum, unicode_whitespace, to_ascii_lower, split_whitespace, chars_to_string, contains_seq, split_words, join_words, is_ascii_alnum, is_unicode_whitespace, ascii_lower, is_ascii_upper, is_ascii_alpha, count_char, starts_with_seq};

verus! {

/// The outcome of assessing one comment.
pub struct CommentModerationAssessment {
    pub status: String,
    pub moderation_score: i32,
    pub moderation_flags: Vec<String>,
    pub auto_flagged: bool,
    pub needs_review: bool,
    pub review_priority: i32,
    pub moderation_reason: Option<String>,
    pub moderated_by: Option<String>,
}

/// The moderation fields stored with a new comment.
#[derive(Debug, Clone)]
pub struct CommentModerationInput {
    pub status: String,
    pub moderation_score: i32,
    pub moderation_flags: Vec<String>,
    pub auto_flagged: bool,
    pub needs_review: bool,
    pub review_priority: i32,
    pub moderated_by: Option<String>,
    pub moderation_reason: Option<String>,
}

/// An assessment with its strings taken as character sequences.
pub struct AssessmentView {
    pub status: Seq<char>,
    pub moderation_score: int,
    pub moderation_flags: Seq<Seq<char>>,
    pub auto_flagged: bool,
    pub needs_review: bool,
    pub review_priority: int,
    pub moderation_reason: Option<Seq<char>>,
    pub moderated_by: Option<Seq<char>>,
}

pub open spec fn opt_view(o: Option<String>) -> Option<Seq<char>> {
    match o {
        Some(s) => Some(s@),
        None => None,
    }
}

impl View for CommentModerationAssessment {
    type V = AssessmentView;

    open spec fn view(&self) -> AssessmentView {
        AssessmentView {
            status: self.status@,
            moderation_score: self.moderation_score as int,
            moderation_flags: self.moderation_flags.deep_view(),
            auto_flagged: self.auto_flagged,
            needs_review: self.needs_review,
            review_priority: self.review_priority as int,
            moderation_reason: opt_view(self.moderation_reason),
            moderated_by: opt_view(self.moderated_by),
        }
    }
}

impl Default for CommentModerationAssessment {
    /// A visible comment with no score and no flags.
    fn default() -> (r: Self)
        ensures
            r@ == (AssessmentView {
                status: "VISIBLE"@,
                moderation_score: 0,
                moderation_flags: seq![],
                auto_flagged: false,
                needs_review: false,
                review_priority: 0,
                moderation_reason: None,
                moderated_by: None,
            }),
    {
        let flags: Vec<String> = Vec::new();
        proof {
            assert(flags.deep_view() =~= Seq::<Seq<char>>::empty());
        }
        CommentModerationAssessment {
            status: String::from_str("VISIBLE"),
            moderation_score: 0,
            moderation_flags: flags,
            auto_flagged: false,
            needs_review: false,
            review_priority: 0,
            moderation_reason: None,
            moderated_by: None,
        }
    }
}

// ---------------------------------------------------------------------
// Term lists
// ---------------------------------------------------------------------

pub open spec fn severe_terms() -> Seq<Seq<char>> {
    seq![
        "hate speech"@,
        "kill yourself"@,
        "go die"@,
        "lynch"@,
        "genocide"@,
        "rape"@,
        "terrorist"@,
    ]
}

pub open spec fn harassment_terms() -> Seq<Seq<char>> {
    seq!["idiot"@, "stupid"@, "moron"@, "loser"@, "shut up"@, "dumb"@, "trash"@]
}

pub open spec fn profanity_terms() -> Seq<Seq<char>> {
    seq!["f**k"@, "fuk"@, "fk"@, "shit"@, "bitch"@, "asshole"@, "bastard"@]
}

pub open spec fn sexual_explicit_terms() -> Seq<Seq<char>> {
    seq!["nude"@, "naked"@, "porn"@, "sex"@, "sext"@]
}

pub open spec fn self_harm_terms() -> Seq<Seq<char>> {
    seq!["suicide"@, "self harm"@, "hurt yourself"@, "end your life"@]
}

pub open spec fn spam_terms() -> Seq<Seq<char>> {
    seq![
        "buy now"@,
        "free money"@,
        "click here"@,
        "crypto giveaway"@,
        "telegram"@,
        "whatsapp me"@,
    ]
}

pub open spec fn str_views(v: Seq<&str>) -> Seq<Seq<char>> {
    v.map_values(|t: &str| t@)
}

fn severe_term_list() -> (v: Vec<&'static str>)
    ensures
        str_views(v@) == severe_terms(),
{
    let v = vec!["hate speech", "kill yourself", "go die", "lynch", "genocide", "rape", "terrorist"];
    proof {
        assert(str_views(v@) =~= severe_terms());
    }
    v
}

fn harassment_term_list() -> (v: Vec<&'static str>)
    ensures
        str_views(v@) == harassment_terms(),
{
    let v = vec!["idiot", "stupid", "moron", "loser", "shut up", "dumb", "trash"];
    proof {
        assert(str_views(v@) =~= harassment_terms());
    }
    v
}

fn profanity_term_list() -> (v: Vec<&'static str>)
    ensures
        str_views(v@) == profanity_terms(),
{
    let v = vec!["f**k", "fuk", "fk", "shit", "bitch", "asshole", "bastard"];
    proof {
        assert(str_views(v@) =~= profanity_terms());
    }
    v
}

fn sexual_explicit_term_list() -> (v: Vec<&'static str>)
    ensures
        str_views(v@) == sexual_explicit_terms(),
{
    let v = vec!["nude", "naked", "porn", "sex", "sext"];
    proof {
        assert(str_views(v@) =~= sexual_explicit_terms());
    }
    v
}

fn self_harm_term_list() -> (v: Vec<&'static str>)
    ensures
        str_views(v@) == self_harm_terms(),
{
    let v = vec!["suicide", "self harm", "hurt yourself", "end your life"];
    proof {
        assert(str_views(v@) =~= self_harm_terms());
    }
    v
}

fn spam_term_list() -> (v: Vec<&'static str>)
    ensures
        str_views(v@) == spam_terms(),
{
    let v = vec!["buy now", "free money", "click here", "crypto giveaway", "telegram", "whatsapp me"];
    proof {
        assert(str_views(v@) =~= spam_terms());
    }
    v
}

// ---------------------------------------------------------------------
// Normalisation
// ---------------------------------------------------------------------

/// How one character of a comment is normalised: ASCII letters and digits
/// and whitespace are kept (letters lowered), anything else becomes a space.
pub open spec fn normalize_char(c: char) -> char {
    if is_ascii_alnum(c) || is_unicode_whitespace(c) {
        ascii_lower(c)
    } else {
        ' '
    }
}

/// The normalised text: the words of the mapped characters joined by
/// single spaces.
pub open spec fn normalized_text(s: Seq<char>) -> Seq<char> {
    join_words(split_words(s.map_values(|c: char| normalize_char(c))))
}

/// Joins words with single spaces.
pub fn join_with_spaces(words: &Vec<Vec<char>>) -> (r: Vec<char>)
    ensures
        r@ == join_words(words.deep_view()),
{
    let mut r: Vec<char> = Vec::new();
    let mut i: usize = 0;
    while i < words.len()
        invariant
            i <= words.len(),
            r@ == join_words(words.deep_view().take(i as int)),
        decreases words.len() - i,
    {
        let ghost prev = words.deep_view().take(i as int);
        proof {
            assert(words.deep_view().take(i + 1) == prev.push(words.deep_view()[i as int]));
            crate::text::lemma_join_push(prev, words.deep_view()[i as int]);
        }
        if i > 0 {
            r.push(' ');
        }
        let w = &words[i];
        let mut j: usize = 0;
        let ghost base = r@;
        while j < w.len()
            invariant
                j <= w.len(),
                r@ == base + w@.take(j as int),
            decreases w.len() - j,
        {
            r.push(w[j]);
            proof {
                assert(w@.take(j + 1) == w@.take(j as int).push(w@[j as int]));
                assert((base + w@.take(j as int)).push(w@[j as int]) =~= base + w@.take(j + 1));
            }
            j = j + 1;
        }
        proof {
            assert(w@.take(w@.len() as int) == w@);
            assert(w.deep_view() =~= w@);
            assert(words.deep_view()[i as int] == w.deep_view());
            if i == 0 {
                assert(base =~= Seq::<char>::empty());
                assert(r@ =~= w@);
            } else {
                assert(base =~= join_words(prev) + seq![' ']);
                assert(r@ =~= join_words(prev) + seq![' '] + w@);
            }
        }
        i = i + 1;
    }
    proof {
        assert(words.deep_view().take(words.len() as int) == words.deep_view());
    }
    r
}

/// Lower-cases ASCII letters and digits, keeps whitespace, replaces every
/// other character with a space, then collapses whitespace runs to single
/// spaces and drops leading and trailing whitespace.
pub fn normalize_text(input: &str) -> (r: String)
    ensures
        r@ == normalized_text(input@),
{
    let chars = to_chars(input);
    let mut mapped: Vec<char> = Vec::new();
    let mut i: usize = 0;
    while i < chars.len()
        invariant
            i <= chars.len(),
            chars@ == input@,
            mapped@ == input@.take(i as int).map_values(|c: char| normalize_char(c)),
        decreases chars.len() - i,
    {
        let ch = chars[i];
        let m = if ascii_alnum(ch) || unicode_whitespace(ch) {
            to_ascii_lower(ch)
        } else {
            ' '
        };
        mapped.push(m);
        proof {
            assert(input@.take(i + 1).map_values(|c: char| normalize_char(c)) =~= input@.take(
                i as int,
            ).map_values(|c: char| normalize_char(c)).push(m));
        }
        i = i + 1;
    }
    proof {
        assert(input@.take(input@.len() as int) == input@);
    }
    let words = split_whitespace(&mapped);
    let joined = join_with_spaces(&words);
    chars_to_string(&joined)
}

// ---------------------------------------------------------------------
// Term matching and scoring
// ---------------------------------------------------------------------

pub open spec fn string_views(v: Seq<String>) -> Seq<Seq<char>> {
    v.map_values(|t: String| t@)
}

/// A term with a space in it is matched as a phrase, any other term as a
/// whole word.
pub open spec fn is_phrase(term: Seq<char>) -> bool {
    term.contains(' ')
}

/// Whether `term` is found: a phrase anywhere in the normalised text, a
/// single word among the tokens.
pub open spec fn term_hits(normalized: Seq<char>, tokens: Seq<Seq<char>>, term: Seq<char>) -> bool {
    if is_phrase(term) {
        contains_seq(normalized, term)
    } else {
        tokens.contains(term)
    }
}

/// The terms of a list that are found, in list order.
pub open spec fn category_hits(
    normalized: Seq<char>,
    tokens: Seq<Seq<char>>,
    terms: Seq<Seq<char>>,
) -> Seq<Seq<char>>
    decreases terms.len(),
{
    if terms.len() == 0 {
        seq![]
    } else {
        let earlier = category_hits(normalized, tokens, terms.drop_last());
        if term_hits(normalized, tokens, terms.last()) {
            earlier.push(terms.last())
        } else {
            earlier
        }
    }
}

pub proof fn lemma_category_hits_len(normalized: Seq<char>, tokens: Seq<Seq<char>>, terms: Seq<Seq<char>>)
    ensures
        category_hits(normalized, tokens, terms).len() <= terms.len(),
    decreases terms.len(),
{
    if terms.len() > 0 {
        lemma_category_hits_len(normalized, tokens, terms.drop_last());
    }
}

/// The flag recorded for a term found in a category: `PREFIX:term`.
pub open spec fn flag_text(prefix: Seq<char>, term: Seq<char>) -> Seq<char> {
    prefix + ":"@ + term
}

pub open spec fn category_flags(prefix: Seq<char>, hits: Seq<Seq<char>>) -> Seq<Seq<char>> {
    hits.map_values(|t: Seq<char>| flag_text(prefix, t))
}

/// Whether one of the tokens equals `term`.
pub fn contains_single_word(tokens: &[String], term: &str) -> (r: bool)
    ensures
        r == string_views(tokens@).contains(term@),
{
    let mut i: usize = 0;
    while i < tokens.len()
        invariant
            i <= tokens.len(),
            forall|j: int| 0 <= j < i ==> tokens@[j]@ != term@,
        decreases tokens.len() - i,
    {
        if str_eq(tokens[i].as_str(), term) {
            proof {
                assert(string_views(tokens@)[i as int] == term@);
            }
            return true;
        }
        i = i + 1;
    }
    proof {
        assert forall|j: int| 0 <= j < string_views(tokens@).len() implies string_views(
            tokens@,
        )[j] != term@ by {
            assert(string_views(tokens@)[j] == tokens@[j]@);
        }
    }
    false
}

/// Whether `term` occurs anywhere in the normalised text.
pub fn contains_phrase(normalized: &str, term: &str) -> (r: bool)
    ensures
        r == contains_seq(normalized@, term@),
{
    let hay = to_chars(normalized);
    let needle = to_chars(term);
    contains_chars(&hay, &needle)
}

fn has_space(term: &str) -> (r: bool)
    ensures
        r == is_phrase(term@),
{
    let chars = to_chars(term);
    let mut i: usize = 0;
    while i < chars.len()
        invariant
            i <= chars.len(),
            chars@ == term@,
            forall|j: int| 0 <= j < i ==> chars@[j] != ' ',
        decreases chars.len() - i,
    {
        if chars[i] == ' ' {
            proof {
                assert(term@[i as int] == ' ');
            }
            return true;
        }
        i = i + 1;
    }
    false
}

/// The text `prefix:term`.
fn make_flag(prefix: &str, term: &str) -> (r: String)
    ensures
        r@ == flag_text(prefix@, term@),
{
    let mut f = String::from_str(prefix);
    f.append(":");
    f.append(term);
    f
}

/// Scores one category: every term of `terms` that is found adds
/// `score_each` to the total and appends `flag_prefix:term` to `out_flags`.
pub fn score_category(
    normalized: &str,
    tokens: &[String],
    terms: &[&str],
    score_each: i32,
    flag_prefix: &str,
    out_flags: &mut Vec<String>,
) -> (total: i32)
    requires
        i32::MIN <= score_each * terms@.len() <= i32::MAX,
    ensures
        total == score_each * category_hits(normalized@, string_views(tokens@), str_views(terms@)).len(),
        final(out_flags).deep_view() == old(out_flags).deep_view() + category_flags(
            flag_prefix@,
            category_hits(normalized@, string_views(tokens@), str_views(terms@)),
        ),
{
    let ghost toks = string_views(tokens@);
    let ghost all_terms = str_views(terms@);
    let ghost start = out_flags.deep_view();
    let mut total: i32 = 0;
    let mut k: usize = 0;
    while k < terms.len()
        invariant
            k <= terms.len(),
            i32::MIN <= score_each * terms@.len() <= i32::MAX,
            toks == string_views(tokens@),
            all_terms == str_views(terms@),
            total == score_each * category_hits(normalized@, toks, all_terms.take(k as int)).len(),
            out_flags.deep_view() == start + category_flags(
                flag_prefix@,
                category_hits(normalized@, toks, all_terms.take(k as int)),
            ),
        decreases terms.len() - k,
    {
        let term = terms[k];
        let ghost prev = category_hits(normalized@, toks, all_terms.take(k as int));
        proof {
            assert(all_terms.take(k + 1).drop_last() =~= all_terms.take(k as int));
            assert(all_terms.take(k + 1).last() == term@);
            lemma_category_hits_len(normalized@, toks, all_terms.take(k as int));
            assert(prev.len() <= k);
            assert(score_each * (prev.len() + 1) == score_each * prev.len() + score_each)
                by (nonlinear_arith);
            let n: int = terms@.len() as int;
            let p: int = prev.len() as int + 1;
            if score_each >= 0 {
                assert(0 <= score_each * p <= score_each * n) by (nonlinear_arith)
                    requires
                        0 <= score_each,
                        0 <= p <= n,
                ;
            } else {
                assert(score_each * n <= score_each * p <= 0) by (nonlinear_arith)
                    requires
                        score_each < 0,
                        0 <= p <= n,
                ;
            }
        }
        let hit = if has_space(term) {
            contains_phrase(normalized, term)
        } else {
            contains_single_word(tokens, term)
        };
        if hit {
            total = total + score_each;
            let flag = make_flag(flag_prefix, term);
            let ghost before = out_flags.deep_view();
            let ghost fv = flag@;
            out_flags.push(flag);
            proof {
                assert(out_flags.deep_view() =~= before.push(fv));
                assert(category_flags(flag_prefix@, prev.push(term@)) =~= category_flags(
                    flag_prefix@,
                    prev,
                ).push(fv));
            }
        }
        k = k + 1;
    }
    proof {
        assert(all_terms.take(terms@.len() as int) == all_terms);
    }
    total
}

// ---------------------------------------------------------------------
// The assessment
// ---------------------------------------------------------------------

/// Number of ASCII upper-case letters.
pub open spec fn count_upper(s: Seq<char>) -> nat
    decreases s.len(),
{
    if s.len() == 0 {
        0
    } else {
        count_upper(s.drop_last()) + if is_ascii_upper(s.last()) {
            1nat
        } else {
            0nat
        }
    }
}

/// Number of ASCII letters.
pub open spec fn count_alpha(s: Seq<char>) -> nat
    decreases s.len(),
{
    if s.len() == 0 {
        0
    } else {
        count_alpha(s.drop_last()) + if is_ascii_alpha(s.last()) {
            1nat
        } else {
            0nat
        }
    }
}

/// The terms of a list found in a comment.
pub open spec fn hits_in(content: Seq<char>, terms: Seq<Seq<char>>) -> Seq<Seq<char>> {
    let normalized = normalized_text(content);
    category_hits(normalized, split_words(normalized), terms)
}

/// The comment links to a web address.
pub open spec fn has_url(content: Seq<char>) -> bool {
    contains_seq(content, "http://"@) || contains_seq(content, "https://"@)
}

/// At least ten ASCII letters, more than four fifths of them upper case.
pub open spec fn is_shouting(content: Seq<char>) -> bool {
    count_alpha(content) >= 10 && 5 * count_upper(content) > 4 * count_alpha(content)
}

/// At least five exclamation marks.
pub open spec fn is_aggressive(content: Seq<char>) -> bool {
    count_char(content, '!') >= 5
}

pub open spec fn bonus(b: bool, points: int) -> int {
    if b {
        points
    } else {
        0
    }
}

/// The points that the term lists give a comment.
pub open spec fn term_score(content: Seq<char>) -> int {
    90 * hits_in(content, severe_terms()).len() + 80 * hits_in(content, self_harm_terms()).len()
        + 55 * hits_in(content, sexual_explicit_terms()).len() + 35 * hits_in(
        content,
        harassment_terms(),
    ).len() + 30 * hits_in(content, profanity_terms()).len() + 40 * hits_in(
        content,
        spam_terms(),
    ).len() as int
}

/// The score before it is clamped.
pub open spec fn raw_score(content: Seq<char>) -> int {
    term_score(content) + bonus(has_url(content), 25) + bonus(is_shouting(content), 15) + bonus(
        is_aggressive(content),
        10,
    )
}

pub open spec fn clamp_percent(x: int) -> int {
    if x < 0 {
        0
    } else if x > 100 {
        100
    } else {
        x
    }
}

pub open spec fn flag_if(b: bool, flag: Seq<char>) -> Seq<Seq<char>> {
    if b {
        seq![flag]
    } else {
        seq![]
    }
}

/// The flags that the term lists give a comment, in list order.
pub open spec fn term_flags(content: Seq<char>) -> Seq<Seq<char>> {
    category_flags("SEVERE"@, hits_in(content, severe_terms())) + category_flags(
        "SELF_HARM"@,
        hits_in(content, self_harm_terms()),
    ) + category_flags("SEXUAL"@, hits_in(content, sexual_explicit_terms())) + category_flags(
        "HARASSMENT"@,
        hits_in(content, harassment_terms()),
    ) + category_flags("PROFANITY"@, hits_in(content, profanity_terms())) + category_flags(
        "SPAM"@,
        hits_in(content, spam_terms()),
    )
}

/// All flags of a comment, in the order the categories are checked.
pub open spec fn assessment_flags(content: Seq<char>) -> Seq<Seq<char>> {
    term_flags(content) + flag_if(has_url(content), "SPAM:url"@) + flag_if(is_shouting(content), "ABUSE:all_caps"@)
        + flag_if(is_aggressive(content), "ABUSE:aggressive_punctuation"@)
}

pub open spec fn some_flag_starts_with(flags: Seq<Seq<char>>, prefix: Seq<char>) -> bool {
    exists|i: int| 0 <= i < flags.len() && starts_with_seq(flags[i], prefix)
}

/// The assessment of a comment's text.
pub open spec fn assessment_of(content: Seq<char>) -> AssessmentView {
    let score = clamp_percent(raw_score(content));
    let flags = assessment_flags(content);
    let auto_flagged = score >= 80 || some_flag_starts_with(flags, "SEVERE"@);
    let needs_review = auto_flagged || score >= 40 || flags.len() > 0;
    AssessmentView {
        status: if auto_flagged {
            "HIDDEN"@
        } else {
            "VISIBLE"@
        },
        moderation_score: score,
        moderation_flags: flags,
        auto_flagged,
        needs_review,
        review_priority: clamp_percent(
            if needs_review {
                score + bonus(auto_flagged, 20)
            } else {
                0
            },
        ),
        moderation_reason: if auto_flagged {
            Some("Auto-hidden by moderation for potentially harmful/offensive content"@)
        } else if needs_review {
            Some("Flagged for moderator review"@)
        } else {
            None
        },
        moderated_by: if auto_flagged {
            Some("AUTO_MODERATOR"@)
        } else {
            None
        },
    }
}

proof fn lemma_count_bounds(s: Seq<char>)
    ensures
        count_upper(s) <= count_alpha(s),
        count_alpha(s) <= s.len(),
    decreases s.len(),
{
    if s.len() > 0 {
        lemma_count_bounds(s.drop_last());
    }
}

fn letter_counts(chars: &Vec<char>) -> (r: (usize, usize))
    ensures
        r.0 == count_upper(chars@),
        r.1 == count_alpha(chars@),
{
    let mut upper: usize = 0;
    let mut alpha: usize = 0;
    let mut i: usize = 0;
    while i < chars.len()
        invariant
            i <= chars.len(),
            upper == count_upper(chars@.take(i as int)),
            alpha == count_alpha(chars@.take(i as int)),
        decreases chars.len() - i,
    {
        proof {
            assert(chars@.take(i + 1).drop_last() == chars@.take(i as int));
            lemma_count_bounds(chars@.take(i as int));
        }
        if ascii_alpha(chars[i]) {
            alpha = alpha + 1;
            if ascii_upper(chars[i]) {
                upper = upper + 1;
            }
        }
        i = i + 1;
    }
    proof {
        assert(chars@.take(chars@.len() as int) == chars@);
    }
    (upper, alpha)
}

fn strings_of(words: &Vec<Vec<char>>) -> (r: Vec<String>)
    ensures
        string_views(r@) == words.deep_view(),
{
    let mut r: Vec<String> = Vec::new();
    let mut i: usize = 0;
    while i < words.len()
        invariant
            i <= words.len(),
            string_views(r@) == words.deep_view().take(i as int),
        decreases words.len() - i,
    {
        let w = chars_to_string(&words[i]);
        proof {
            assert(words[i as int].deep_view() =~= words[i as int]@);
            assert(words.deep_view()[i as int] == words[i as int]@);
            assert(words.deep_view().take(i + 1) =~= words.deep_view().take(i as int).push(w@));
        }
        r.push(w);
        proof {
            assert(string_views(r@) =~= words.deep_view().take(i + 1));
        }
        i = i + 1;
    }
    proof {
        assert(words.deep_view().take(words.len() as int) == words.deep_view());
    }
    r
}

fn any_flag_starts_with(flags: &Vec<String>, prefix: &str) -> (r: bool)
    ensures
        r == some_flag_starts_with(flags.deep_view(), prefix@),
{
    let p = to_chars(prefix);
    let mut i: usize = 0;
    while i < flags.len()
        invariant
            i <= flags.len(),
            p@ == prefix@,
            forall|j: int| 0 <= j < i ==> !starts_with_seq(flags.deep_view()[j], prefix@),
        decreases flags.len() - i,
    {
        let f = to_chars(flags[i].as_str());
        proof {
            assert(flags.deep_view()[i as int] == flags@[i as int]@);
        }
        if starts_with_chars(&f, &p) {
            return true;
        }
        i = i + 1;
    }
    false
}

fn push_flag(flags: &mut Vec<String>, text: &str)
    ensures
        final(flags).deep_view() == old(flags).deep_view().push(text@),
{
    let ghost before = flags.deep_view();
    flags.push(String::from_str(text));
    proof {
        assert(flags.deep_view() =~= before.push(text@));
    }
}

fn score_terms(content: &str) -> (r: (i32, Vec<String>))
    ensures
        r.0 == term_score(content@),
        r.1.deep_view() == term_flags(content@),
        0 <= r.0 <= 1920,
{
    let normalized = normalize_text(content);
    let nchars = to_chars(normalized.as_str());
    let token_chars = split_whitespace(&nchars);
    let tokens = strings_of(&token_chars);
    let ghost norm = normalized_text(content@);
    let ghost toks = split_words(norm);
    let mut flags: Vec<String> = Vec::new();
    proof {
        assert(flags.deep_view() =~= Seq::<Seq<char>>::empty());
        assert(string_views(tokens@) == toks);
    }
    let severe = severe_term_list();
    let self_harm = self_harm_term_list();
    let sexual = sexual_explicit_term_list();
    let harassment = harassment_term_list();
    let profanity = profanity_term_list();
    let spam = spam_term_list();
    proof {
        assert(severe@.len() == 7) by {
            assert(str_views(severe@).len() == severe@.len());
        }
        assert(self_harm@.len() == 4) by {
            assert(str_views(self_harm@).len() == self_harm@.len());
        }
        assert(sexual@.len() == 5) by {
            assert(str_views(sexual@).len() == sexual@.len());
        }
        assert(harassment@.len() == 7) by {
            assert(str_views(harassment@).len() == harassment@.len());
        }
        assert(profanity@.len() == 7) by {
            assert(str_views(profanity@).len() == profanity@.len());
        }
        assert(spam@.len() == 6) by {
            assert(str_views(spam@).len() == spam@.len());
        }
        lemma_category_hits_len(norm, toks, severe_terms());
        lemma_category_hits_len(norm, toks, self_harm_terms());
        lemma_category_hits_len(norm, toks, sexual_explicit_terms());
        lemma_category_hits_len(norm, toks, harassment_terms());
        lemma_category_hits_len(norm, toks, profanity_terms());
        lemma_category_hits_len(norm, toks, spam_terms());
    }
    let s1 = score_category(&normalized, tokens.as_slice(), severe.as_slice(), 90, "SEVERE", &mut flags);
    let s2 = score_category(&normalized, tokens.as_slice(), self_harm.as_slice(), 80, "SELF_HARM", &mut flags);
    let s3 = score_category(&normalized, tokens.as_slice(), sexual.as_slice(), 55, "SEXUAL", &mut flags);
    let s4 = score_category(&normalized, tokens.as_slice(), harassment.as_slice(), 35, "HARASSMENT", &mut flags);
    let s5 = score_category(&normalized, tokens.as_slice(), profanity.as_slice(), 30, "PROFANITY", &mut flags);
    let s6 = score_category(&normalized, tokens.as_slice(), spam.as_slice(), 40, "SPAM", &mut flags);
    proof {
        assert(flags.deep_view() =~= term_flags(content@));
    }
    (s1 + s2 + s3 + s4 + s5 + s6, flags)
}

/// Assesses a comment: scores it against the term lists, links, shouting
/// and repeated exclamation marks, and decides from the score whether it
/// is hidden, flagged for review, or left visible.
pub fn assess_comment_content(content: &str) -> (r: CommentModerationAssessment)
    ensures
        r@ == assessment_of(content@),
{
    let (mut score, mut flags) = score_terms(content);
    let ghost c = content@;
    let url = contains_phrase(content, "http://") || contains_phrase(content, "https://");
    if url {
        score = score + 25;
        push_flag(&mut flags, "SPAM:url");
    }
    proof {
        assert(url == has_url(c));
        assert(flags.deep_view() =~= term_flags(c) + flag_if(has_url(c), "SPAM:url"@));
        assert(score == term_score(c) + bonus(has_url(c), 25));
    }
    let chars = to_chars(content);
    let (upper, alpha) = letter_counts(&chars);
    proof {
        lemma_count_bounds(content@);
    }
    let shouting = alpha >= 10 && (upper as u128) * 5 > (alpha as u128) * 4;
    if shouting {
        score = score + 15;
        push_flag(&mut flags, "ABUSE:all_caps");
    }
    proof {
        assert(shouting == is_shouting(c));
        assert(flags.deep_view() =~= term_flags(c) + flag_if(has_url(c), "SPAM:url"@) + flag_if(
            is_shouting(c),
            "ABUSE:all_caps"@,
        ));
    }
    let aggressive = count_char_exec(&chars, '!') >= 5;
    if aggressive {
        score = score + 10;
        push_flag(&mut flags, "ABUSE:aggressive_punctuation");
    }
    proof {
        assert(aggressive == is_aggressive(c));
        assert(flags.deep_view() =~= assessment_flags(c));
        assert(raw_score(c) == score as int);
    }
    let score: i32 = if score < 0 {
        0
    } else if score > 100 {
        100
    } else {
        score
    };
    let auto_flagged = score >= 80 || any_flag_starts_with(&flags, "SEVERE");
    let needs_review = auto_flagged || score >= 40 || flags.len() > 0;
    let status = if auto_flagged {
        String::from_str("HIDDEN")
    } else {
        String::from_str("VISIBLE")
    };
    let moderation_reason = if auto_flagged {
        Some(String::from_str("Auto-hidden by moderation for potentially harmful/offensive content"))
    } else if needs_review {
        Some(String::from_str("Flagged for moderator review"))
    } else {
        None
    };
    let base_priority: i32 = if needs_review {
        score + if auto_flagged {
            20
        } else {
            0
        }
    } else {
        0
    };
    let review_priority: i32 = if base_priority < 0 {
        0
    } else if base_priority > 100 {
        100
    } else {
        base_priority
    };
    let moderated_by = if auto_flagged {
        Some(String::from_str("AUTO_MODERATOR"))
    } else {
        None
    };
    CommentModerationAssessment {
        status,
        moderation_score: score,
        moderation_flags: flags,
        auto_flagged,
        needs_review,
        review_priority,
        moderation_reason,
        moderated_by,
    }
}

// ---------------------------------------------------------------------
// Properties of every assessment
// ---------------------------------------------------------------------

proof fn lemma_flag_count(content: Seq<char>)
    ensures
        assessment_flags(content).len() == hits_in(content, severe_terms()).len() + hits_in(
            content,
            self_harm_terms(),
        ).len() + hits_in(content, sexual_explicit_terms()).len() + hits_in(
            content,
            harassment_terms(),
        ).len() + hits_in(content, profanity_terms()).len() + hits_in(content, spam_terms()).len()
            + bonus(has_url(content), 1) + bonus(is_shouting(content), 1) + bonus(
            is_aggressive(content),
            1,
        ),
{
}

proof fn lemma_raw_score_positive_iff_flagged(content: Seq<char>)
    ensures
        raw_score(content) >= 0,
        raw_score(content) == 0 <==> assessment_flags(content).len() == 0,
        assessment_flags(content).len() > 0 ==> raw_score(content) >= 10,
{
    lemma_flag_count(content);
}

/// The moderation score of every comment lies between 0 and 100.
pub proof fn lemma_score_in_range(content: Seq<char>)
    ensures
        0 <= assessment_of(content).moderation_score <= 100,
{
}

/// A comment is hidden exactly when it is auto-flagged, and then it is
/// always flagged for review, attributed to the automatic moderator, and
/// given the auto-hide reason.
pub proof fn lemma_hidden_iff_auto_flagged(content: Seq<char>)
    ensures
        assessment_of(content).status == (if assessment_of(content).auto_flagged {
            "HIDDEN"@
        } else {
            "VISIBLE"@
        }),
        assessment_of(content).auto_flagged ==> assessment_of(content).needs_review,
        (assessment_of(content).moderated_by is Some) == assessment_of(content).auto_flagged,
        (assessment_of(content).moderation_reason is Some) == assessment_of(content).needs_review,
{
}

/// A comment needs review exactly when at least one flag was raised, and
/// its review priority is then positive; otherwise the priority is zero.
/// The priority always lies between 0 and 100.
pub proof fn lemma_review_iff_flagged(content: Seq<char>)
    ensures
        assessment_of(content).needs_review <==> assessment_of(content).moderation_flags.len() > 0,
        0 <= assessment_of(content).review_priority <= 100,
        assessment_of(content).review_priority > 0 <==> assessment_of(content).needs_review,
{
    lemma_raw_score_positive_iff_flagged(content);
}

/// A comment in which any severe term is found is hidden.
pub proof fn lemma_severe_term_hides(content: Seq<char>)
    requires
        hits_in(content, severe_terms()).len() > 0,
    ensures
        assessment_of(content).auto_flagged,
        assessment_of(content).status == "HIDDEN"@,
{
    let flags = assessment_flags(content);
    let first = hits_in(content, severe_terms())[0];
    assert(flags[0] == flag_text("SEVERE"@, first));
    assert(flag_text("SEVERE"@, first).subrange(0, "SEVERE"@.len() as int) =~= "SEVERE"@);
    assert(starts_with_seq(flags[0], "SEVERE"@));
}

/// A listed term is found in a normalised text with these
/// whitespace-separated tokens: a term holding a space occurs somewhere in
/// the text; any other term equals one of the tokens.
pub open spec fn found_in(normalized: Seq<char>, tokens: Seq<Seq<char>>, term: Seq<char>) -> bool {
    if exists|i: int| 0 <= i < term.len() && term[i] == ' ' {
        exists|k: int|
            0 <= k && k + term.len() <= normalized.len() && #[trigger] normalized.subrange(
                k,
                k + term.len(),
            ) == term
    } else {
        exists|j: int| 0 <= j < tokens.len() && tokens[j] == term
    }
}

/// What a category finds: every term it reports is a listed term that is
/// found, and every listed term that is found is reported. A single word
/// counts only as a whole token, never as a part of a longer word.
pub proof fn lemma_category_hits_are_found_terms(
    normalized: Seq<char>,
    tokens: Seq<Seq<char>>,
    terms: Seq<Seq<char>>,
)
    ensures
        forall|j: int|
            0 <= j < category_hits(normalized, tokens, terms).len() ==> found_in(
                normalized,
                tokens,
                #[trigger] category_hits(normalized, tokens, terms)[j],
            ) && terms.contains(category_hits(normalized, tokens, terms)[j]),
        forall|i: int|
            0 <= i < terms.len() ==> (category_hits(normalized, tokens, terms).contains(
                #[trigger] terms[i],
            ) <==> found_in(normalized, tokens, terms[i])),
    decreases terms.len(),
{
    if terms.len() > 0 {
        let rest = terms.drop_last();
        let t = terms.last();
        lemma_category_hits_are_found_terms(normalized, tokens, rest);
        lemma_term_hits_is_found(normalized, tokens, t);
        let hits = category_hits(normalized, tokens, terms);
        let earlier = category_hits(normalized, tokens, rest);
        assert forall|j: int| 0 <= j < hits.len() implies found_in(normalized, tokens, #[trigger] hits[j])
            && terms.contains(hits[j]) by {
            if j < earlier.len() {
                assert(hits[j] == earlier[j]);
                let k = choose|k: int| 0 <= k < rest.len() && rest[k] == earlier[j];
                assert(terms[k] == rest[k]);
            } else {
                assert(hits[j] == t);
                assert(terms[terms.len() - 1] == t);
            }
        }
        assert forall|i: int| 0 <= i < terms.len() implies (hits.contains(#[trigger] terms[i])
            <==> found_in(normalized, tokens, terms[i])) by {
            if hits.contains(terms[i]) {
                let j = choose|j: int| 0 <= j < hits.len() && hits[j] == terms[i];
                assert(found_in(normalized, tokens, hits[j]));
            }
            if found_in(normalized, tokens, terms[i]) {
                if i < rest.len() {
                    assert(rest[i] == terms[i]);
                    assert(earlier.contains(rest[i]));
                    let j = choose|j: int| 0 <= j < earlier.len() && earlier[j] == rest[i];
                    assert(hits[j] == earlier[j]);
                } else {
                    assert(terms[i] == t);
                    assert(hits[hits.len() - 1] == t);
                }
            }
        }
    }
}

proof fn lemma_term_hits_is_found(normalized: Seq<char>, tokens: Seq<Seq<char>>, term: Seq<char>)
    ensures
        term_hits(normalized, tokens, term) == found_in(normalized, tokens, term),
{
    if is_phrase(term) {
        let i = choose|i: int| 0 <= i < term.len() && term[i] == ' ';
        assert(term[i] == ' ');
        if contains_seq(normalized, term) {
            let k = choose|k: int| crate::text::occurs_at(normalized, term, k);
            assert(normalized.subrange(k, k + term.len()) == term);
        }
        if found_in(normalized, tokens, term) {
            let k = choose|k: int|
                0 <= k && k + term.len() <= normalized.len() && #[trigger] normalized.subrange(
                    k,
                    k + term.len(),
                ) == term;
            assert(crate::text::occurs_at(normalized, term, k));
        }
    } else {
        assert(!exists|i: int| 0 <= i < term.len() && term[i] == ' ');
    }
}

/// No listed term of a category is found.
pub open spec fn none_found(normalized: Seq<char>, tokens: Seq<Seq<char>>, terms: Seq<Seq<char>>) -> bool {
    forall|i: int| 0 <= i < terms.len() ==> !found_in(normalized, tokens, #[trigger] terms[i])
}

/// A comment none of whose tokens is a listed word, that holds none of the
/// listed phrases, no web address, no shouting and no run of exclamation
/// marks, is left visible with score 0, no flags and no review.
pub proof fn lemma_clean_comment_visible(content: Seq<char>)
    requires
        none_found(normalized_text(content), split_words(normalized_text(content)), severe_terms()),
        none_found(normalized_text(content), split_words(normalized_text(content)), self_harm_terms()),
        none_found(normalized_text(content), split_words(normalized_text(content)), sexual_explicit_terms()),
        none_found(normalized_text(content), split_words(normalized_text(content)), harassment_terms()),
        none_found(normalized_text(content), split_words(normalized_text(content)), profanity_terms()),
        none_found(normalized_text(content), split_words(normalized_text(content)), spam_terms()),
        !contains_seq(content, "http://"@),
        !contains_seq(content, "https://"@),
        !is_shouting(content),
        count_char(content, '!') < 5,
    ensures
        assessment_of(content).moderation_score == 0,
        assessment_of(content).moderation_flags.len() == 0,
        assessment_of(content).status == "VISIBLE"@,
        !assessment_of(content).auto_flagged,
        !assessment_of(content).needs_review,
        assessment_of(content).moderated_by is None,
{
    let n = normalized_text(content);
    let toks = split_words(n);
    lemma_none_found_no_hits(n, toks, severe_terms());
    lemma_none_found_no_hits(n, toks, self_harm_terms());
    lemma_none_found_no_hits(n, toks, sexual_explicit_terms());
    lemma_none_found_no_hits(n, toks, harassment_terms());
    lemma_none_found_no_hits(n, toks, profanity_terms());
    lemma_none_found_no_hits(n, toks, spam_terms());
    assert(assessment_flags(content) =~= Seq::<Seq<char>>::empty());
}

proof fn lemma_none_found_no_hits(normalized: Seq<char>, tokens: Seq<Seq<char>>, terms: Seq<Seq<char>>)
    requires
        none_found(normalized, tokens, terms),
    ensures
        category_hits(normalized, tokens, terms).len() == 0,
{
    lemma_category_hits_are_found_terms(normalized, tokens, terms);
    let hits = category_hits(normalized, tokens, terms);
    if hits.len() > 0 {
        assert(found_in(normalized, tokens, hits[0]));
        let i = choose|i: int| 0 <= i < terms.len() && terms[i] == hits[0];
        assert(!found_in(normalized, tokens, terms[i]));
    }
}

} // verus!
