//! Character classes and the text operations that the moderation and
//! validation rules are written in: trimming, word splitting, joining and
//! substring search over sequences of `char`.
use vstd::prelude::*;
use vstd::string::*;

verus! {

/// An ASCII decimal digit.
pub open spec fn is_ascii_digit(c: char) -> bool {
    '0' <= c && c <= '9'
}

/// An ASCII upper-case letter.
pub open spec fn is_ascii_upper(c: char) -> bool {
    'A' <= c && c <= 'Z'
}

/// An ASCII lower-case letter.
pub open spec fn is_ascii_lower(c: char) -> bool {
    'a' <= c && c <= 'z'
}

/// An ASCII letter.
pub open spec fn is_ascii_alpha(c: char) -> bool {
    is_ascii_upper(c) || is_ascii_lower(c)
}

/// An ASCII letter or digit.
pub open spec fn is_ascii_alnum(c: char) -> bool {
    is_ascii_alpha(c) || is_ascii_digit(c)
}

/// The Unicode `White_Space` property, the set that `char::is_whitespace`
/// tests for.
pub open spec fn is_unicode_whitespace(c: char) -> bool {
    ||| ('\u{9}' <= c && c <= '\u{d}')
    ||| c == ' '
    ||| c == '\u{85}'
    ||| c == '\u{a0}'
    ||| c == '\u{1680}'
    ||| ('\u{2000}' <= c && c <= '\u{200a}')
    ||| c == '\u{2028}'
    ||| c == '\u{2029}'
    ||| c == '\u{202f}'
    ||| c == '\u{205f}'
    ||| c == '\u{3000}'
}

/// The code point of an ASCII upper-case letter shifted to lower case.
pub open spec fn lower_of(c: char) -> char {
    ((c as u32) + 32) as char
}

/// `char::to_ascii_lowercase`: ASCII upper-case letters become lower case,
/// every other character is left as it is.
pub open spec fn ascii_lower(c: char) -> char {
    if is_ascii_upper(c) {
        lower_of(c)
    } else {
        c
    }
}

pub fn ascii_upper(c: char) -> (r: bool)
    ensures
        r == is_ascii_upper(c),
{
    'A' <= c && c <= 'Z'
}

pub fn ascii_alpha(c: char) -> (r: bool)
    ensures
        r == is_ascii_alpha(c),
{
    ('A' <= c && c <= 'Z') || ('a' <= c && c <= 'z')
}

pub fn ascii_alnum(c: char) -> (r: bool)
    ensures
        r == is_ascii_alnum(c),
{
    ('A' <= c && c <= 'Z') || ('a' <= c && c <= 'z') || ('0' <= c && c <= '9')
}

pub fn unicode_whitespace(c: char) -> (r: bool)
    ensures
        r == is_unicode_whitespace(c),
{
    ('\u{9}' <= c && c <= '\u{d}') || c == ' ' || c == '\u{85}' || c == '\u{a0}' || c
        == '\u{1680}' || ('\u{2000}' <= c && c <= '\u{200a}') || c == '\u{2028}' || c
        == '\u{2029}' || c == '\u{202f}' || c == '\u{205f}' || c == '\u{3000}'
}

pub fn to_ascii_lower(c: char) -> (r: char)
    ensures
        r == ascii_lower(c),
{
    if 'A' <= c && c <= 'Z' {
        let code: u32 = c as u32;
        let lowered: u8 = (code + 32) as u8;
        proof {
            assert(lowered as u32 == (c as u32) + 32);
        }
        lowered as char
    } else {
        c
    }
}

/// The characters of a string slice, in order.
pub fn to_chars(s: &str) -> (v: Vec<char>)
    ensures
        v@ == s@,
{
    let n: usize = s.unicode_len();
    let mut v: Vec<char> = Vec::new();
    for c in it: s.chars()
        invariant
            it.seq() == s@,
            v@ == s@.take(it.index() as int),
            n == s@.len(),
    {
        v.push(c);
        proof {
            assert(s@.take(it.index() + 1) == s@.take(it.index() as int).push(c));
        }
    }
    proof {
        assert(s@.take(s@.len() as int) == s@);
    }
    v
}

/// Appends one character to a `String` (`String::push`).
#[verifier::external_body]
pub(crate) fn push_char(s: &mut String, c: char)
    ensures
        final(s)@ == old(s)@.push(c),
{
    s.push(c)
}

/// A `String` that holds the given characters.
pub fn chars_to_string(v: &Vec<char>) -> (s: String)
    ensures
        s@ == v@,
{
    let mut s = String::new();
    let mut i: usize = 0;
    while i < v.len()
        invariant
            i <= v.len(),
            s@ == v@.take(i as int),
        decreases v.len() - i,
    {
        push_char(&mut s, v[i]);
        proof {
            assert(v@.take(i + 1) == v@.take(i as int).push(v@[i as int]));
        }
        i = i + 1;
    }
    proof {
        assert(v@.take(v@.len() as int) == v@);
    }
    s
}

/// Equality of two character vectors.
pub fn chars_eq(a: &Vec<char>, b: &Vec<char>) -> (r: bool)
    ensures
        r == (a@ == b@),
{
    if a.len() != b.len() {
        return false;
    }
    let mut i: usize = 0;
    while i < a.len()
        invariant
            a.len() == b.len(),
            i <= a.len(),
            forall|j: int| 0 <= j < i ==> a@[j] == b@[j],
        decreases a.len() - i,
    {
        if a[i] != b[i] {
            return false;
        }
        i = i + 1;
    }
    proof {
        assert(a@ =~= b@);
    }
    true
}

/// Equality of two string slices by their characters.
pub fn str_eq(a: &str, b: &str) -> (r: bool)
    ensures
        r == (a@ == b@),
{
    let va = to_chars(a);
    let vb = to_chars(b);
    chars_eq(&va, &vb)
}

/// `needle` occurs in `hay` starting at index `i`.
pub open spec fn occurs_at(hay: Seq<char>, needle: Seq<char>, i: int) -> bool {
    0 <= i && i + needle.len() <= hay.len() && hay.subrange(i, i + needle.len()) == needle
}

/// `needle` is a contiguous part of `hay` (`str::contains` with a string
/// pattern).
pub open spec fn contains_seq(hay: Seq<char>, needle: Seq<char>) -> bool {
    exists|i: int| occurs_at(hay, needle, i)
}

/// `hay` begins with `prefix` (`str::starts_with`).
pub open spec fn starts_with_seq(hay: Seq<char>, prefix: Seq<char>) -> bool {
    prefix.len() <= hay.len() && hay.subrange(0, prefix.len() as int) == prefix
}

pub fn occurs_at_exec(hay: &Vec<char>, needle: &Vec<char>, i: usize) -> (r: bool)
    requires
        i + needle.len() <= hay.len(),
    ensures
        r == occurs_at(hay@, needle@, i as int),
{
    let mut j: usize = 0;
    while j < needle.len()
        invariant
            i + needle.len() <= hay.len(),
            j <= needle.len(),
            forall|k: int| 0 <= k < j ==> hay@[i + k] == needle@[k],
        decreases needle.len() - j,
    {
        if hay[i + j] != needle[j] {
            proof {
                assert(hay@.subrange(i as int, i + needle.len())[j as int] != needle@[j as int]);
            }
            return false;
        }
        j = j + 1;
    }
    proof {
        assert(hay@.subrange(i as int, i + needle.len()) =~= needle@);
    }
    true
}

/// Substring search.
pub fn contains_chars(hay: &Vec<char>, needle: &Vec<char>) -> (r: bool)
    ensures
        r == contains_seq(hay@, needle@),
{
    if needle.len() > hay.len() {
        proof {
            assert forall|i: int| !occurs_at(hay@, needle@, i) by {}
        }
        return false;
    }
    let last: usize = hay.len() - needle.len();
    let mut i: usize = 0;
    while i < last
        invariant
            last == hay.len() - needle.len(),
            needle.len() <= hay.len(),
            i <= last,
            forall|k: int| 0 <= k < i ==> !occurs_at(hay@, needle@, k),
        decreases last - i,
    {
        if occurs_at_exec(hay, needle, i) {
            return true;
        }
        i = i + 1;
    }
    if occurs_at_exec(hay, needle, last) {
        return true;
    }
    proof {
        assert forall|k: int| !occurs_at(hay@, needle@, k) by {
            if 0 <= k <= i {
            }
        }
    }
    false
}

/// Prefix test.
pub fn starts_with_chars(hay: &Vec<char>, prefix: &Vec<char>) -> (r: bool)
    ensures
        r == starts_with_seq(hay@, prefix@),
{
    if prefix.len() > hay.len() {
        return false;
    }
    let r = occurs_at_exec(hay, prefix, 0);
    proof {
        assert(hay@.subrange(0, prefix@.len() as int) == hay@.subrange(0int, 0int + prefix@.len()));
    }
    r
}

/// Number of occurrences of `c` in `s`.
pub open spec fn count_char(s: Seq<char>, c: char) -> nat
    decreases s.len(),
{
    if s.len() == 0 {
        0
    } else {
        count_char(s.drop_last(), c) + if s.last() == c {
            1nat
        } else {
            0nat
        }
    }
}

pub proof fn lemma_count_char_bound(s: Seq<char>, c: char)
    ensures
        count_char(s, c) <= s.len(),
    decreases s.len(),
{
    if s.len() > 0 {
        lemma_count_char_bound(s.drop_last(), c);
    }
}

pub fn count_char_exec(s: &Vec<char>, c: char) -> (n: usize)
    ensures
        n == count_char(s@, c),
{
    let mut n: usize = 0;
    let mut i: usize = 0;
    while i < s.len()
        invariant
            i <= s.len(),
            n == count_char(s@.take(i as int), c),
        decreases s.len() - i,
    {
        proof {
            assert(s@.take(i + 1).drop_last() == s@.take(i as int));
            lemma_count_char_bound(s@.take(i as int), c);
        }
        if s[i] == c {
            n = n + 1;
        }
        i = i + 1;
    }
    proof {
        assert(s@.take(s@.len() as int) == s@);
    }
    n
}

/// The words of `s`: its maximal runs of non-whitespace characters, in
/// order (`str::split_whitespace`).
pub open spec fn split_words(s: Seq<char>) -> Seq<Seq<char>>
    decreases s.len(),
{
    if s.len() == 0 {
        seq![]
    } else {
        let words = split_words(s.drop_last());
        let c = s.last();
        if is_unicode_whitespace(c) {
            words
        } else if s.len() >= 2 && !is_unicode_whitespace(s[s.len() - 2]) {
            words.update(words.len() - 1, words.last().push(c))
        } else {
            words.push(seq![c])
        }
    }
}

/// The words joined by single spaces.
pub open spec fn join_words(words: Seq<Seq<char>>) -> Seq<char>
    decreases words.len(),
{
    if words.len() == 0 {
        seq![]
    } else if words.len() == 1 {
        words[0]
    } else {
        join_words(words.drop_last()) + seq![' '] + words.last()
    }
}

/// Every word is non-empty and holds no whitespace.
pub open spec fn well_formed_words(words: Seq<Seq<char>>) -> bool {
    forall|i: int|
        0 <= i < words.len() ==> words[i].len() > 0 && forall|j: int|
            0 <= j < words[i].len() ==> !is_unicode_whitespace(#[trigger] words[i][j])
}

pub proof fn lemma_split_words_facts(s: Seq<char>)
    ensures
        well_formed_words(split_words(s)),
        s.len() > 0 && !is_unicode_whitespace(s.last()) ==> split_words(s).len() > 0,
    decreases s.len(),
{
    if s.len() > 0 {
        lemma_split_words_facts(s.drop_last());
        let words = split_words(s.drop_last());
        let c = s.last();
        if is_unicode_whitespace(c) {
        } else if s.len() >= 2 && !is_unicode_whitespace(s[s.len() - 2]) {
            assert(s.drop_last().last() == s[s.len() - 2]);
            let nw = words.update(words.len() - 1, words.last().push(c));
            assert forall|i: int| 0 <= i < nw.len() implies nw[i].len() > 0 && forall|j: int|
                0 <= j < nw[i].len() ==> !is_unicode_whitespace(#[trigger] nw[i][j]) by {
                if i == words.len() - 1 {
                    assert forall|j: int| 0 <= j < nw[i].len() implies !is_unicode_whitespace(
                        #[trigger] nw[i][j],
                    ) by {
                        if j < words.last().len() {
                            assert(nw[i][j] == words[i][j]);
                        }
                    }
                }
            }
        } else {
            let nw = words.push(seq![c]);
            assert forall|i: int| 0 <= i < nw.len() implies nw[i].len() > 0 && forall|j: int|
                0 <= j < nw[i].len() ==> !is_unicode_whitespace(#[trigger] nw[i][j]) by {
                if i < words.len() {
                    assert(nw[i] == words[i]);
                }
            }
        }
    }
}

/// The words of `s` as character vectors.
pub fn split_whitespace(s: &Vec<char>) -> (r: Vec<Vec<char>>)
    ensures
        r.deep_view() == split_words(s@),
{
    let mut words: Vec<Vec<char>> = Vec::new();
    let mut current: Vec<char> = Vec::new();
    let mut in_word = false;
    let mut i: usize = 0;
    while i < s.len()
        invariant
            i <= s.len(),
            in_word == (i > 0 && !is_unicode_whitespace(s@[i - 1])),
            in_word ==> split_words(s@.take(i as int)).len() > 0,
            in_word ==> words.deep_view().push(current@) == split_words(s@.take(i as int)),
            !in_word ==> words.deep_view() == split_words(s@.take(i as int)),
            !in_word ==> current@.len() == 0,
        decreases s.len() - i,
    {
        let c = s[i];
        let ghost pre = s@.take(i as int);
        let ghost post = s@.take(i + 1);
        proof {
            assert(post.drop_last() == pre);
            assert(post.last() == c);
            if i >= 1 {
                assert(post[post.len() - 2] == s@[i - 1]);
            }
        }
        if unicode_whitespace(c) {
            if in_word {
                let w = current;
                current = Vec::new();
                let ghost before = words.deep_view();
                let ghost wv = w@;
                proof {
                    assert(w.deep_view() =~= wv);
                }
                words.push(w);
                proof {
                    assert(words.deep_view() =~= before.push(wv));
                }
            }
            in_word = false;
        } else {
            current.push(c);
            in_word = true;
            proof {
                if i >= 1 && !is_unicode_whitespace(s@[i - 1]) {
                    let ws = split_words(pre);
                    assert(ws.update(ws.len() - 1, ws.last().push(c)) =~= words.deep_view().push(
                        current@,
                    ));
                } else {
                    assert(split_words(post) == split_words(pre).push(seq![c]));
                    assert(current@ =~= seq![c]);
                }
            }
        }
        i = i + 1;
    }
    proof {
        assert(s@.take(s@.len() as int) == s@);
    }
    if in_word {
        let ghost before = words.deep_view();
        let ghost cur = current@;
        proof {
            assert(current.deep_view() =~= cur);
        }
        words.push(current);
        proof {
            assert(words.deep_view() =~= before.push(cur));
        }
    }
    words
}

pub proof fn lemma_join_push(words: Seq<Seq<char>>, w: Seq<char>)
    ensures
        join_words(words.push(w)) == if words.len() == 0 {
            w
        } else {
            join_words(words) + seq![' '] + w
        },
{
    assert(words.push(w).drop_last() == words);
}

/// Removes whitespace at the front (`str::trim_start`).
pub open spec fn trim_start(s: Seq<char>) -> Seq<char>
    decreases s.len(),
{
    if s.len() > 0 && is_unicode_whitespace(s[0]) {
        trim_start(s.drop_first())
    } else {
        s
    }
}

/// Removes whitespace at the back (`str::trim_end`).
pub open spec fn trim_end(s: Seq<char>) -> Seq<char>
    decreases s.len(),
{
    if s.len() > 0 && is_unicode_whitespace(s.last()) {
        trim_end(s.drop_last())
    } else {
        s
    }
}

/// Removes whitespace at both ends (`str::trim`).
pub open spec fn trim(s: Seq<char>) -> Seq<char> {
    trim_end(trim_start(s))
}

proof fn lemma_trim_start_skip(s: Seq<char>, k: int)
    requires
        0 <= k <= s.len(),
        forall|j: int| 0 <= j < k ==> is_unicode_whitespace(s[j]),
    ensures
        trim_start(s) == trim_start(s.subrange(k, s.len() as int)),
    decreases k,
{
    if k > 0 {
        assert(s.drop_first().subrange(k - 1, s.drop_first().len() as int) =~= s.subrange(
            k,
            s.len() as int,
        ));
        lemma_trim_start_skip(s.drop_first(), k - 1);
    } else {
        assert(s.subrange(0, s.len() as int) =~= s);
    }
}

proof fn lemma_trim_end_skip(s: Seq<char>, k: int)
    requires
        0 <= k <= s.len(),
        forall|j: int| k <= j < s.len() ==> is_unicode_whitespace(s[j]),
    ensures
        trim_end(s) == trim_end(s.subrange(0, k)),
    decreases s.len() - k,
{
    if k < s.len() {
        assert(s.drop_last().subrange(0, k) =~= s.subrange(0, k));
        lemma_trim_end_skip(s.drop_last(), k);
    } else {
        assert(s.subrange(0, s.len() as int) =~= s);
    }
}

/// The characters of `s` without leading and trailing whitespace.
pub fn trim_chars(s: &Vec<char>) -> (r: Vec<char>)
    ensures
        r@ == trim(s@),
{
    let mut start: usize = 0;
    while start < s.len() && unicode_whitespace(s[start])
        invariant
            start <= s.len(),
            forall|j: int| 0 <= j < start ==> is_unicode_whitespace(s@[j]),
        decreases s.len() - start,
    {
        start = start + 1;
    }
    let mut end: usize = s.len();
    while end > start && unicode_whitespace(s[end - 1])
        invariant
            start <= end <= s.len(),
            forall|j: int| end <= j < s.len() ==> is_unicode_whitespace(s@[j]),
        decreases end,
    {
        end = end - 1;
    }
    let mut r: Vec<char> = Vec::new();
    let mut i: usize = start;
    while i < end
        invariant
            start <= i <= end,
            end <= s.len(),
            r@ == s@.subrange(start as int, i as int),
        decreases end - i,
    {
        r.push(s[i]);
        proof {
            assert(s@.subrange(start as int, i + 1) == s@.subrange(start as int, i as int).push(
                s@[i as int],
            ));
        }
        i = i + 1;
    }
    proof {
        let t = s@.subrange(start as int, s@.len() as int);
        lemma_trim_start_skip(s@, start as int);
        assert(trim_start(t) == t) by {
            if t.len() > 0 {
                assert(t[0] == s@[start as int]);
            }
        }
        let k = end - start;
        assert forall|j: int| k <= j < t.len() implies is_unicode_whitespace(t[j]) by {
            assert(t[j] == s@[start + j]);
        }
        lemma_trim_end_skip(t, k as int);
        let u = t.subrange(0, k as int);
        assert(u =~= s@.subrange(start as int, end as int));
        assert(trim_end(u) == u) by {
            if u.len() > 0 {
                assert(u.last() == s@[end - 1]);
            }
        }
    }
    r
}

/// The character of a decimal digit.
pub open spec fn digit_char(d: nat) -> char {
    (('0' as u32) + d) as char
}

/// The decimal rendering of a natural number, as `Display` writes it.
pub open spec fn decimal(n: nat) -> Seq<char>
    decreases n,
{
    if n < 10 {
        seq![digit_char(n)]
    } else {
        decimal(n / 10).push(digit_char(n % 10))
    }
}

/// The decimal rendering of `n`.
pub fn usize_to_decimal(n: usize) -> (r: String)
    ensures
        r@ == decimal(n as nat),
{
    let mut m: usize = n;
    let mut suffix: Vec<char> = Vec::new();
    while m >= 10
        invariant
            decimal(n as nat) == decimal(m as nat) + suffix@,
        decreases m,
    {
        let d: u8 = (m % 10) as u8;
        let c: char = (48u8 + d) as char;
        proof {
            assert(c == digit_char((m % 10) as nat));
            assert(decimal(m as nat) == decimal((m / 10) as nat).push(c));
            assert(decimal((m / 10) as nat).push(c) + suffix@ =~= decimal((m / 10) as nat) + (
            seq![c] + suffix@));
        }
        let ghost before = suffix@;
        suffix.insert(0, c);
        proof {
            assert(suffix@ =~= seq![c] + before);
        }
        m = m / 10;
    }
    let last: u8 = m as u8;
    let c: char = (48u8 + last) as char;
    let mut all: Vec<char> = Vec::new();
    all.push(c);
    let mut i: usize = 0;
    while i < suffix.len()
        invariant
            i <= suffix.len(),
            all@ == seq![c] + suffix@.take(i as int),
        decreases suffix.len() - i,
    {
        all.push(suffix[i]);
        proof {
            assert(suffix@.take(i + 1) == suffix@.take(i as int).push(suffix@[i as int]));
            assert(all@ =~= seq![c] + suffix@.take(i + 1));
        }
        i = i + 1;
    }
    proof {
        assert(suffix@.take(suffix@.len() as int) == suffix@);
        assert(decimal(m as nat) == seq![c]);
    }
    chars_to_string(&all)
}

} // verus!
