//! Character-level text utilities with their mathematical meaning.
//!
//! Every parser in this crate works on the characters of its input. The
//! spec functions below say what the usual string operations (`trim`,
//! `lines`, `strip_prefix`, `contains`, decimal and hexadecimal parsing)
//! compute, and the executable functions are proved to compute exactly that.
use vstd::prelude::*;

verus! {

/// Calls `String::push`. Claimed: the string afterwards is the one before
/// with `c` appended.
#[verifier::external_body]
fn push_char(s: &mut String, c: char)
    ensures
        final(s)@ == old(s)@.push(c),
{
    s.push(c);
}

/// The characters of a string slice, in order.
pub fn str_chars(s: &str) -> (out: Vec<char>)
    ensures
        out@ == s@,
{
    let mut out: Vec<char> = Vec::new();
    for c in it: s.chars()
        invariant
            out@ == it.seq().take(it.index() as int),
    {
        out.push(c);
    }
    out
}

/// Builds a string out of characters.
pub fn string_from(chars: &[char]) -> (s: String)
    ensures
        s@ == chars@,
{
    let mut s = String::new();
    let mut i: usize = 0;
    while i < chars.len()
        invariant
            i <= chars@.len(),
            s@ == chars@.take(i as int),
        decreases chars@.len() - i,
    {
        push_char(&mut s, chars[i]);
        assert(chars@.take(i as int + 1) == chars@.take(i as int).push(chars@[i as int]));
        i = i + 1;
    }
    assert(chars@.take(chars@.len() as int) == chars@);
    s
}

/// An owned copy of a string slice.
pub fn owned(s: &str) -> (r: String)
    ensures
        r@ == s@,
{
    s.to_owned()
}

/// A copy of a string with the same characters.
pub fn copy_string(s: &String) -> (r: String)
    ensures
        r@ == s@,
{
    owned(s.as_str())
}

/// The characters of an optional string.
pub open spec fn opt_view(o: Option<String>) -> Option<Seq<char>> {
    match o {
        Some(s) => Some(s@),
        None => None,
    }
}

/// A copy of an optional string.
pub fn copy_opt(o: &Option<String>) -> (r: Option<String>)
    ensures
        opt_view(r) == opt_view(*o),
{
    match o {
        Some(s) => Some(copy_string(s)),
        None => None,
    }
}

/// A copy of `s[from..to]`.
pub fn slice_of(s: &[char], from: usize, to: usize) -> (out: Vec<char>)
    requires
        from <= to <= s@.len(),
    ensures
        out@ == s@.subrange(from as int, to as int),
{
    let mut out: Vec<char> = Vec::new();
    let mut i = from;
    while i < to
        invariant
            from <= i <= to <= s@.len(),
            out@ == s@.subrange(from as int, i as int),
        decreases to - i,
    {
        out.push(s[i]);
        i = i + 1;
    }
    out
}

/// Concatenation of two character sequences.
pub fn concat(a: &[char], b: &[char]) -> (out: Vec<char>)
    ensures
        out@ == a@ + b@,
{
    let mut out: Vec<char> = Vec::new();
    let mut i: usize = 0;
    while i < a.len()
        invariant
            i <= a@.len(),
            out@ == a@.take(i as int),
        decreases a@.len() - i,
    {
        out.push(a[i]);
        i = i + 1;
    }
    let mut j: usize = 0;
    while j < b.len()
        invariant
            j <= b@.len(),
            out@ == a@ + b@.take(j as int),
        decreases b@.len() - j,
    {
        out.push(b[j]);
        j = j + 1;
    }
    assert(a@.take(a@.len() as int) == a@);
    assert(b@.take(b@.len() as int) == b@);
    out
}

/// Character-wise equality of two sequences.
pub fn chars_eq(a: &[char], b: &[char]) -> (r: bool)
    ensures
        r == (a@ == b@),
{
    if a.len() != b.len() {
        return false;
    }
    let mut i: usize = 0;
    while i < a.len()
        invariant
            a@.len() == b@.len(),
            i <= a@.len(),
            forall|j: int| 0 <= j < i ==> a@[j] == b@[j],
        decreases a@.len() - i,
    {
        if a[i] != b[i] {
            return false;
        }
        i = i + 1;
    }
    assert(a@ =~= b@);
    true
}

// ---------------------------------------------------------------- classes

/// Unicode `White_Space`, as `char::is_whitespace` decides it.
pub open spec fn is_ws(c: char) -> bool {
    ||| c == '\t'
    ||| c == '\n'
    ||| c == '\u{0B}'
    ||| c == '\u{0C}'
    ||| c == '\r'
    ||| c == ' '
    ||| c == '\u{85}'
    ||| c == '\u{A0}'
    ||| c == '\u{1680}'
    ||| ('\u{2000}' <= c && c <= '\u{200A}')
    ||| c == '\u{2028}'
    ||| c == '\u{2029}'
    ||| c == '\u{202F}'
    ||| c == '\u{205F}'
    ||| c == '\u{3000}'
}

pub fn is_whitespace(c: char) -> (r: bool)
    ensures
        r == is_ws(c),
{
    c == '\t' || c == '\n' || c == '\u{0B}' || c == '\u{0C}' || c == '\r' || c == ' ' || c
        == '\u{85}' || c == '\u{A0}' || c == '\u{1680}' || ('\u{2000}' <= c && c <= '\u{200A}')
        || c == '\u{2028}' || c == '\u{2029}' || c == '\u{202F}' || c == '\u{205F}' || c
        == '\u{3000}'
}

pub open spec fn is_digit(c: char) -> bool {
    '0' <= c && c <= '9'
}

pub open spec fn is_upper(c: char) -> bool {
    'A' <= c && c <= 'Z'
}

pub open spec fn is_lower(c: char) -> bool {
    'a' <= c && c <= 'z'
}

/// `char::is_ascii_alphanumeric`.
pub open spec fn is_alnum(c: char) -> bool {
    is_digit(c) || is_upper(c) || is_lower(c)
}

pub fn is_ascii_alphanumeric(c: char) -> (r: bool)
    ensures
        r == is_alnum(c),
{
    ('0' <= c && c <= '9') || ('A' <= c && c <= 'Z') || ('a' <= c && c <= 'z')
}

/// `char::to_ascii_lowercase`.
pub open spec fn lower(c: char) -> char {
    if is_upper(c) {
        ((c as u32) + 32) as char
    } else {
        c
    }
}

pub fn to_ascii_lower(c: char) -> (r: char)
    ensures
        r == lower(c),
{
    if 'A' <= c && c <= 'Z' {
        let v: u32 = (c as u32) + 32;
        assert(0x61 <= v <= 0x7a);
        char_from_ascii(v)
    } else {
        c
    }
}

/// The character with an ASCII code point.
fn char_from_ascii(v: u32) -> (c: char)
    requires
        v < 128,
    ensures
        c == v as char,
        c as u32 == v,
{
    let b: u8 = v as u8;
    b as char
}

/// `str::to_ascii_lowercase` on a character sequence.
pub open spec fn lowercase(s: Seq<char>) -> Seq<char> {
    s.map_values(|c: char| lower(c))
}

pub fn to_lowercase(s: &[char]) -> (out: Vec<char>)
    ensures
        out@ == lowercase(s@),
{
    let mut out: Vec<char> = Vec::new();
    let mut i: usize = 0;
    while i < s.len()
        invariant
            i <= s@.len(),
            out@ == lowercase(s@.take(i as int)),
        decreases s@.len() - i,
    {
        out.push(to_ascii_lower(s[i]));
        assert(lowercase(s@.take(i as int + 1)) =~= lowercase(s@.take(i as int)).push(
            lower(s@[i as int]),
        ));
        i = i + 1;
    }
    assert(s@.take(s@.len() as int) == s@);
    out
}

/// Keeps the ASCII letters and digits of `s`, in lower case: what
/// `s.chars().filter(is_ascii_alphanumeric).flat_map(to_lowercase)` yields.
pub open spec fn alnum_lower(s: Seq<char>) -> Seq<char>
    decreases s.len(),
{
    if s.len() == 0 {
        Seq::empty()
    } else if is_alnum(s.last()) {
        alnum_lower(s.drop_last()).push(lower(s.last()))
    } else {
        alnum_lower(s.drop_last())
    }
}

pub fn normalize_alnum(s: &[char]) -> (out: Vec<char>)
    ensures
        out@ == alnum_lower(s@),
{
    let mut out: Vec<char> = Vec::new();
    let mut i: usize = 0;
    while i < s.len()
        invariant
            i <= s@.len(),
            out@ == alnum_lower(s@.take(i as int)),
        decreases s@.len() - i,
    {
        let c = s[i];
        assert(s@.take(i as int + 1).drop_last() == s@.take(i as int));
        if is_ascii_alphanumeric(c) {
            out.push(to_ascii_lower(c));
        }
        i = i + 1;
    }
    assert(s@.take(s@.len() as int) == s@);
    out
}

// ------------------------------------------------------------------ trim

/// Number of leading characters of `s` that satisfy `p`.
pub open spec fn lead(s: Seq<char>, p: spec_fn(char) -> bool) -> nat
    decreases s.len(),
{
    if s.len() > 0 && p(s[0]) {
        1 + lead(s.drop_first(), p)
    } else {
        0
    }
}

/// Number of trailing characters of `s` that satisfy `p`.
pub open spec fn trail(s: Seq<char>, p: spec_fn(char) -> bool) -> nat
    decreases s.len(),
{
    if s.len() > 0 && p(s.last()) {
        1 + trail(s.drop_last(), p)
    } else {
        0
    }
}

pub open spec fn trim_start_by(s: Seq<char>, p: spec_fn(char) -> bool) -> Seq<char> {
    s.skip(lead(s, p) as int)
}

pub open spec fn trim_end_by(s: Seq<char>, p: spec_fn(char) -> bool) -> Seq<char> {
    s.take(s.len() - trail(s, p))
}

pub open spec fn trim_by(s: Seq<char>, p: spec_fn(char) -> bool) -> Seq<char> {
    trim_end_by(trim_start_by(s, p), p)
}

pub open spec fn ws() -> spec_fn(char) -> bool {
    |c: char| is_ws(c)
}

pub open spec fn is_char(x: char) -> spec_fn(char) -> bool {
    |c: char| c == x
}

/// `str::trim`.
pub open spec fn trim(s: Seq<char>) -> Seq<char> {
    trim_by(s, ws())
}

pub proof fn lemma_lead_bound(s: Seq<char>, p: spec_fn(char) -> bool)
    ensures
        lead(s, p) <= s.len(),
    decreases s.len(),
{
    if s.len() > 0 && p(s[0]) {
        lemma_lead_bound(s.drop_first(), p);
    }
}

pub proof fn lemma_trail_bound(s: Seq<char>, p: spec_fn(char) -> bool)
    ensures
        trail(s, p) <= s.len(),
    decreases s.len(),
{
    if s.len() > 0 && p(s.last()) {
        lemma_trail_bound(s.drop_last(), p);
    }
}

/// `lead` is the index of the first character that fails `p`.
pub proof fn lemma_lead_is(s: Seq<char>, p: spec_fn(char) -> bool, k: int)
    requires
        0 <= k <= s.len(),
        forall|j: int| 0 <= j < k ==> p(#[trigger] s[j]),
        k == s.len() || !p(s[k]),
    ensures
        lead(s, p) == k,
    decreases k,
{
    if k > 0 {
        let t = s.drop_first();
        assert forall|j: int| 0 <= j < k - 1 implies p(#[trigger] t[j]) by {
            assert(t[j] == s[j + 1]);
        }
        assert(k - 1 == t.len() || !p(t[k - 1])) by {
            if k < s.len() {
                assert(t[k - 1] == s[k]);
            }
        }
        lemma_lead_is(t, p, k - 1);
        assert(p(s[0]));
    }
}

/// `trail` counts the characters after the last one that fails `p`.
pub proof fn lemma_trail_is(s: Seq<char>, p: spec_fn(char) -> bool, k: int)
    requires
        0 <= k <= s.len(),
        forall|j: int| s.len() - k <= j < s.len() ==> p(#[trigger] s[j]),
        k == s.len() || !p(s[s.len() - k - 1]),
    ensures
        trail(s, p) == k,
    decreases k,
{
    if k > 0 {
        let t = s.drop_last();
        assert forall|j: int| t.len() - (k - 1) <= j < t.len() implies p(#[trigger] t[j]) by {
            assert(t[j] == s[j]);
        }
        assert(k - 1 == t.len() || !p(t[t.len() - (k - 1) - 1])) by {
            if k < s.len() {
                assert(t[t.len() - (k - 1) - 1] == s[s.len() - k - 1]);
            }
        }
        lemma_trail_is(t, p, k - 1);
        assert(p(s[s.len() - 1]));
    }
}

/// Index of the first character of `s` that is not whitespace.
fn count_lead_ws(s: &[char]) -> (k: usize)
    ensures
        k == lead(s@, ws()),
{
    let mut i: usize = 0;
    while i < s.len() && is_whitespace(s[i])
        invariant
            i <= s@.len(),
            forall|j: int| 0 <= j < i ==> is_ws(#[trigger] s@[j]),
        decreases s@.len() - i,
    {
        i = i + 1;
    }
    proof {
        lemma_lead_is(s@, ws(), i as int);
    }
    i
}

/// Number of trailing whitespace characters of `s`.
fn count_trail_ws(s: &[char]) -> (k: usize)
    ensures
        k == trail(s@, ws()),
{
    let mut i: usize = 0;
    while i < s.len() && is_whitespace(s[s.len() - 1 - i])
        invariant
            i <= s@.len(),
            forall|j: int| s@.len() - i <= j < s@.len() ==> is_ws(#[trigger] s@[j]),
        decreases s@.len() - i,
    {
        i = i + 1;
    }
    proof {
        lemma_trail_is(s@, ws(), i as int);
    }
    i
}

fn count_lead_char(s: &[char], x: char) -> (k: usize)
    ensures
        k == lead(s@, is_char(x)),
{
    let mut i: usize = 0;
    while i < s.len() && s[i] == x
        invariant
            i <= s@.len(),
            forall|j: int| 0 <= j < i ==> #[trigger] s@[j] == x,
        decreases s@.len() - i,
    {
        i = i + 1;
    }
    proof {
        lemma_lead_is(s@, is_char(x), i as int);
    }
    i
}

fn count_trail_char(s: &[char], x: char) -> (k: usize)
    ensures
        k == trail(s@, is_char(x)),
{
    let mut i: usize = 0;
    while i < s.len() && s[s.len() - 1 - i] == x
        invariant
            i <= s@.len(),
            forall|j: int| s@.len() - i <= j < s@.len() ==> #[trigger] s@[j] == x,
        decreases s@.len() - i,
    {
        i = i + 1;
    }
    proof {
        lemma_trail_is(s@, is_char(x), i as int);
    }
    i
}

/// `str::trim`.
pub fn trim_ws(s: &[char]) -> (out: Vec<char>)
    ensures
        out@ == trim(s@),
{
    let a = count_lead_ws(s);
    proof {
        lemma_lead_bound(s@, ws());
    }
    let t = slice_of(s, a, s.len());
    assert(t@ == trim_start_by(s@, ws()));
    let b = count_trail_ws(&t);
    proof {
        lemma_trail_bound(t@, ws());
    }
    slice_of(&t, 0, t.len() - b)
}

/// `str::trim_matches(x)` for a single character `x`.
pub fn trim_char(s: &[char], x: char) -> (out: Vec<char>)
    ensures
        out@ == trim_by(s@, is_char(x)),
{
    let a = count_lead_char(s, x);
    proof {
        lemma_lead_bound(s@, is_char(x));
    }
    let t = slice_of(s, a, s.len());
    assert(t@ == trim_start_by(s@, is_char(x)));
    let b = count_trail_char(&t, x);
    proof {
        lemma_trail_bound(t@, is_char(x));
    }
    slice_of(&t, 0, t.len() - b)
}

/// `str::trim_start_matches(x)` for a single character `x`.
pub fn trim_start_char(s: &[char], x: char) -> (out: Vec<char>)
    ensures
        out@ == trim_start_by(s@, is_char(x)),
{
    let a = count_lead_char(s, x);
    proof {
        lemma_lead_bound(s@, is_char(x));
    }
    slice_of(s, a, s.len())
}

// ----------------------------------------------------------------- words

pub open spec fn not_ws() -> spec_fn(char) -> bool {
    |c: char| !is_ws(c)
}

/// `str::split_whitespace`: the maximal runs of non-whitespace characters.
pub open spec fn words(s: Seq<char>) -> Seq<Seq<char>>
    decreases s.len(),
{
    let t = s.skip(lead(s, ws()) as int);
    if lead(s, ws()) > s.len() || t.len() == 0 {
        Seq::empty()
    } else {
        let n = lead(t, not_ws());
        if 0 < n <= t.len() {
            seq![t.take(n as int)] + words(t.skip(n as int))
        } else {
            Seq::empty()
        }
    }
}

proof fn lemma_words_step(s: Seq<char>, i: int, j: int, k: int)
    requires
        0 <= i <= j < k <= s.len(),
        forall|m: int| i <= m < j ==> is_ws(#[trigger] s[m]),
        forall|m: int| j <= m < k ==> !is_ws(#[trigger] s[m]),
        k == s.len() || is_ws(s[k]),
    ensures
        words(s.skip(i)) == seq![s.subrange(j, k)] + words(s.skip(k)),
{
    let a = s.skip(i);
    assert forall|m: int| 0 <= m < j - i implies ws()(#[trigger] a[m]) by {
        assert(a[m] == s[i + m]);
    }
    assert(a[j - i] == s[j]);
    lemma_lead_is(a, ws(), j - i);
    let t = a.skip(j - i);
    assert(t =~= s.skip(j));
    assert forall|m: int| 0 <= m < k - j implies not_ws()(#[trigger] t[m]) by {
        assert(t[m] == s[j + m]);
    }
    if k < s.len() {
        assert(t[k - j] == s[k]);
    }
    lemma_lead_is(t, not_ws(), k - j);
    assert(t.take(k - j) =~= s.subrange(j, k));
    assert(t.skip(k - j) =~= s.skip(k));
}

proof fn lemma_words_end(s: Seq<char>, i: int)
    requires
        0 <= i <= s.len(),
        forall|m: int| i <= m < s.len() ==> is_ws(#[trigger] s[m]),
    ensures
        words(s.skip(i)) == Seq::<Seq<char>>::empty(),
{
    let a = s.skip(i);
    assert forall|m: int| 0 <= m < a.len() implies ws()(#[trigger] a[m]) by {
        assert(a[m] == s[i + m]);
    }
    lemma_lead_is(a, ws(), a.len() as int);
}

/// `lead` counts a prefix of characters that satisfy `p`, stopping at the
/// first one that does not.
pub proof fn lemma_lead_props(s: Seq<char>, p: spec_fn(char) -> bool)
    ensures
        lead(s, p) <= s.len(),
        forall|j: int| 0 <= j < lead(s, p) ==> p(#[trigger] s[j]),
        lead(s, p) < s.len() ==> !p(s[lead(s, p) as int]),
    decreases s.len(),
{
    if s.len() > 0 && p(s[0]) {
        let t = s.drop_first();
        lemma_lead_props(t, p);
        assert forall|j: int| 0 <= j < lead(s, p) implies p(#[trigger] s[j]) by {
            if j > 0 {
                assert(s[j] == t[j - 1]);
            }
        }
        if lead(s, p) < s.len() {
            assert(s[lead(s, p) as int] == t[lead(t, p) as int]);
        }
    }
}

/// Some word of `ws` holds `c`.
pub open spec fn in_some_word(ws: Seq<Seq<char>>, c: char) -> bool {
    exists|w: int| 0 <= w < ws.len() && (#[trigger] ws[w]).contains(c)
}

/// Every character of `s` that is not whitespace lies in one of its words.
pub proof fn lemma_words_cover(s: Seq<char>)
    ensures
        forall|m: int| 0 <= m < s.len() && !is_ws(#[trigger] s[m]) ==> in_some_word(words(s), s[m]),
    decreases s.len(),
{
    let l = lead(s, ws());
    lemma_lead_props(s, ws());
    let t = s.skip(l as int);
    if t.len() > 0 {
        assert(t[0] == s[l as int]);
        lemma_lead_props(t, not_ws());
        let n = lead(t, not_ws());
        assert(n > 0);
        let rest = t.skip(n as int);
        lemma_words_cover(rest);
        assert(words(s) == seq![t.take(n as int)] + words(rest));
        assert forall|m: int| 0 <= m < s.len() && !is_ws(#[trigger] s[m]) implies in_some_word(
            words(s),
            s[m],
        ) by {
            if m < l {
                assert(ws()(s[m]));
            } else if m < l + n {
                assert(t.take(n as int)[m - l] == s[m]);
                assert(words(s)[0] == t.take(n as int));
                assert(words(s)[0].contains(s[m]));
            } else {
                let m2 = m - l - n;
                assert(rest[m2] == s[m]);
                let w = choose|w: int| 0 <= w < words(rest).len() && (#[trigger] words(rest)[w]).contains(
                    rest[m2],
                );
                assert(words(s)[w + 1] == words(rest)[w]);
            }
        }
    } else {
        assert forall|m: int| 0 <= m < s.len() && !is_ws(#[trigger] s[m]) implies in_some_word(
            words(s),
            s[m],
        ) by {
            assert(ws()(s[m]));
        }
    }
}

/// The words of `s`, as `str::split_whitespace` yields them.
pub fn split_ws(s: &[char]) -> (out: Vec<Vec<char>>)
    ensures
        out@.len() == words(s@).len(),
        forall|i: int| 0 <= i < out@.len() ==> #[trigger] out@[i]@ == words(s@)[i],
{
    let mut out: Vec<Vec<char>> = Vec::new();
    let ghost mut done: Seq<Seq<char>> = Seq::empty();
    let mut i: usize = 0;
    assert(s@.skip(0) =~= s@);
    while i < s.len()
        invariant
            i <= s@.len(),
            out@.len() == done.len(),
            forall|k: int| 0 <= k < out@.len() ==> #[trigger] out@[k]@ == done[k],
            done + words(s@.skip(i as int)) == words(s@),
        decreases s@.len() - i,
    {
        let mut j = i;
        while j < s.len() && is_whitespace(s[j])
            invariant
                i <= j <= s@.len(),
                forall|m: int| i <= m < j ==> is_ws(#[trigger] s@[m]),
            decreases s@.len() - j,
        {
            j = j + 1;
        }
        if j == s.len() {
            proof {
                lemma_words_end(s@, i as int);
                assert(done + Seq::<Seq<char>>::empty() =~= done);
            }
            i = j;
        } else {
            let mut k = j;
            while k < s.len() && !is_whitespace(s[k])
                invariant
                    j <= k <= s@.len(),
                    forall|m: int| j <= m < k ==> !is_ws(#[trigger] s@[m]),
                decreases s@.len() - k,
            {
                k = k + 1;
            }
            let word = slice_of(s, j, k);
            proof {
                lemma_words_step(s@, i as int, j as int, k as int);
                assert(done.push(word@) + words(s@.skip(k as int)) =~= done + (seq![word@] + words(
                    s@.skip(k as int),
                )));
                done = done.push(word@);
            }
            out.push(word);
            i = k;
        }
    }
    proof {
        assert(s@.skip(i as int) =~= Seq::<char>::empty());
        assert(done + Seq::<Seq<char>>::empty() =~= done);
    }
    out
}

// ----------------------------------------------------------------- lines

/// Index of the first `'\n'` in `s`, or its length.
pub open spec fn line_end(s: Seq<char>) -> nat
    decreases s.len(),
{
    if s.len() == 0 || s[0] == '\n' {
        0
    } else {
        1 + line_end(s.drop_first())
    }
}

pub open spec fn strip_cr(s: Seq<char>) -> Seq<char> {
    if s.len() > 0 && s.last() == '\r' {
        s.drop_last()
    } else {
        s
    }
}

/// `str::lines`: split at `'\n'`, drop one `'\r'` before each `'\n'`, and
/// no empty last line after a final line ending.
pub open spec fn lines(s: Seq<char>) -> Seq<Seq<char>>
    decreases s.len(),
{
    if s.len() == 0 {
        Seq::empty()
    } else {
        let e = line_end(s);
        if e < s.len() {
            seq![strip_cr(s.take(e as int))] + lines(s.skip(e as int + 1))
        } else {
            seq![s]
        }
    }
}

proof fn lemma_line_end_bound(s: Seq<char>)
    ensures
        line_end(s) <= s.len(),
        line_end(s) < s.len() ==> s[line_end(s) as int] == '\n',
        forall|j: int| 0 <= j < line_end(s) ==> s[j] != '\n',
    decreases s.len(),
{
    if s.len() > 0 && s[0] != '\n' {
        lemma_line_end_bound(s.drop_first());
        assert forall|j: int| 0 <= j < line_end(s) implies s[j] != '\n' by {
            if j > 0 {
                assert(s[j] == s.drop_first()[j - 1]);
            }
        }
    }
}

proof fn lemma_line_end_is(s: Seq<char>, k: int)
    requires
        0 <= k <= s.len(),
        forall|j: int| 0 <= j < k ==> #[trigger] s[j] != '\n',
        k == s.len() || s[k] == '\n',
    ensures
        line_end(s) == k,
    decreases k,
{
    if k > 0 {
        let t = s.drop_first();
        assert forall|j: int| 0 <= j < k - 1 implies #[trigger] t[j] != '\n' by {
            assert(t[j] == s[j + 1]);
        }
        assert(s[0] != '\n');
        lemma_line_end_is(t, k - 1);
    }
}

/// One step of `lines`: a line that ends at a `'\n'`.
proof fn lemma_lines_step(s: Seq<char>, start: int, i: int)
    requires
        0 <= start <= i < s.len(),
        s[i] == '\n',
        forall|j: int| start <= j < i ==> s[j] != '\n',
    ensures
        lines(s.skip(start)) == seq![strip_cr(s.subrange(start, i))] + lines(s.skip(i + 1)),
{
    let t = s.skip(start);
    assert forall|j: int| 0 <= j < i - start implies #[trigger] t[j] != '\n' by {
        assert(t[j] == s[start + j]);
    }
    assert(t[i - start] == s[i]);
    lemma_line_end_is(t, i - start);
    assert(t.take(i - start) == s.subrange(start, i));
    assert(t.skip(i - start + 1) == s.skip(i + 1));
}

/// The last step of `lines`: a final line without a line ending.
proof fn lemma_lines_last(s: Seq<char>, start: int)
    requires
        0 <= start < s.len(),
        forall|j: int| start <= j < s.len() ==> s[j] != '\n',
    ensures
        lines(s.skip(start)) == seq![s.skip(start)],
{
    let t = s.skip(start);
    assert forall|j: int| 0 <= j < t.len() implies #[trigger] t[j] != '\n' by {
        assert(t[j] == s[start + j]);
    }
    lemma_line_end_is(t, t.len() as int);
}

/// The lines of `s`, as `str::lines` yields them.
pub fn split_lines(s: &[char]) -> (out: Vec<Vec<char>>)
    ensures
        out@.len() == lines(s@).len(),
        forall|i: int| 0 <= i < out@.len() ==> #[trigger] out@[i]@ == lines(s@)[i],
{
    let mut out: Vec<Vec<char>> = Vec::new();
    let mut start: usize = 0;
    let mut i: usize = 0;
    let ghost mut done: Seq<Seq<char>> = Seq::empty();
    assert(s@.skip(0) == s@);
    while i < s.len()
        invariant
            start <= i <= s@.len(),
            forall|j: int| start <= j < i ==> s@[j] != '\n',
            out@.len() == done.len(),
            forall|k: int| 0 <= k < out@.len() ==> #[trigger] out@[k]@ == done[k],
            done + lines(s@.skip(start as int)) == lines(s@),
        decreases s@.len() - i,
    {
        if s[i] == '\n' {
            let mut line = slice_of(s, start, i);
            if line.len() > 0 && line[line.len() - 1] == '\r' {
                line.pop();
            }
            proof {
                lemma_lines_step(s@, start as int, i as int);
                assert(line@ == strip_cr(s@.subrange(start as int, i as int)));
                assert(done.push(line@) + lines(s@.skip(i + 1)) == done + lines(
                    s@.skip(start as int),
                ));
                done = done.push(line@);
            }
            out.push(line);
            start = i + 1;
        }
        i = i + 1;
    }
    if start < s.len() {
        let line = slice_of(s, start, s.len());
        proof {
            lemma_lines_last(s@, start as int);
            assert(line@ == s@.skip(start as int));
            assert(done.push(line@) == done + lines(s@.skip(start as int)));
            done = done.push(line@);
        }
        out.push(line);
    } else {
        proof {
            assert(s@.skip(start as int).len() == 0);
            assert(done + lines(s@.skip(start as int)) == done);
        }
    }
    out
}

// -------------------------------------------------------- prefix, search

pub open spec fn has_prefix(s: Seq<char>, p: Seq<char>) -> bool {
    p.len() <= s.len() && s.take(p.len() as int) == p
}

pub open spec fn has_suffix(s: Seq<char>, p: Seq<char>) -> bool {
    p.len() <= s.len() && s.skip(s.len() - p.len()) == p
}

pub fn starts_with(s: &[char], p: &[char]) -> (r: bool)
    ensures
        r == has_prefix(s@, p@),
{
    if p.len() > s.len() {
        return false;
    }
    let mut i: usize = 0;
    while i < p.len()
        invariant
            p@.len() <= s@.len(),
            i <= p@.len(),
            forall|j: int| 0 <= j < i ==> s@[j] == p@[j],
        decreases p@.len() - i,
    {
        if s[i] != p[i] {
            assert(s@.take(p@.len() as int)[i as int] != p@[i as int]);
            return false;
        }
        i = i + 1;
    }
    assert(s@.take(p@.len() as int) =~= p@);
    true
}

pub fn ends_with(s: &[char], p: &[char]) -> (r: bool)
    ensures
        r == has_suffix(s@, p@),
{
    if p.len() > s.len() {
        return false;
    }
    let n = s.len();
    let off = n - p.len();
    let mut i: usize = 0;
    while i < p.len()
        invariant
            n == s@.len(),
            p@.len() <= s@.len(),
            off == s@.len() - p@.len(),
            i <= p@.len(),
            forall|j: int| 0 <= j < i ==> s@[off + j] == p@[j],
        decreases p@.len() - i,
    {
        if s[off + i] != p[i] {
            assert(s@.skip(off as int)[i as int] != p@[i as int]);
            return false;
        }
        i = i + 1;
    }
    assert(s@.skip(off as int) =~= p@);
    true
}

pub open spec fn strip_prefix_spec(s: Seq<char>, p: Seq<char>) -> Option<Seq<char>> {
    if has_prefix(s, p) {
        Some(s.skip(p.len() as int))
    } else {
        None
    }
}

pub open spec fn strip_suffix_spec(s: Seq<char>, p: Seq<char>) -> Option<Seq<char>> {
    if has_suffix(s, p) {
        Some(s.take(s.len() - p.len()))
    } else {
        None
    }
}

/// `str::strip_prefix`.
pub fn strip_prefix(s: &[char], p: &[char]) -> (out: Option<Vec<char>>)
    ensures
        out matches Some(v) ==> strip_prefix_spec(s@, p@) == Some(v@),
        out is None ==> strip_prefix_spec(s@, p@) is None,
{
    if starts_with(s, p) {
        Some(slice_of(s, p.len(), s.len()))
    } else {
        None
    }
}

/// `str::strip_suffix`.
pub fn strip_suffix(s: &[char], p: &[char]) -> (out: Option<Vec<char>>)
    ensures
        out matches Some(v) ==> strip_suffix_spec(s@, p@) == Some(v@),
        out is None ==> strip_suffix_spec(s@, p@) is None,
{
    if ends_with(s, p) {
        Some(slice_of(s, 0, s.len() - p.len()))
    } else {
        None
    }
}

/// `pat` stands in `s` at index `i`.
pub open spec fn occurs_at(s: Seq<char>, pat: Seq<char>, i: int) -> bool {
    0 <= i && i + pat.len() <= s.len() && s.subrange(i, i + pat.len()) == pat
}

/// Index of the first occurrence of `pat` in `s` (`str::find`).
pub open spec fn find(s: Seq<char>, pat: Seq<char>) -> Option<nat>
    decreases s.len(),
{
    if has_prefix(s, pat) {
        Some(0)
    } else if s.len() == 0 {
        None
    } else {
        match find(s.drop_first(), pat) {
            Some(k) => Some(k + 1),
            None => None,
        }
    }
}

/// `str::contains` with a string pattern.
pub open spec fn contains(s: Seq<char>, pat: Seq<char>) -> bool {
    find(s, pat) is Some
}

proof fn lemma_find_is(s: Seq<char>, pat: Seq<char>, k: int)
    requires
        0 <= k <= s.len(),
        forall|j: int| 0 <= j < k ==> !occurs_at(s, pat, j),
        occurs_at(s, pat, k),
    ensures
        find(s, pat) == Some(k as nat),
    decreases k,
{
    assert(has_prefix(s.skip(k), pat) == occurs_at(s, pat, k)) by {
        if occurs_at(s, pat, k) {
            assert(s.skip(k).take(pat.len() as int) == s.subrange(k, k + pat.len()));
        }
    }
    if k == 0 {
        assert(s.skip(0) == s);
    } else {
        assert(!has_prefix(s, pat)) by {
            if has_prefix(s, pat) {
                assert(s.subrange(0, pat.len() as int) == s.take(pat.len() as int));
                assert(occurs_at(s, pat, 0));
            }
        }
        let t = s.drop_first();
        assert forall|j: int| 0 <= j < k - 1 implies !occurs_at(t, pat, j) by {
            if occurs_at(t, pat, j) {
                assert(t.subrange(j, j + pat.len()) == s.subrange(j + 1, j + 1 + pat.len()));
                assert(occurs_at(s, pat, j + 1));
            }
        }
        assert(occurs_at(t, pat, k - 1)) by {
            assert(t.subrange(k - 1, k - 1 + pat.len()) == s.subrange(k, k + pat.len()));
        }
        lemma_find_is(t, pat, k - 1);
    }
}

proof fn lemma_find_none(s: Seq<char>, pat: Seq<char>)
    requires
        forall|j: int| 0 <= j <= s.len() ==> !occurs_at(s, pat, j),
    ensures
        find(s, pat) is None,
    decreases s.len(),
{
    assert(!has_prefix(s, pat)) by {
        if has_prefix(s, pat) {
            assert(s.subrange(0, pat.len() as int) == s.take(pat.len() as int));
            assert(occurs_at(s, pat, 0));
        }
    }
    if s.len() > 0 {
        let t = s.drop_first();
        assert forall|j: int| 0 <= j <= t.len() implies !occurs_at(t, pat, j) by {
            if occurs_at(t, pat, j) {
                assert(t.subrange(j, j + pat.len()) == s.subrange(j + 1, j + 1 + pat.len()));
                assert(occurs_at(s, pat, j + 1));
            }
        }
        lemma_find_none(t, pat);
    }
}

/// Whether `pat` stands in `s` at `i`.
fn matches_at(s: &[char], pat: &[char], i: usize) -> (r: bool)
    requires
        i <= s@.len(),
    ensures
        r == occurs_at(s@, pat@, i as int),
{
    let n = s.len();
    if pat.len() > n - i {
        return false;
    }
    let mut j: usize = 0;
    while j < pat.len()
        invariant
            n == s@.len(),
            i + pat@.len() <= s@.len(),
            j <= pat@.len(),
            forall|k: int| 0 <= k < j ==> s@[i + k] == pat@[k],
        decreases pat@.len() - j,
    {
        if s[i + j] != pat[j] {
            assert(s@.subrange(i as int, i + pat@.len())[j as int] != pat@[j as int]);
            return false;
        }
        j = j + 1;
    }
    assert(s@.subrange(i as int, i + pat@.len()) =~= pat@);
    true
}

/// `str::find` with a string pattern.
pub fn find_sub(s: &[char], pat: &[char]) -> (r: Option<usize>)
    ensures
        r matches Some(k) ==> find(s@, pat@) == Some(k as nat),
        r is None ==> find(s@, pat@) is None,
{
    let mut i: usize = 0;
    while i < s.len()
        invariant
            i <= s@.len(),
            forall|j: int| 0 <= j < i ==> !occurs_at(s@, pat@, j),
        decreases s@.len() - i,
    {
        if matches_at(s, pat, i) {
            proof {
                lemma_find_is(s@, pat@, i as int);
            }
            return Some(i);
        }
        i = i + 1;
    }
    if matches_at(s, pat, i) {
        proof {
            lemma_find_is(s@, pat@, i as int);
        }
        return Some(i);
    }
    proof {
        lemma_find_none(s@, pat@);
    }
    None
}

/// `str::contains` with a string pattern.
pub fn contains_sub(s: &[char], pat: &[char]) -> (r: bool)
    ensures
        r == contains(s@, pat@),
{
    find_sub(s, pat).is_some()
}

pub proof fn lemma_find_bound(s: Seq<char>, pat: Seq<char>)
    ensures
        find(s, pat) matches Some(k) ==> k + pat.len() <= s.len() && s.subrange(
            k as int,
            k as int + pat.len(),
        ) == pat,
    decreases s.len(),
{
    if has_prefix(s, pat) {
        assert(s.subrange(0, pat.len() as int) == s.take(pat.len() as int));
    } else if s.len() > 0 {
        let t = s.drop_first();
        lemma_find_bound(t, pat);
        if let Some(k) = find(t, pat) {
            assert(t.subrange(k as int, k as int + pat.len()) == s.subrange(k as int + 1, k as int + 1 + pat.len()));
        }
    }
}

/// `str::split_once` with a string pattern.
pub open spec fn split_once_spec(s: Seq<char>, pat: Seq<char>) -> Option<(Seq<char>, Seq<char>)> {
    match find(s, pat) {
        Some(k) => Some((s.take(k as int), s.skip(k as int + pat.len()))),
        None => None,
    }
}

pub fn split_once(s: &[char], pat: &[char]) -> (r: Option<(Vec<char>, Vec<char>)>)
    ensures
        r matches Some(p) ==> split_once_spec(s@, pat@) == Some((p.0@, p.1@)),
        r is None ==> split_once_spec(s@, pat@) is None,
{
    match find_sub(s, pat) {
        Some(k) => {
            proof {
                lemma_find_bound(s@, pat@);
            }
            let n = s.len();
            assert(k + pat@.len() <= n);
            Some((slice_of(s, 0, k), slice_of(s, k + pat.len(), n)))
        },
        None => None,
    }
}

/// `s` up to the first occurrence of `pat`.
pub open spec fn before_pat(s: Seq<char>, pat: Seq<char>) -> Seq<char> {
    match find(s, pat) {
        Some(k) => s.take(k as int),
        None => s,
    }
}

/// `s` up to the first occurrence of `pat` (`split(pat).next()`).
pub fn before_pat_of(s: &Vec<char>, pat: &Vec<char>) -> (r: Vec<char>)
    ensures
        r@ == before_pat(s@, pat@),
{
    match find_sub(s, pat) {
        Some(k) => {
            proof {
                lemma_find_bound(s@, pat@);
            }
            slice_of(s, 0, k)
        },
        None => slice_of(s, 0, s.len()),
    }
}

/// Index of the first character of `s` that is an ASCII digit.
pub open spec fn first_digit(s: Seq<char>) -> Option<nat>
    decreases s.len(),
{
    if s.len() == 0 {
        None
    } else if is_digit(s[0]) {
        Some(0)
    } else {
        match first_digit(s.drop_first()) {
            Some(k) => Some(k + 1),
            None => None,
        }
    }
}

pub fn find_digit(s: &[char]) -> (r: Option<usize>)
    ensures
        r matches Some(k) ==> first_digit(s@) == Some(k as nat) && k < s@.len(),
        r is None ==> first_digit(s@) is None,
{
    let mut i: usize = 0;
    while i < s.len()
        invariant
            i <= s@.len(),
            forall|j: int| 0 <= j < i ==> !is_digit(#[trigger] s@[j]),
        decreases s@.len() - i,
    {
        if '0' <= s[i] && s[i] <= '9' {
            proof {
                lemma_first_digit_is(s@, i as int);
            }
            return Some(i);
        }
        i = i + 1;
    }
    proof {
        lemma_first_digit_is(s@, s@.len() as int);
    }
    None
}

proof fn lemma_first_digit_is(s: Seq<char>, k: int)
    requires
        0 <= k <= s.len(),
        forall|j: int| 0 <= j < k ==> !is_digit(#[trigger] s[j]),
        k == s.len() || is_digit(s[k]),
    ensures
        k < s.len() ==> first_digit(s) == Some(k as nat),
        k == s.len() ==> first_digit(s) is None,
    decreases k,
{
    if k > 0 {
        let t = s.drop_first();
        assert forall|j: int| 0 <= j < k - 1 implies !is_digit(#[trigger] t[j]) by {
            assert(t[j] == s[j + 1]);
        }
        assert(!is_digit(s[0]));
        if k < s.len() {
            assert(t[k - 1] == s[k]);
        }
        lemma_first_digit_is(t, k - 1);
    }
}

// --------------------------------------------------------------- numbers

/// The digits that `parse_unsigned` reads: `s` without a leading `'+'`.
pub open spec fn unsigned_body(s: Seq<char>) -> Seq<char> {
    if s.len() > 0 && s[0] == '+' {
        s.drop_first()
    } else {
        s
    }
}

/// Value of a digit character in base 16 (also covers base 10).
pub open spec fn hex_val(c: char) -> nat {
    if is_digit(c) {
        (c as u32 - '0' as u32) as nat
    } else if 'a' <= c && c <= 'f' {
        (c as u32 - 'a' as u32 + 10) as nat
    } else if 'A' <= c && c <= 'F' {
        (c as u32 - 'A' as u32 + 10) as nat
    } else {
        0
    }
}

pub open spec fn is_hex(c: char) -> bool {
    is_digit(c) || ('a' <= c && c <= 'f') || ('A' <= c && c <= 'F')
}

/// A digit of `radix` (10 or 16).
pub open spec fn is_radix_digit(c: char, radix: nat) -> bool {
    if radix == 16 {
        is_hex(c)
    } else {
        is_digit(c)
    }
}

/// Every character of `t` is a digit of `radix`.
pub open spec fn all_radix_digits(t: Seq<char>, radix: nat) -> bool {
    forall|i: int| 0 <= i < t.len() ==> is_radix_digit(#[trigger] t[i], radix)
}

/// Value of a string of digits, most significant first.
pub open spec fn digits_value(s: Seq<char>, radix: nat) -> nat
    decreases s.len(),
{
    if s.len() == 0 {
        0
    } else {
        digits_value(s.drop_last(), radix) * radix + hex_val(s.last())
    }
}

/// The unsigned number that `s` denotes as Rust's integer parsing reads it:
/// an optional `'+'`, then at least one digit of `radix`, and nothing else.
pub open spec fn parse_unsigned(s: Seq<char>, radix: nat) -> Option<nat> {
    let t = unsigned_body(s);
    if t.len() > 0 && all_radix_digits(t, radix) {
        Some(digits_value(t, radix))
    } else {
        None
    }
}

/// `s.parse::<uN>()` (radix 10) or `uN::from_str_radix(s, 16)`: the value,
/// when it is at most `max`.
pub open spec fn parse_bounded(s: Seq<char>, radix: nat, max: nat) -> Option<nat> {
    match parse_unsigned(s, radix) {
        Some(v) => if v <= max {
            Some(v)
        } else {
            None
        },
        None => None,
    }
}

proof fn lemma_digits_value_mono(s: Seq<char>, radix: nat, max: nat, i: int)
    requires
        radix == 10 || radix == 16,
        0 <= i <= s.len(),
        digits_value(s.take(i), radix) > max,
        forall|j: int| 0 <= j < s.len() ==> is_radix_digit(#[trigger] s[j], radix),
    ensures
        digits_value(s, radix) > max,
    decreases s.len() - i,
{
    if i < s.len() {
        let a = s.take(i + 1);
        assert(a.drop_last() == s.take(i));
        assert(digits_value(a, radix) == digits_value(s.take(i), radix) * radix + hex_val(a.last()));
        assert(digits_value(s.take(i), radix) * radix >= digits_value(s.take(i), radix)) by (nonlinear_arith)
            requires radix >= 1;
        lemma_digits_value_mono(s, radix, max, i + 1);
    } else {
        assert(s.take(i) == s);
    }
}

fn digit_value(c: char, radix: u32) -> (r: Option<u32>)
    requires
        radix == 10 || radix == 16,
    ensures
        r is Some <==> is_radix_digit(c, radix as nat),
        r matches Some(v) ==> v == hex_val(c) && v < radix,
{
    if '0' <= c && c <= '9' {
        Some((c as u32) - ('0' as u32))
    } else if radix == 16 && 'a' <= c && c <= 'f' {
        Some((c as u32) - ('a' as u32) + 10)
    } else if radix == 16 && 'A' <= c && c <= 'F' {
        Some((c as u32) - ('A' as u32) + 10)
    } else {
        None
    }
}

/// Reads an unsigned number of at most `max` in base `radix`.
pub fn parse_num(s: &[char], radix: u32, max: u64) -> (r: Option<u64>)
    requires
        radix == 10 || radix == 16,
    ensures
        r matches Some(v) ==> parse_bounded(s@, radix as nat, max as nat) == Some(v as nat),
        r is None ==> parse_bounded(s@, radix as nat, max as nat) is None,
{
    let start: usize = if s.len() > 0 && s[0] == '+' {
        1
    } else {
        0
    };
    let ghost t = unsigned_body(s@);
    assert(t == s@.skip(start as int));
    if start >= s.len() {
        return None;
    }
    let mut value: u64 = 0;
    let mut i: usize = start;
    while i < s.len()
        invariant
            radix == 10 || radix == 16,
            start <= i <= s@.len(),
            t == s@.skip(start as int),
            t == unsigned_body(s@),
            forall|j: int| start <= j < i ==> is_radix_digit(#[trigger] s@[j], radix as nat),
            value == digits_value(t.take(i - start), radix as nat),
            value <= max,
        decreases s@.len() - i,
    {
        match digit_value(s[i], radix) {
            None => {
                proof {
                    assert(t[i - start] == s@[i as int]);
                    assert(!is_radix_digit(t[i - start], radix as nat));
                    assert(t.len() > 0);
                    assert(!all_radix_digits(t, radix as nat));
                    assert(parse_unsigned(s@, radix as nat) is None);
                }
                return None;
            },
            Some(d) => {
                proof {
                    let a = t.take(i - start + 1);
                    assert(a.drop_last() == t.take(i - start));
                    assert(a.last() == s@[i as int]);
                    assert(t[i - start] == s@[i as int]);
                }
                if d as u64 > max || value > (max - d as u64) / (radix as u64) {
                    proof {
                        let a = t.take(i - start + 1);
                        let r = radix as int;
                        if d as u64 > max {
                            assert(value * r + d > max) by (nonlinear_arith)
                                requires value >= 0, r >= 1, d > max;
                        } else {
                            assert(value * r + d > max) by (nonlinear_arith)
                                requires value > (max - d) / r, r >= 1, d <= max;
                        }
                        assert(digits_value(a, radix as nat) > max);
                        if all_radix_digits(t, radix as nat) {
                            lemma_digits_value_mono(t, radix as nat, max as nat, i - start + 1);
                            assert(parse_unsigned(s@, radix as nat) == Some(digits_value(t, radix as nat)));
                        }
                    }
                    return None;
                }
                proof {
                    let r = radix as int;
                    assert(value * r + d <= max) by (nonlinear_arith)
                        requires value <= (max - d) / r, r >= 1, d <= max;
                }
                value = value * (radix as u64) + (d as u64);
            },
        }
        i = i + 1;
    }
    proof {
        assert(t.take(i - start) == t);
        assert forall|j: int| 0 <= j < t.len() implies is_radix_digit(#[trigger] t[j], radix as nat) by {
            assert(t[j] == s@[j + start]);
        }
    }
    Some(value)
}

// ------------------------------------------------------------ formatting

/// Decimal digits of `n` without leading zeros (`"0"` for zero).
pub open spec fn dec_str(n: nat) -> Seq<char>
    decreases n,
{
    if n < 10 {
        seq![digit_char(n)]
    } else {
        dec_str(n / 10).push(digit_char(n % 10))
    }
}

/// The lower-case hexadecimal digit of a value below 16.
pub open spec fn digit_char(d: nat) -> char {
    if d < 10 {
        ((d + 48) as u32) as char
    } else {
        ((d + 87) as u32) as char
    }
}

/// `format!("{:0w$x}", n)`: lower-case hexadecimal, padded with zeros to
/// at least `w` digits.
pub open spec fn hex_str(n: nat, w: nat) -> Seq<char>
    decreases w, n,
{
    if n < 16 && w <= 1 {
        seq![digit_char(n)]
    } else {
        hex_str(n / 16, if w > 0 { (w - 1) as nat } else { 0 }).push(digit_char(n % 16))
    }
}

fn digit_to_char(d: u128) -> (c: char)
    requires
        d < 16,
    ensures
        c == digit_char(d as nat),
{
    if d < 10 {
        char_from_ascii((d + 48) as u32)
    } else {
        char_from_ascii((d + 87) as u32)
    }
}

/// `n.to_string()`.
pub fn fmt_dec(n: u64) -> (out: Vec<char>)
    ensures
        out@ == dec_str(n as nat),
    decreases n,
{
    if n < 10 {
        let mut v: Vec<char> = Vec::new();
        v.push(digit_to_char(n as u128));
        v
    } else {
        let mut v = fmt_dec(n / 10);
        v.push(digit_to_char((n % 10) as u128));
        v
    }
}

/// `format!("{:0w$x}", n)`.
pub fn fmt_hex(n: u128, w: u64) -> (out: Vec<char>)
    ensures
        out@ == hex_str(n as nat, w as nat),
    decreases w, n,
{
    if n < 16 && w <= 1 {
        let mut v: Vec<char> = Vec::new();
        v.push(digit_to_char(n));
        v
    } else {
        let mut v = fmt_hex(n / 16, if w > 0 { w - 1 } else { 0 });
        v.push(digit_to_char(n % 16));
        v
    }
}

/// `format!("{:02x}")` of every byte, in order: how a digest prints with `{:x}`.
pub open spec fn hex_bytes(s: Seq<u8>) -> Seq<char>
    decreases s.len(),
{
    if s.len() == 0 {
        Seq::empty()
    } else {
        hex_bytes(s.drop_last()) + hex_str(s.last() as nat, 2)
    }
}

pub fn fmt_hex_bytes(s: &[u8]) -> (out: Vec<char>)
    ensures
        out@ == hex_bytes(s@),
{
    let mut out: Vec<char> = Vec::new();
    let mut i: usize = 0;
    while i < s.len()
        invariant
            i <= s@.len(),
            out@ == hex_bytes(s@.take(i as int)),
        decreases s@.len() - i,
    {
        let h = fmt_hex(s[i] as u128, 2);
        out = concat(&out, &h);
        proof {
            let a = s@.take(i as int + 1);
            assert(a.drop_last() == s@.take(i as int));
            assert(a.last() == s@[i as int]);
        }
        i = i + 1;
    }
    assert(s@.take(s@.len() as int) == s@);
    out
}

} // verus!
