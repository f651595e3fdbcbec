//! The ratbagd command-line backend: what is sent to `ratbagctl` and how its
//! answers are read. Running the command is left to the caller.
use crate::backends::BackendError;
use crate::model::MouseDeviceState;
use crate::text::{
    before_pat, before_pat_of, contains, contains_sub, parse_bounded, parse_num, slice_of,
    starts_with, strip_suffix, strip_suffix_spec,
    copy_string, opt_view,
    concat, dec_str, fmt_dec, has_prefix, is_alnum, is_ascii_alphanumeric, lines, owned, split_lines,
    split_once, split_once_spec, split_ws, str_chars, strip_prefix, strip_prefix_spec, string_from,
    trim, trim_ws, words, in_some_word, is_ws, lemma_words_cover,
};
use vstd::prelude::*;
use vstd::utf8::encode_utf8;

verus! {

/// A mouse that ratbagd lists.
#[derive(Debug, Clone)]
pub struct RatbagDevice {
    pub id: String,
    pub name: String,
    pub model: Option<String>,
}

fn invalid(m: &str) -> (r: BackendError)
    ensures
        r matches BackendError::Invalid(s) && s@ == m@,
{
    BackendError::Invalid(owned(m))
}

/// A character allowed in a device identifier.
pub open spec fn id_char(c: char) -> bool {
    is_alnum(c) || c == '-' || c == '_' || c == '.'
}

/// A device identifier: 1 to 128 ASCII letters, digits, `-`, `_` or `.`.
pub open spec fn valid_id(s: Seq<char>) -> bool {
    0 < s.len() <= 128 && forall|i: int| 0 <= i < s.len() ==> id_char(#[trigger] s[i])
}

fn all_id_chars(s: &[char]) -> (r: bool)
    ensures
        r == forall|i: int| 0 <= i < s@.len() ==> id_char(#[trigger] s@[i]),
{
    let mut i: usize = 0;
    while i < s.len()
        invariant
            i <= s@.len(),
            forall|j: int| 0 <= j < i ==> id_char(#[trigger] s@[j]),
        decreases s@.len() - i,
    {
        let c = s[i];
        if !(is_ascii_alphanumeric(c) || c == '-' || c == '_' || c == '.') {
            return false;
        }
        i = i + 1;
    }
    true
}

fn id_ok(s: &[char]) -> (r: bool)
    ensures
        r == valid_id(s@),
{
    s.len() > 0 && s.len() <= 128 && all_id_chars(s)
}

/// Refuses a device identifier that could be anything but a plain name.
pub fn validate_id(value: &str) -> (r: Result<(), BackendError>)
    ensures
        r is Ok <==> valid_id(value@),
        r matches Err(e) ==> e matches BackendError::Invalid(m) && m@
            == "invalid ratbag device identifier"@,
{
    if id_ok(&str_chars(value)) {
        Ok(())
    } else {
        Err(invalid("invalid ratbag device identifier"))
    }
}

/// ratbagd accepts 100 to 30000 DPI.
pub fn validate_dpi(dpi: u16) -> (r: Result<(), BackendError>)
    ensures
        r is Ok <==> 100 <= dpi <= 30000,
        r matches Err(e) ==> e matches BackendError::Invalid(m) && m@ == "DPI must be 100..=30000"@,
{
    if 100 <= dpi && dpi <= 30000 {
        Ok(())
    } else {
        Err(invalid("DPI must be 100..=30000"))
    }
}

/// The report rates ratbagd is asked for.
pub open spec fn supported_rate(hz: u16) -> bool {
    hz == 125 || hz == 250 || hz == 500 || hz == 1000 || hz == 2000 || hz == 4000 || hz == 8000
}

pub fn check_report_rate(hz: u16) -> (r: Result<(), BackendError>)
    ensures
        r is Ok <==> supported_rate(hz),
        r matches Err(e) ==> e matches BackendError::Invalid(m) && m@ == "unsupported report rate"@,
{
    if hz == 125 || hz == 250 || hz == 500 || hz == 1000 || hz == 2000 || hz == 4000 || hz == 8000 {
        Ok(())
    } else {
        Err(invalid("unsupported report rate"))
    }
}

/// A character allowed in a button action token.
pub open spec fn action_char(c: char) -> bool {
    is_alnum(c) || c == '-' || c == '_' || c == '+'
}

pub open spec fn good_token(t: Seq<char>) -> bool {
    t.len() <= 64 && forall|i: int| 0 <= i < t.len() ==> action_char(#[trigger] t[i])
}

/// What a button action turns into: its whitespace-separated tokens, or
/// why it is refused. Empty actions, actions over 512 bytes, line breaks and
/// NUL characters, no token or more than 64 tokens are invalid; a token
/// over 64 characters or with a character other than ASCII letters,
/// digits, `-`, `_` and `+` is unsupported.
pub open spec fn action_tokens(s: Seq<char>, byte_len: nat) -> Result<Seq<Seq<char>>, Seq<char>> {
    if s.len() == 0 || byte_len > 512 || s.contains('\n') || s.contains('\0') {
        Err("invalid ratbag button action"@)
    } else if words(s).len() == 0 || words(s).len() > 64 {
        Err("invalid ratbag button action"@)
    } else if exists|k: int| 0 <= k < words(s).len() && !good_token(#[trigger] words(s)[k]) {
        Err("ratbag action contains unsupported characters"@)
    } else {
        Ok(words(s))
    }
}

/// An accepted button action holds nothing but whitespace and the token
/// characters (ASCII letters, digits, `-`, `_`, `+`): any other character,
/// a shell metacharacter among them, gets the action refused.
pub proof fn law_accepted_actions_hold_only_token_characters(s: Seq<char>, byte_len: nat)
    ensures
        action_tokens(s, byte_len) is Ok ==> forall|m: int|
            0 <= m < s.len() ==> is_ws(#[trigger] s[m]) || action_char(s[m]),
{
    if action_tokens(s, byte_len) is Ok {
        lemma_words_cover(s);
        assert forall|m: int| 0 <= m < s.len() implies is_ws(#[trigger] s[m]) || action_char(s[m]) by {
            if !is_ws(s[m]) {
                assert(in_some_word(words(s), s[m]));
                let w = choose|w: int| 0 <= w < words(s).len() && (#[trigger] words(s)[w]).contains(s[m]);
                assert(good_token(words(s)[w]));
            }
        }
    }
}

fn has_char(s: &[char], c: char) -> (r: bool)
    ensures
        r == s@.contains(c),
{
    let mut i: usize = 0;
    while i < s.len()
        invariant
            i <= s@.len(),
            forall|j: int| 0 <= j < i ==> s@[j] != c,
        decreases s@.len() - i,
    {
        if s[i] == c {
            assert(s@[i as int] == c);
            return true;
        }
        i = i + 1;
    }
    false
}

fn token_ok(t: &[char]) -> (r: bool)
    ensures
        r == good_token(t@),
{
    if t.len() > 64 {
        return false;
    }
    let mut i: usize = 0;
    while i < t.len()
        invariant
            i <= t@.len(),
            forall|j: int| 0 <= j < i ==> action_char(#[trigger] t@[j]),
        decreases t@.len() - i,
    {
        let c = t[i];
        if !(is_ascii_alphanumeric(c) || c == '-' || c == '_' || c == '+') {
            return false;
        }
        i = i + 1;
    }
    true
}

pub open spec fn string_views(v: Seq<String>) -> Seq<Seq<char>> {
    v.map_values(|s: String| s@)
}

/// The tokens of a button action, checked so that nothing but plain words
/// reaches the command line.
pub fn validate_action(value: &str) -> (r: Result<Vec<String>, BackendError>)
    ensures
        match action_tokens(value@, encode_utf8(value@).len()) {
            Ok(t) => r matches Ok(v) && string_views(v@) == t,
            Err(m) => r matches Err(BackendError::Invalid(e)) && e@ == m,
        },
{
    let chars = str_chars(value);
    let byte_len = value.as_bytes().len();
    if chars.len() == 0 || byte_len > 512 || has_char(&chars, '\n') || has_char(&chars, '\0') {
        return Err(invalid("invalid ratbag button action"));
    }
    let tokens = split_ws(&chars);
    if tokens.len() == 0 || tokens.len() > 64 {
        return Err(invalid("invalid ratbag button action"));
    }
    let mut out: Vec<String> = Vec::new();
    let mut k: usize = 0;
    while k < tokens.len()
        invariant
            k <= tokens@.len(),
            value@.len() > 0,
            encode_utf8(value@).len() <= 512,
            !value@.contains('\n'),
            !value@.contains('\0'),
            0 < words(value@).len() <= 64,
            tokens@.len() == words(value@).len(),
            forall|i: int| 0 <= i < tokens@.len() ==> #[trigger] tokens@[i]@ == words(value@)[i],
            out@.len() == k,
            forall|i: int| 0 <= i < k ==> #[trigger] out@[i]@ == words(value@)[i],
            forall|i: int| 0 <= i < k ==> good_token(#[trigger] words(value@)[i]),
        decreases tokens@.len() - k,
    {
        assert(tokens@[k as int]@ == words(value@)[k as int]);
        if !token_ok(&tokens[k]) {
            assert(!good_token(words(value@)[k as int]));
            return Err(invalid("ratbag action contains unsupported characters"));
        }
        out.push(string_from(&tokens[k]));
        k = k + 1;
    }
    assert(string_views(out@) =~= words(value@));
    assert(!exists|j: int| 0 <= j < words(value@).len() && !good_token(#[trigger] words(value@)[j]));
    Ok(out)
}

// ------------------------------------------------------------ listing

/// A line of `ratbagctl list`: `<id>: <name>` (or `<id> - <name>`), with a
/// valid id and a non-empty name.
pub open spec fn list_entry(line: Seq<char>) -> Option<(Seq<char>, Seq<char>)> {
    let l = trim(line);
    if l.len() == 0 {
        None
    } else {
        let parts = match split_once_spec(l, ":"@) {
            Some(p) => Some(p),
            None => split_once_spec(l, " - "@),
        };
        match parts {
            None => None,
            Some((a, b)) => if valid_id(trim(a)) && trim(b).len() > 0 {
                Some((trim(a), trim(b)))
            } else {
                None
            },
        }
    }
}

/// The entries of the listed lines, in order.
pub open spec fn list_entries(ls: Seq<Seq<char>>) -> Seq<(Seq<char>, Seq<char>)>
    decreases ls.len(),
{
    if ls.len() == 0 {
        Seq::empty()
    } else {
        match list_entry(ls.last()) {
            Some(e) => list_entries(ls.drop_last()).push(e),
            None => list_entries(ls.drop_last()),
        }
    }
}

fn parse_list_line(line: &[char]) -> (r: Option<(Vec<char>, Vec<char>)>)
    ensures
        match list_entry(line@) {
            Some((id, name)) => r matches Some((a, b)) && a@ == id && b@ == name,
            None => r is None,
        },
{
    let l = trim_ws(line);
    if l.len() == 0 {
        return None;
    }
    let parts = match split_once(&l, &str_chars(":")) {
        Some(p) => Some(p),
        None => split_once(&l, &str_chars(" - ")),
    };
    match parts {
        None => None,
        Some((a, b)) => {
            let id = trim_ws(&a);
            let name = trim_ws(&b);
            if id_ok(&id) && name.len() > 0 {
                Some((id, name))
            } else {
                None
            }
        },
    }
}

/// The devices of a `ratbagctl list` answer, in order.
pub fn parse_list(text: &str) -> (r: Vec<RatbagDevice>)
    ensures
        r@.len() == list_entries(lines(text@)).len(),
        forall|i: int|
            0 <= i < r@.len() ==> {
                &&& (#[trigger] r@[i]).id@ == list_entries(lines(text@))[i].0
                &&& r@[i].name@ == list_entries(lines(text@))[i].1
                &&& r@[i].model is None
            },
{
    let ls = split_lines(&str_chars(text));
    let ghost all = lines(text@);
    let mut out: Vec<RatbagDevice> = Vec::new();
    let mut i: usize = 0;
    while i < ls.len()
        invariant
            i <= ls@.len(),
            ls@.len() == all.len(),
            forall|k: int| 0 <= k < ls@.len() ==> #[trigger] ls@[k]@ == all[k],
            out@.len() == list_entries(all.take(i as int)).len(),
            forall|k: int|
                0 <= k < out@.len() ==> {
                    &&& (#[trigger] out@[k]).id@ == list_entries(all.take(i as int))[k].0
                    &&& out@[k].name@ == list_entries(all.take(i as int))[k].1
                    &&& out@[k].model is None
                },
        decreases ls@.len() - i,
    {
        assert(all.take(i as int + 1).drop_last() == all.take(i as int));
        assert(all.take(i as int + 1).last() == ls@[i as int]@);
        match parse_list_line(&ls[i]) {
            Some((id, name)) => {
                out.push(RatbagDevice { id: string_from(&id), name: string_from(&name), model: None });
            },
            None => {},
        }
        i = i + 1;
    }
    assert(all.take(all.len() as int) == all);
    out
}

/// The value of the first `Model:` line of a `ratbagctl <id> info` answer.
pub open spec fn model_of(ls: Seq<Seq<char>>) -> Option<Seq<char>>
    decreases ls.len(),
{
    if ls.len() == 0 {
        None
    } else {
        match strip_prefix_spec(trim(ls[0]), "Model:"@) {
            Some(v) => Some(trim(v)),
            None => model_of(ls.drop_first()),
        }
    }
}

/// A line that, trimmed, starts with `Model:`.
pub open spec fn is_model_line(l: Seq<char>) -> bool {
    strip_prefix_spec(trim(l), "Model:"@) is Some
}

/// The model an `info` answer names is the trimmed rest of its first line
/// that, trimmed, starts with `Model:`; there is none exactly when no line
/// does.
pub proof fn law_model_is_first_model_line(ls: Seq<Seq<char>>)
    ensures
        model_of(ls) is None <==> forall|k: int| 0 <= k < ls.len() ==> !#[trigger] is_model_line(ls[k]),
        model_of(ls) matches Some(m) ==> exists|k: int|
            0 <= k < ls.len() && #[trigger] is_model_line(ls[k]) && m == trim(
                strip_prefix_spec(trim(ls[k]), "Model:"@)->0,
            ) && forall|j: int| 0 <= j < k ==> !#[trigger] is_model_line(ls[j]),
    decreases ls.len(),
{
    if ls.len() > 0 {
        law_model_is_first_model_line(ls.drop_first());
        if !is_model_line(ls[0]) {
            assert forall|k: int| 1 <= k < ls.len() implies ls[k] == ls.drop_first()[k - 1] by {}
            if model_of(ls) is None {
                assert forall|k: int| 0 <= k < ls.len() implies !#[trigger] is_model_line(ls[k]) by {
                    if k > 0 {
                        assert(!is_model_line(ls.drop_first()[k - 1]));
                    }
                }
            } else {
                let k0 = choose|k: int|
                    0 <= k < ls.drop_first().len() && #[trigger] is_model_line(ls.drop_first()[k])
                        && model_of(ls) == Some(
                        trim(strip_prefix_spec(trim(ls.drop_first()[k]), "Model:"@)->0),
                    ) && forall|j: int| 0 <= j < k ==> !#[trigger] is_model_line(ls.drop_first()[j]);
                assert(is_model_line(ls[k0 + 1]));
                assert forall|j: int| 0 <= j < k0 + 1 implies !#[trigger] is_model_line(ls[j]) by {
                    if j > 0 {
                        assert(!is_model_line(ls.drop_first()[j - 1]));
                    }
                }
            }
            if forall|k: int| 0 <= k < ls.len() ==> !#[trigger] is_model_line(ls[k]) {
                assert forall|k: int| 0 <= k < ls.drop_first().len() implies !#[trigger] is_model_line(
                    ls.drop_first()[k],
                ) by {
                    assert(!is_model_line(ls[k + 1]));
                }
            }
        }
    }
}

pub fn model_line(info: &str) -> (r: Option<String>)
    ensures
        match model_of(lines(info@)) {
            Some(m) => r matches Some(s) && s@ == m,
            None => r is None,
        },
{
    let ls = split_lines(&str_chars(info));
    let ghost all = lines(info@);
    let prefix = str_chars("Model:");
    let mut i: usize = 0;
    assert(all.skip(0) =~= all);
    while i < ls.len()
        invariant
            i <= ls@.len(),
            ls@.len() == all.len(),
            prefix@ == "Model:"@,
            all == lines(info@),
            forall|k: int| 0 <= k < ls@.len() ==> #[trigger] ls@[k]@ == all[k],
            model_of(all) == model_of(all.skip(i as int)),
        decreases ls@.len() - i,
    {
        let t = trim_ws(&ls[i]);
        assert(all.skip(i as int).len() > 0);
        assert(all.skip(i as int)[0] == ls@[i as int]@);
        assert(all.skip(i as int).drop_first() == all.skip(i as int + 1));
        match strip_prefix(&t, &prefix) {
            Some(v) => {
                assert(strip_prefix_spec(trim(all.skip(i as int)[0]), "Model:"@) == Some(v@));
                assert(model_of(all.skip(i as int)) == Some(trim(v@)));
                return Some(string_from(&trim_ws(&v)));
            },
            None => {},
        }
        i = i + 1;
    }
    None
}

// ---------------------------------------------------------------- info

/// What has been read of a `ratbagctl <id> info` answer: the profile the
/// lines belong to, what the active profile declares, and whether a
/// resolution index came up that no vector can hold one past.
pub struct InfoScan {
    pub current: Option<u8>,
    pub active_profile: Option<u8>,
    pub report_rate_hz: Option<u16>,
    pub dpi_stages: Seq<u16>,
    pub active_dpi_stage: Option<usize>,
    pub button_count: Option<u16>,
    pub overflow: bool,
}

pub open spec fn empty_scan() -> InfoScan {
    InfoScan {
        current: None,
        active_profile: None,
        report_rate_hz: None,
        dpi_stages: Seq::empty(),
        active_dpi_stage: None,
        button_count: None,
        overflow: false,
    }
}

/// `n` of a `Profile <n>: ...` line.
pub open spec fn profile_number(line: Seq<char>) -> Option<u8> {
    match strip_prefix_spec(line, "Profile "@) {
        Some(rest) => match parse_bounded(before_pat(rest, ":"@), 10, 255) {
            Some(n) => Some(n as u8),
            None => None,
        },
        None => None,
    }
}

/// `n` of a `Report Rate: <n>Hz` line.
pub open spec fn report_rate(line: Seq<char>) -> Option<u16> {
    match strip_prefix_spec(line, "Report Rate:"@) {
        Some(rest) => match strip_suffix_spec(trim(rest), "Hz"@) {
            Some(v) => match parse_bounded(v, 10, 65535) {
                Some(n) => Some(n as u16),
                None => None,
            },
            None => None,
        },
        None => None,
    }
}

/// `n` of a `Number of Buttons: <n>` line.
pub open spec fn button_number(line: Seq<char>) -> Option<u16> {
    match strip_prefix_spec(line, "Number of Buttons:"@) {
        Some(rest) => match parse_bounded(trim(rest), 10, 65535) {
            Some(n) => Some(n as u16),
            None => None,
        },
        None => None,
    }
}

/// The first whitespace-separated word of `s`, or nothing.
pub open spec fn first_word(s: Seq<char>) -> Seq<char> {
    if words(s).len() > 0 {
        words(s)[0]
    } else {
        Seq::empty()
    }
}

/// The value of a resolution token: the part before the first `x` without
/// its `dpi` suffix; the whole token where that part has no such suffix.
pub open spec fn dpi_value(token: Seq<char>) -> Option<u16> {
    let text = match strip_suffix_spec(before_pat(token, "x"@), "dpi"@) {
        Some(v) => v,
        None => token,
    };
    match parse_bounded(text, 10, 65535) {
        Some(n) => Some(n as u16),
        None => None,
    }
}

/// A resolution line `<index>: <value>dpi ...`: its index, its value and
/// whether it is marked `(active)`.
pub open spec fn dpi_line(line: Seq<char>) -> Option<(nat, u16, bool)> {
    match split_once_spec(line, ":"@) {
        Some(parts) => match parse_bounded(trim(parts.0), 10, usize::MAX as nat) {
            Some(i) => if contains(parts.1, "dpi"@) {
                match dpi_value(first_word(parts.1)) {
                    Some(d) => Some((i, d, contains(parts.1, "(active)"@))),
                    None => None,
                }
            } else {
                None
            },
            None => None,
        },
        None => None,
    }
}

/// `stages` with entry `i` set to `d`, after padding with zeros to reach it.
pub open spec fn set_stage(stages: Seq<u16>, i: nat, d: u16) -> Seq<u16> {
    let padded = if stages.len() <= i {
        stages + Seq::new((i + 1 - stages.len()) as nat, |k: int| 0u16)
    } else {
        stages
    };
    padded.update(i as int, d)
}

/// The settings lines of the profile being read.
pub open spec fn profile_step(s: InfoScan, line: Seq<char>) -> InfoScan {
    let rated = match report_rate(line) {
        Some(r) => InfoScan { report_rate_hz: Some(r), ..s },
        None => s,
    };
    match dpi_line(line) {
        Some(e) => if e.0 >= usize::MAX {
            InfoScan { overflow: true, ..rated }
        } else {
            InfoScan {
                dpi_stages: set_stage(rated.dpi_stages, e.0, e.1),
                active_dpi_stage: if e.2 {
                    Some(e.0 as usize)
                } else {
                    rated.active_dpi_stage
                },
                ..rated
            }
        },
        None => rated,
    }
}

/// One line of the answer, trimmed: a profile header switches the profile
/// being read; other lines count where that profile is the active one (or
/// while neither is known); the button count counts anywhere.
pub open spec fn info_step(s: InfoScan, raw: Seq<char>) -> InfoScan {
    let line = trim(raw);
    if has_prefix(line, "Profile "@) {
        match profile_number(line) {
            Some(n) => InfoScan {
                current: Some(n),
                active_profile: if contains(line, "(active)"@) {
                    Some(n)
                } else {
                    s.active_profile
                },
                ..s
            },
            None => s,
        }
    } else {
        let read = if s.current == s.active_profile {
            profile_step(s, line)
        } else {
            s
        };
        match button_number(line) {
            Some(b) => InfoScan { button_count: Some(b), ..read },
            None => read,
        }
    }
}

pub open spec fn info_scan(ls: Seq<Seq<char>>) -> InfoScan
    decreases ls.len(),
{
    if ls.len() == 0 {
        empty_scan()
    } else {
        info_step(info_scan(ls.drop_last()), ls.last())
    }
}

/// Once an index too large has come up, the answer stays one that cannot
/// be read.
proof fn lemma_overflow_stays(ls: Seq<Seq<char>>, j: int)
    requires
        0 <= j <= ls.len(),
        info_scan(ls.take(j)).overflow,
    ensures
        info_scan(ls).overflow,
    decreases ls.len() - j,
{
    if j < ls.len() {
        assert(ls.take(j + 1).drop_last() == ls.take(j));
        lemma_overflow_stays(ls, j + 1);
    } else {
        assert(ls.take(j) == ls);
    }
}

fn profile_number_of(line: &Vec<char>) -> (r: Option<u8>)
    ensures
        r == profile_number(line@),
{
    match strip_prefix(line, &str_chars("Profile ")) {
        Some(rest) => match parse_num(&before_pat_of(&rest, &str_chars(":")), 10, 255) {
            Some(n) => Some(n as u8),
            None => None,
        },
        None => None,
    }
}

fn report_rate_of(line: &Vec<char>) -> (r: Option<u16>)
    ensures
        r == report_rate(line@),
{
    match strip_prefix(line, &str_chars("Report Rate:")) {
        Some(rest) => match strip_suffix(&trim_ws(&rest), &str_chars("Hz")) {
            Some(v) => match parse_num(&v, 10, 65535) {
                Some(n) => Some(n as u16),
                None => None,
            },
            None => None,
        },
        None => None,
    }
}

fn button_number_of(line: &Vec<char>) -> (r: Option<u16>)
    ensures
        r == button_number(line@),
{
    match strip_prefix(line, &str_chars("Number of Buttons:")) {
        Some(rest) => match parse_num(&trim_ws(&rest), 10, 65535) {
            Some(n) => Some(n as u16),
            None => None,
        },
        None => None,
    }
}

fn dpi_value_of(token: &Vec<char>) -> (r: Option<u16>)
    ensures
        r == dpi_value(token@),
{
    let piece = before_pat_of(token, &str_chars("x"));
    let text = match strip_suffix(&piece, &str_chars("dpi")) {
        Some(v) => v,
        None => slice_of(token, 0, token.len()),
    };
    assert(text@ == (match strip_suffix_spec(before_pat(token@, "x"@), "dpi"@) {
        Some(v) => v,
        None => token@,
    }));
    match parse_num(&text, 10, 65535) {
        Some(n) => Some(n as u16),
        None => None,
    }
}

fn dpi_line_of(line: &Vec<char>) -> (r: Option<(u64, u16, bool)>)
    ensures
        match dpi_line(line@) {
            Some(e) => r matches Some(v) && v.0 == e.0 && v.1 == e.1 && v.2 == e.2,
            None => r is None,
        },
{
    let max: u64 = usize::MAX as u64;
    match split_once(line, &str_chars(":")) {
        Some((index, rest)) => match parse_num(&trim_ws(&index), 10, max) {
            Some(i) => {
                if contains_sub(&rest, &str_chars("dpi")) {
                    let ws = split_ws(&rest);
                    let token = if ws.len() > 0 {
                        slice_of(&ws[0], 0, ws[0].len())
                    } else {
                        Vec::new()
                    };
                    assert(token@ == first_word(rest@));
                    match dpi_value_of(&token) {
                        Some(d) => Some((i, d, contains_sub(&rest, &str_chars("(active)")))),
                        None => None,
                    }
                } else {
                    None
                }
            },
            None => None,
        },
        None => None,
    }
}

/// The state of the mouse that a `ratbagctl <device> info` answer shows:
/// the active profile (the first, where none is marked), and that
/// profile's report rate, resolutions and active resolution, with the
/// button count. The answer must not list a resolution at index
/// `usize::MAX` for the profile being read.
pub fn parse_info(device: &str, text: &str) -> (r: Result<MouseDeviceState, BackendError>)
    requires
        !info_scan(lines(text@)).overflow,
    ensures
        r matches Ok(st) && {
            let s = info_scan(lines(text@));
            &&& st.backend_device_id@ == device@
            &&& st.active_profile == (if s.active_profile is None {
                Some(0u8)
            } else {
                s.active_profile
            })
            &&& st.dpi_stages@ == s.dpi_stages
            &&& st.active_dpi_stage == s.active_dpi_stage
            &&& st.report_rate_hz == s.report_rate_hz
            &&& st.button_count == s.button_count
            &&& st.button_assignments@.len() == 0
            &&& st.lift_off_distance_mm is None
            &&& st.lighting is None
        },
{
    let ls = split_lines(&str_chars(text));
    let ghost all = lines(text@);
    let mut current: Option<u8> = None;
    let mut active: Option<u8> = None;
    let mut rate: Option<u16> = None;
    let mut stages: Vec<u16> = Vec::new();
    let mut active_stage: Option<usize> = None;
    let mut buttons: Option<u16> = None;
    let mut i: usize = 0;
    assert(all.take(0) == Seq::<Seq<char>>::empty());
    while i < ls.len()
        invariant
            i <= ls@.len(),
            all == lines(text@),
            ls@.len() == all.len(),
            forall|k: int| 0 <= k < ls@.len() ==> #[trigger] ls@[k]@ == all[k],
            !info_scan(all).overflow,
            info_scan(all.take(i as int)) == (InfoScan {
                current,
                active_profile: active,
                report_rate_hz: rate,
                dpi_stages: stages@,
                active_dpi_stage: active_stage,
                button_count: buttons,
                overflow: false,
            }),
        decreases ls@.len() - i,
    {
        let ghost before = info_scan(all.take(i as int));
        assert(all.take(i as int + 1).drop_last() == all.take(i as int));
        assert(all.take(i as int + 1).last() == ls@[i as int]@);
        let ghost after = info_step(before, ls@[i as int]@);
        assert(info_scan(all.take(i as int + 1)) == after);
        proof {
            if after.overflow {
                lemma_overflow_stays(all, i as int + 1);
            }
        }
        let line = trim_ws(&ls[i]);
        if starts_with(&line, &str_chars("Profile ")) {
            match profile_number_of(&line) {
                Some(n) => {
                    current = Some(n);
                    if contains_sub(&line, &str_chars("(active)")) {
                        active = Some(n);
                    }
                },
                None => {},
            }
        } else {
            if current == active {
                match report_rate_of(&line) {
                    Some(r) => {
                        rate = Some(r);
                    },
                    None => {},
                }
                match dpi_line_of(&line) {
                    Some((index, dpi, is_active)) => {
                        let idx = index as usize;
                        let ghost old_stages = stages@;
                        if stages.len() <= idx {
                            while stages.len() <= idx
                                invariant
                                    idx < usize::MAX,
                                    old_stages.len() <= stages@.len() <= idx + 1,
                                    stages@ == old_stages + Seq::new(
                                        (stages@.len() - old_stages.len()) as nat,
                                        |k: int| 0u16,
                                    ),
                                decreases idx + 1 - stages@.len(),
                            {
                                stages.push(0);
                            }
                        } else {
                            assert(stages@ == old_stages);
                        }
                        assert(stages@ == (if old_stages.len() <= idx {
                            old_stages + Seq::new((idx + 1 - old_stages.len()) as nat, |k: int| 0u16)
                        } else {
                            old_stages
                        }));
                        stages.set(idx, dpi);
                        if is_active {
                            active_stage = Some(idx);
                        }
                    },
                    None => {},
                }
            }
            match button_number_of(&line) {
                Some(b) => {
                    buttons = Some(b);
                },
                None => {},
            }
        }
        i = i + 1;
    }
    assert(all.take(all.len() as int) == all);
    if active.is_none() {
        active = Some(0);
    }
    Ok(MouseDeviceState {
        backend_device_id: owned(device),
        active_profile: active,
        dpi_stages: stages,
        active_dpi_stage: active_stage,
        report_rate_hz: rate,
        button_count: buttons,
        button_assignments: Vec::new(),
        lift_off_distance_mm: None,
        lighting: None,
    })
}

/// Whether `parse_info` can read `text`: false exactly when the profile
/// being read lists a resolution at index `usize::MAX` or above.
pub fn info_within_limits(text: &str) -> (r: bool)
    ensures
        r == !info_scan(lines(text@)).overflow,
{
    let ls = split_lines(&str_chars(text));
    let ghost all = lines(text@);
    let mut current: Option<u8> = None;
    let mut active: Option<u8> = None;
    let mut i: usize = 0;
    assert(all.take(0) == Seq::<Seq<char>>::empty());
    while i < ls.len()
        invariant
            i <= ls@.len(),
            all == lines(text@),
            ls@.len() == all.len(),
            forall|k: int| 0 <= k < ls@.len() ==> #[trigger] ls@[k]@ == all[k],
            info_scan(all.take(i as int)).current == current,
            info_scan(all.take(i as int)).active_profile == active,
            !info_scan(all.take(i as int)).overflow,
        decreases ls@.len() - i,
    {
        assert(all.take(i as int + 1).drop_last() == all.take(i as int));
        assert(all.take(i as int + 1).last() == ls@[i as int]@);
        let line = trim_ws(&ls[i]);
        if starts_with(&line, &str_chars("Profile ")) {
            match profile_number_of(&line) {
                Some(n) => {
                    current = Some(n);
                    if contains_sub(&line, &str_chars("(active)")) {
                        active = Some(n);
                    }
                },
                None => {},
            }
        } else if current == active {
            match dpi_line_of(&line) {
                Some((index, _dpi, _is_active)) => {
                    if index as u128 >= usize::MAX as u128 {
                        proof {
                            lemma_overflow_stays(all, i as int + 1);
                        }
                        return false;
                    }
                },
                None => {},
            }
        }
        i = i + 1;
    }
    assert(all.take(all.len() as int) == all);
    true
}

// ------------------------------------------------------------ commands

/// The ratbagd command-line client. Each request returns the arguments of
/// the `ratbagctl` run that carries it out, once they are checked.
#[derive(Debug, Default, Clone, Copy)]
pub struct RatbagClient;

impl RatbagClient {

    /// The listed devices, each with the model that its `info` answer names:
    /// `infos[i]` is what `ratbagctl <id> info` printed for the `i`-th listed
    /// device, `None` where that run failed.
    pub fn devices(&self, list_text: &str, infos: &[Option<String>]) -> (r: Vec<RatbagDevice>)
        ensures
            r@.len() == list_entries(lines(list_text@)).len(),
            forall|i: int|
                0 <= i < r@.len() ==> {
                    &&& (#[trigger] r@[i]).id@ == list_entries(lines(list_text@))[i].0
                    &&& r@[i].name@ == list_entries(lines(list_text@))[i].1
                    &&& opt_view(r@[i].model) == (if i < infos@.len() && infos@[i] is Some {
                        model_of(lines(infos@[i]->0@))
                    } else {
                        None
                    })
                },
    {
        let listed = parse_list(list_text);
        let mut out: Vec<RatbagDevice> = Vec::new();
        let mut i: usize = 0;
        while i < listed.len()
            invariant
                i <= listed@.len(),
                listed@.len() == list_entries(lines(list_text@)).len(),
                forall|k: int|
                    0 <= k < listed@.len() ==> {
                        &&& (#[trigger] listed@[k]).id@ == list_entries(lines(list_text@))[k].0
                        &&& listed@[k].name@ == list_entries(lines(list_text@))[k].1
                    },
                out@.len() == i,
                forall|k: int|
                    0 <= k < i ==> {
                        &&& (#[trigger] out@[k]).id@ == list_entries(lines(list_text@))[k].0
                        &&& out@[k].name@ == list_entries(lines(list_text@))[k].1
                        &&& opt_view(out@[k].model) == (if k < infos@.len() && infos@[k] is Some {
                            model_of(lines(infos@[k]->0@))
                        } else {
                            None
                        })
                    },
            decreases listed@.len() - i,
        {
            let model = if i < infos.len() {
                match &infos[i] {
                    Some(text) => model_line(text.as_str()),
                    None => None,
                }
            } else {
                None
            };
            let d = &listed[i];
            out.push(RatbagDevice { id: copy_string(&d.id), name: copy_string(&d.name), model });
            i = i + 1;
        }
        out
    }


    /// `[device, "info"]`, for a valid device id.
    pub fn state_command(&self, device: &str) -> (r: Result<Vec<String>, BackendError>)
        ensures
            r is Ok <==> valid_id(device@),
            r matches Ok(v) ==> string_views(v@) == seq![device@, "info"@],
            !valid_id(device@) ==> (r matches Err(BackendError::Invalid(m)) && m@
                == "invalid ratbag device identifier"@),
    {
        match validate_id(device) {
            Ok(()) => {},
            Err(e) => return Err(e),
        }
        let v = vec![owned(device), owned("info")];
        assert(string_views(v@) =~= seq![device@, "info"@]);
        Ok(v)
    }

    /// The arguments that set the DPI of one resolution of a profile.
    pub fn set_dpi(&self, device: &str, profile: u8, resolution: usize, dpi: u16) -> (r: Result<
        Vec<String>,
        BackendError,
    >)
        ensures
            r is Ok <==> valid_id(device@) && 100 <= dpi <= 30000,
            r matches Ok(v) ==> string_views(v@) == seq![
                device@,
                "profile"@,
                dec_str(profile as nat),
                "resolution"@,
                dec_str(resolution as nat),
                "dpi"@,
                "set"@,
                dec_str(dpi as nat),
            ],
            !valid_id(device@) ==> (r matches Err(BackendError::Invalid(m)) && m@
                == "invalid ratbag device identifier"@),
            valid_id(device@) && !(100 <= dpi <= 30000) ==> (r matches Err(BackendError::Invalid(m))
                && m@ == "DPI must be 100..=30000"@),
    {
        match validate_id(device) {
            Ok(()) => {},
            Err(e) => return Err(e),
        }
        match validate_dpi(dpi) {
            Ok(()) => {},
            Err(e) => return Err(e),
        }
        let v = vec![
            owned(device),
            owned("profile"),
            string_from(&fmt_dec(profile as u64)),
            owned("resolution"),
            string_from(&fmt_dec(resolution as u64)),
            owned("dpi"),
            owned("set"),
            string_from(&fmt_dec(dpi as u64)),
        ];
        assert(string_views(v@) =~= seq![
            device@,
            "profile"@,
            dec_str(profile as nat),
            "resolution"@,
            dec_str(resolution as nat),
            "dpi"@,
            "set"@,
            dec_str(dpi as nat),
        ]);
        Ok(v)
    }

    /// The arguments that make a resolution of a profile the active one.
    pub fn set_active_resolution(&self, device: &str, profile: u8, resolution: usize) -> (r: Result<
        Vec<String>,
        BackendError,
    >)
        ensures
            r is Ok <==> valid_id(device@),
            r matches Ok(v) ==> string_views(v@) == seq![
                device@,
                "profile"@,
                dec_str(profile as nat),
                "resolution"@,
                "active"@,
                "set"@,
                dec_str(resolution as nat),
            ],
            !valid_id(device@) ==> (r matches Err(BackendError::Invalid(m)) && m@
                == "invalid ratbag device identifier"@),
    {
        match validate_id(device) {
            Ok(()) => {},
            Err(e) => return Err(e),
        }
        let v = vec![
            owned(device),
            owned("profile"),
            string_from(&fmt_dec(profile as u64)),
            owned("resolution"),
            owned("active"),
            owned("set"),
            string_from(&fmt_dec(resolution as u64)),
        ];
        assert(string_views(v@) =~= seq![
            device@,
            "profile"@,
            dec_str(profile as nat),
            "resolution"@,
            "active"@,
            "set"@,
            dec_str(resolution as nat),
        ]);
        Ok(v)
    }

    /// The arguments that set the report rate of a profile.
    pub fn set_report_rate(&self, device: &str, profile: u8, hz: u16) -> (r: Result<Vec<String>, BackendError>)
        ensures
            r is Ok <==> valid_id(device@) && supported_rate(hz),
            r matches Ok(v) ==> string_views(v@) == seq![
                device@,
                "profile"@,
                dec_str(profile as nat),
                "rate"@,
                "set"@,
                dec_str(hz as nat),
            ],
            !valid_id(device@) ==> (r matches Err(BackendError::Invalid(m)) && m@
                == "invalid ratbag device identifier"@),
            valid_id(device@) && !supported_rate(hz) ==> (r matches Err(BackendError::Invalid(m))
                && m@ == "unsupported report rate"@),
    {
        match validate_id(device) {
            Ok(()) => {},
            Err(e) => return Err(e),
        }
        match check_report_rate(hz) {
            Ok(()) => {},
            Err(e) => return Err(e),
        }
        let v = vec![
            owned(device),
            owned("profile"),
            string_from(&fmt_dec(profile as u64)),
            owned("rate"),
            owned("set"),
            string_from(&fmt_dec(hz as u64)),
        ];
        assert(string_views(v@) =~= seq![
            device@,
            "profile"@,
            dec_str(profile as nat),
            "rate"@,
            "set"@,
            dec_str(hz as nat),
        ]);
        Ok(v)
    }

    /// The arguments that make a profile the active one.
    pub fn set_profile(&self, device: &str, profile: u8) -> (r: Result<Vec<String>, BackendError>)
        ensures
            r is Ok <==> valid_id(device@),
            r matches Ok(v) ==> string_views(v@) == seq![
                device@,
                "profile"@,
                "active"@,
                "set"@,
                dec_str(profile as nat),
            ],
            !valid_id(device@) ==> (r matches Err(BackendError::Invalid(m)) && m@
                == "invalid ratbag device identifier"@),
    {
        match validate_id(device) {
            Ok(()) => {},
            Err(e) => return Err(e),
        }
        let v = vec![
            owned(device),
            owned("profile"),
            owned("active"),
            owned("set"),
            string_from(&fmt_dec(profile as u64)),
        ];
        assert(string_views(v@) =~= seq![
            device@,
            "profile"@,
            "active"@,
            "set"@,
            dec_str(profile as nat),
        ]);
        Ok(v)
    }

    /// The arguments that assign an action to a button of a profile: the fixed
    /// words, then the action's tokens.
    pub fn set_button_action(&self, device: &str, profile: u8, button: u32, action: &str) -> (r: Result<
        Vec<String>,
        BackendError,
    >)
        ensures
            r is Ok <==> valid_id(device@) && action_tokens(action@, encode_utf8(action@).len()) is Ok,
            r matches Ok(v) ==> string_views(v@) == seq![
                device@,
                "profile"@,
                dec_str(profile as nat),
                "button"@,
                dec_str(button as nat),
                "action"@,
                "set"@,
            ] + action_tokens(action@, encode_utf8(action@).len())->Ok_0,
            !valid_id(device@) ==> (r matches Err(BackendError::Invalid(m)) && m@
                == "invalid ratbag device identifier"@),
            valid_id(device@) && action_tokens(action@, encode_utf8(action@).len()) is Err ==> (
            r matches Err(BackendError::Invalid(m)) && m@ == action_tokens(
                action@,
                encode_utf8(action@).len(),
            )->Err_0),
    {
        match validate_id(device) {
            Ok(()) => {},
            Err(e) => return Err(e),
        }
        let tokens = match validate_action(action) {
            Ok(t) => t,
            Err(e) => return Err(e),
        };
        let mut v = vec![
            owned(device),
            owned("profile"),
            string_from(&fmt_dec(profile as u64)),
            owned("button"),
            string_from(&fmt_dec(button as u64)),
            owned("action"),
            owned("set"),
        ];
        let ghost head = string_views(v@);
        assert(head =~= seq![
            device@,
            "profile"@,
            dec_str(profile as nat),
            "button"@,
            dec_str(button as nat),
            "action"@,
            "set"@,
        ]);
        let mut k: usize = 0;
        while k < tokens.len()
            invariant
                k <= tokens@.len(),
                string_views(v@) == head + string_views(tokens@).take(k as int),
            decreases tokens@.len() - k,
        {
            let ghost before = v@;
            v.push(crate::text::copy_string(&tokens[k]));
            assert(string_views(v@) =~= string_views(before).push(tokens@[k as int]@));
            assert(string_views(tokens@).take(k as int + 1) =~= string_views(tokens@).take(k as int).push(
                tokens@[k as int]@,
            ));
            k = k + 1;
        }
        assert(string_views(tokens@).take(tokens@.len() as int) =~= string_views(tokens@));
        Ok(v)
    }
}

} // verus!
