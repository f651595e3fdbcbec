//! Audio endpoints and the PipeWire parametric equalizer: reading what
//! `wpctl` and `pw-cli` list, where EQ profiles live, and the PipeWire
//! drop-in that loads one. Running the tools and writing files is left to
//! the caller.
use crate::firmware::{join_path, join_path_chars};
use crate::model::ForgeHxError;
use crate::pipewire::{
    first_by_id, first_property, id_field, order_by_id, pipewire_property, property_on_line,
};
use crate::text::{
    before_pat, before_pat_of, chars_eq, concat, contains, contains_sub, copy_string, dec_str, find, find_digit, find_sub,
    first_digit, fmt_dec, has_prefix, has_suffix, is_char, is_ws, lines, opt_view, owned,
    parse_bounded, parse_num, slice_of, split_lines, str_chars, string_from, strip_prefix,
    strip_prefix_spec, trim, trim_by, trim_char, trim_ws,
};
use vstd::prelude::*;
use vstd::utf8::encode_utf8;

verus! {

// ------------------------------------------------------------ targets

/// What a managed EQ routes its output to.
#[derive(Debug, Clone, PartialEq, Eq)]
pub enum PipeWireTarget {
    NodeName(String),
    ObjectSerial(u64),
}

/// `value` with `\` and `"` escaped for a SPA-JSON string.
pub open spec fn escaped(value: Seq<char>) -> Seq<char>
    decreases value.len(),
{
    if value.len() == 0 {
        Seq::empty()
    } else {
        let c = value.last();
        escaped(value.drop_last()) + if c == '\\' {
            seq!['\\', '\\']
        } else if c == '"' {
            seq!['\\', '"']
        } else {
            seq![c]
        }
    }
}

pub fn escape_spa(value: &str) -> (r: String)
    ensures
        r@ == escaped(value@),
{
    let s = str_chars(value);
    let mut out: Vec<char> = Vec::new();
    let mut i: usize = 0;
    while i < s.len()
        invariant
            i <= s@.len(),
            out@ == escaped(s@.take(i as int)),
        decreases s@.len() - i,
    {
        let c = s[i];
        assert(s@.take(i as int + 1).drop_last() == s@.take(i as int));
        let ghost before = out@;
        if c == '\\' {
            out.push('\\');
            out.push('\\');
            assert(out@ =~= before + seq!['\\', '\\']);
        } else if c == '"' {
            out.push('\\');
            out.push('"');
            assert(out@ =~= before + seq!['\\', '"']);
        } else {
            out.push(c);
            assert(out@ =~= before + seq![c]);
        }
        i = i + 1;
    }
    assert(s@.take(s@.len() as int) == s@);
    string_from(&out)
}

impl PipeWireTarget {
    /// The target as a SPA-JSON value: a quoted name or a bare serial.
    pub open spec fn config_text(&self) -> Seq<char> {
        match self {
            PipeWireTarget::NodeName(n) => "\""@ + escaped(n@) + "\""@,
            PipeWireTarget::ObjectSerial(s) => dec_str(*s as nat),
        }
    }

    pub fn config_value(&self) -> (r: String)
        ensures
            r@ == self.config_text(),
    {
        match self {
            PipeWireTarget::NodeName(n) => {
                let e = escape_spa(n.as_str());
                string_from(&concat(&concat(&str_chars("\""), &str_chars(e.as_str())), &str_chars("\"")))
            },
            PipeWireTarget::ObjectSerial(s) => string_from(&fmt_dec(*s)),
        }
    }
}

/// The routing target `wpctl inspect` gives for a node: its name, else its
/// object serial.
pub open spec fn target_of(text: Seq<char>) -> Option<(bool, Seq<char>, u64)> {
    match first_property(lines(text), "node.name"@) {
        Some(n) => Some((true, n, 0)),
        None => match first_property(lines(text), "object.serial"@) {
            Some(s) => match parse_bounded(s, 10, 0xffff_ffff_ffff_ffff) {
                Some(v) => Some((false, Seq::empty(), v as u64)),
                None => None,
            },
            None => None,
        },
    }
}

pub open spec fn target_view(t: PipeWireTarget) -> (bool, Seq<char>, u64) {
    match t {
        PipeWireTarget::NodeName(n) => (true, n@, 0),
        PipeWireTarget::ObjectSerial(s) => (false, Seq::empty(), s),
    }
}

pub fn parse_pipewire_target(text: &str) -> (r: Option<PipeWireTarget>)
    ensures
        match target_of(text@) {
            Some(t) => r matches Some(x) && target_view(x) == t,
            None => r is None,
        },
{
    if let Some(name) = pipewire_property(text, "node.name") {
        return Some(PipeWireTarget::NodeName(name));
    }
    match pipewire_property(text, "object.serial") {
        Some(s) => match parse_num(&str_chars(s.as_str()), 10, 0xffff_ffff_ffff_ffff) {
            Some(v) => Some(PipeWireTarget::ObjectSerial(v)),
            None => None,
        },
        None => None,
    }
}

/// The EQ routing target that `wpctl inspect <node_id>` printed, or why
/// there is none.
pub fn node_target(node_id: u32, inspect: &str) -> (r: Result<PipeWireTarget, ForgeHxError>)
    ensures
        match target_of(inspect@) {
            Some(t) => r matches Ok(x) && target_view(x) == t,
            None => r matches Err(ForgeHxError::AudioUnavailable(m)) && m@ == "PipeWire node "@
                + dec_str(node_id as nat)
                + " has neither node.name nor object.serial; EQ routing for this node is unavailable"@,
        },
{
    match parse_pipewire_target(inspect) {
        Some(t) => Ok(t),
        None => Err(
            ForgeHxError::AudioUnavailable(
                string_from(
                    &concat(
                        &concat(&str_chars("PipeWire node "), &fmt_dec(node_id as u64)),
                        &str_chars(
                            " has neither node.name nor object.serial; EQ routing for this node is unavailable",
                        ),
                    ),
                ),
            ),
        ),
    }
}

/// The stable node name in `wpctl inspect` output, when the target is one.
pub fn parse_node_name(text: &str) -> (r: Option<String>)
    ensures
        match target_of(text@) {
            Some((true, n, _)) => r matches Some(s) && s@ == n,
            _ => r is None,
        },
{
    match parse_pipewire_target(text) {
        Some(PipeWireTarget::NodeName(name)) => Some(name),
        _ => None,
    }
}

// ------------------------------------------------------------ EQ profiles

/// A profile name that can be a file name: not blank, at most 96 bytes, no
/// path separator, not `.` or `..`.
pub open spec fn plain_name(name: Seq<char>) -> bool {
    trim(name).len() > 0 && encode_utf8(name).len() <= 96 && !name.contains('/') && !name.contains(
        '\\',
    ) && name != "."@ && name != ".."@
}

fn has_char(s: &Vec<char>, c: char) -> (r: bool)
    ensures
        r == s@.contains(c),
{
    let mut i: usize = 0;
    while i < s.len()
        invariant
            i <= s@.len(),
            forall|j: int| 0 <= j < i ==> s@[j] != c,
        decreases s@.len() - i,
    {
        if s[i] == c {
            assert(s@[i as int] == c);
            return true;
        }
        i = i + 1;
    }
    false
}

/// Whether `name` is a plain file name.
pub fn is_plain_name(name: &str) -> (r: bool)
    ensures
        r == plain_name(name@),
{
    let chars = str_chars(name);
    let bytes = name.as_bytes().len();
    !(trim_ws(&chars).len() == 0 || bytes > 96 || has_char(&chars, '/') || has_char(&chars, '\\')
        || chars_eq(&chars, &str_chars(".")) || chars_eq(&chars, &str_chars("..")))
}

pub fn validate_eq_name(name: &str) -> (r: Result<(), ForgeHxError>)
    ensures
        r is Ok <==> plain_name(name@),
        r matches Err(e) ==> e matches ForgeHxError::InvalidProfile(m) && m@
            == "invalid EQ profile name"@,
{
    if is_plain_name(name) {
        Ok(())
    } else {
        Err(ForgeHxError::InvalidProfile(owned("invalid EQ profile name")))
    }
}

/// The name an EQ configuration may carry: not blank, no path separator.
pub open spec fn eq_config_name(name: Seq<char>) -> bool {
    trim(name).len() > 0 && !name.contains('/') && !name.contains('\\')
}

/// Whether an EQ configuration's name is acceptable.
pub fn eq_config_name_ok(name: &str) -> (r: bool)
    ensures
        r == eq_config_name(name@),
{
    let chars = str_chars(name);
    !(trim_ws(&chars).len() == 0 || has_char(&chars, '/') || has_char(&chars, '\\'))
}

/// What is wrong with an EQ configuration's layout, if anything: between
/// one and eight channels, one channel-map entry per channel, then at most
/// 32 filters.
pub open spec fn eq_layout(channels: u8, channel_map_len: nat, filters: nat) -> Option<Seq<char>> {
    if channels == 0 || channels > 8 || channel_map_len != channels {
        Some("EQ channel map does not match channel count"@)
    } else if filters > 32 {
        Some("EQ supports at most 32 filters"@)
    } else {
        None
    }
}

pub fn eq_layout_error(channels: u8, channel_map_len: usize, filters: usize) -> (r: Option<String>)
    ensures
        match eq_layout(channels, channel_map_len as nat, filters as nat) {
            None => r is None,
            Some(m) => r matches Some(t) && t@ == m,
        },
{
    if channels == 0 || channels > 8 || channel_map_len != channels as usize {
        return Some(owned("EQ channel map does not match channel count"));
    }
    if filters > 32 {
        return Some(owned("EQ supports at most 32 filters"));
    }
    None
}

/// EQ profiles and the PipeWire drop-in, under a configuration directory.
#[derive(Debug, Clone)]
pub struct EqManager {
    pub config_home: String,
}

impl EqManager {
    pub fn new(config_home: String) -> (r: Self)
        ensures
            r.config_home@ == config_home@,
    {
        EqManager { config_home }
    }

    pub open spec fn eq_dir_spec(&self) -> Seq<char> {
        join_path(self.config_home@, "forgehx/eq"@)
    }

    /// `<config>/forgehx/eq`.
    pub fn eq_dir(&self) -> (r: String)
        ensures
            r@ == self.eq_dir_spec(),
    {
        string_from(&join_path_chars(&str_chars(self.config_home.as_str()), &str_chars("forgehx/eq")))
    }

    /// `<config>/forgehx/eq/<name>.json`, for a plain name.
    pub fn profile_json(&self, name: &str) -> (r: Result<String, ForgeHxError>)
        ensures
            r is Ok <==> plain_name(name@),
            r matches Ok(p) ==> p@ == join_path(self.eq_dir_spec(), name@ + ".json"@),
            r is Err ==> r->Err_0 is InvalidProfile,
    {
        match validate_eq_name(name) {
            Ok(()) => {},
            Err(e) => return Err(e),
        }
        let dir = self.eq_dir();
        let file = concat(&str_chars(name), &str_chars(".json"));
        Ok(string_from(&join_path_chars(&str_chars(dir.as_str()), &file)))
    }

    /// `<config>/forgehx/eq/<name>.txt`, for a plain name.
    pub fn profile_txt(&self, name: &str) -> (r: Result<String, ForgeHxError>)
        ensures
            r is Ok <==> plain_name(name@),
            r matches Ok(p) ==> p@ == join_path(self.eq_dir_spec(), name@ + ".txt"@),
            r is Err ==> r->Err_0 is InvalidProfile,
    {
        match validate_eq_name(name) {
            Ok(()) => {},
            Err(e) => return Err(e),
        }
        let dir = self.eq_dir();
        let file = concat(&str_chars(name), &str_chars(".txt"));
        Ok(string_from(&join_path_chars(&str_chars(dir.as_str()), &file)))
    }

    /// `<config>/pipewire/pipewire.conf.d/90-forgehx-eq.conf`.
    pub fn pipewire_dropin(&self) -> (r: String)
        ensures
            r@ == join_path(self.config_home@, "pipewire/pipewire.conf.d/90-forgehx-eq.conf"@),
    {
        string_from(
            &join_path_chars(
                &str_chars(self.config_home.as_str()),
                &str_chars("pipewire/pipewire.conf.d/90-forgehx-eq.conf"),
            ),
        )
    }
}

/// The configuration directory: `$XDG_CONFIG_HOME`, else `$HOME/.config`,
/// else `.config`.
pub open spec fn config_home_of(xdg: Option<Seq<char>>, home: Option<Seq<char>>) -> Seq<char> {
    match xdg {
        Some(x) => x,
        None => match home {
            Some(h) => join_path(h, ".config"@),
            None => ".config"@,
        },
    }
}

pub fn default_config_home(xdg: Option<String>, home: Option<String>) -> (r: String)
    ensures
        r@ == config_home_of(opt_view(xdg), opt_view(home)),
{
    match xdg {
        Some(x) => x,
        None => match home {
            Some(h) => string_from(&join_path_chars(&str_chars(h.as_str()), &str_chars(".config"))),
            None => owned(".config"),
        },
    }
}

/// `parts` joined with `sep` between them.
pub open spec fn joined(parts: Seq<Seq<char>>, sep: Seq<char>) -> Seq<char>
    decreases parts.len(),
{
    if parts.len() == 0 {
        Seq::empty()
    } else if parts.len() == 1 {
        parts[0]
    } else {
        joined(parts.drop_last(), sep) + sep + parts.last()
    }
}

pub(crate) fn join_strings(parts: &[String], sep: &str) -> (r: Vec<char>)
    ensures
        r@ == joined(parts@.map_values(|s: String| s@), sep@),
{
    let ghost views = parts@.map_values(|s: String| s@);
    let mut out: Vec<char> = Vec::new();
    let mut i: usize = 0;
    while i < parts.len()
        invariant
            i <= parts@.len(),
            views == parts@.map_values(|s: String| s@),
            out@ == joined(views.take(i as int), sep@),
        decreases parts@.len() - i,
    {
        let ghost t1 = views.take(i as int + 1);
        assert(t1.drop_last() =~= views.take(i as int));
        assert(t1.last() == parts@[i as int]@);
        if i == 0 {
            out = str_chars(parts[0].as_str());
            assert(t1 =~= seq![parts@[0]@]);
        } else {
            out = concat(&concat(&out, &str_chars(sep)), &str_chars(parts[i].as_str()));
        }
        i = i + 1;
    }
    assert(views.take(parts@.len() as int) =~= views);
    out
}

/// The drop-in that loads PipeWire's parametric equalizer with the profile
/// text at `txt_path`, routed to `target` when there is one.
pub open spec fn pipewire_config(
    name: Seq<char>,
    channels: u8,
    channel_map: Seq<Seq<char>>,
    txt_path: Seq<char>,
    target: Option<Seq<char>>,
) -> Seq<char> {
    "# Managed by ForgeHX. Delete or use `forgehx eq bypass` to disable.\ncontext.modules = [\n  { name = libpipewire-module-parametric-equalizer\n    args = {\n      equalizer.filepath = \""@
        + escaped(txt_path) + "\"\n      equalizer.description = \"ForgeHX EQ - "@ + escaped(name)
        + "\"\n      audio.channels = "@ + dec_str(channels as nat)
        + "\n      audio.position = [ "@ + joined(channel_map, " "@)
        + " ]\n      capture.props = {\n        node.name = \"forgehx_eq_input\"\n        media.class = \"Audio/Sink\"\n      }\n      playback.props = {\n        node.name = \"forgehx_eq_output\"\n        node.passive = true\n"@
        + match target {
        Some(t) => "        target.object = "@ + t + "\n        node.dont-reconnect = true\n"@,
        None => Seq::empty(),
    } + "      }\n    }\n  }\n]\n"@
}

pub fn render_pipewire_config(
    name: &str,
    channels: u8,
    channel_map: &[String],
    txt_path: &str,
    target: Option<&PipeWireTarget>,
) -> (r: String)
    ensures
        r@ == pipewire_config(
            name@,
            channels,
            channel_map@.map_values(|s: String| s@),
            txt_path@,
            match target {
                Some(t) => Some(t.config_text()),
                None => None,
            },
        ),
{
    let head = str_chars(
        "# Managed by ForgeHX. Delete or use `forgehx eq bypass` to disable.\ncontext.modules = [\n  { name = libpipewire-module-parametric-equalizer\n    args = {\n      equalizer.filepath = \"",
    );
    let mid1 = str_chars("\"\n      equalizer.description = \"ForgeHX EQ - ");
    let mid2 = str_chars("\"\n      audio.channels = ");
    let mid3 = str_chars("\n      audio.position = [ ");
    let mid4 = str_chars(
        " ]\n      capture.props = {\n        node.name = \"forgehx_eq_input\"\n        media.class = \"Audio/Sink\"\n      }\n      playback.props = {\n        node.name = \"forgehx_eq_output\"\n        node.passive = true\n",
    );
    let tail = str_chars("      }\n    }\n  }\n]\n");
    let target_text = match target {
        Some(t) => {
            let v = t.config_value();
            concat(
                &concat(&str_chars("        target.object = "), &str_chars(v.as_str())),
                &str_chars("\n        node.dont-reconnect = true\n"),
            )
        },
        None => Vec::new(),
    };
    let a = concat(&head, &str_chars(escape_spa(txt_path).as_str()));
    let b = concat(&concat(&a, &mid1), &str_chars(escape_spa(name).as_str()));
    let c = concat(&concat(&b, &mid2), &fmt_dec(channels as u64));
    let d = concat(&concat(&c, &mid3), &join_strings(channel_map, " "));
    let e = concat(&concat(&d, &mid4), &target_text);
    let out = concat(&e, &tail);
    string_from(&out)
}

// ------------------------------------------------------------ wpctl status

/// An entry of `wpctl status` as text: its id, name and kind, the volume
/// as written after `[vol:`, and whether it is marked `MUTED`.
#[derive(Debug, Clone)]
pub struct WpctlEntry {
    pub id: u32,
    pub name: String,
    pub is_source: bool,
    pub volume_text: Option<String>,
    pub muted_marker: bool,
}

pub struct EntryView {
    pub id: u32,
    pub name: Seq<char>,
    pub is_source: bool,
    pub volume_text: Option<Seq<char>>,
    pub muted_marker: bool,
}

pub open spec fn entry_view(e: WpctlEntry) -> EntryView {
    EntryView {
        id: e.id,
        name: e.name@,
        is_source: e.is_source,
        volume_text: opt_view(e.volume_text),
        muted_marker: e.muted_marker,
    }
}

/// Index of the first `]` or whitespace character, or the length.
pub open spec fn piece_end(s: Seq<char>) -> nat
    decreases s.len(),
{
    if s.len() == 0 || s[0] == ']' || is_ws(s[0]) {
        0
    } else {
        1 + piece_end(s.drop_first())
    }
}

/// The volume after the first `[vol:`, up to `]`, whitespace or a second `[vol:`.
pub open spec fn volume_text_of(body: Seq<char>) -> Option<Seq<char>> {
    match find(body, "[vol:"@) {
        Some(k) => {
            let seg = before_pat(body.skip(k as int + 5), "[vol:"@);
            Some(seg.take(piece_end(seg) as int))
        },
        None => None,
    }
}

/// A `wpctl status` entry line: `<id>. <name> [vol: <volume>]`, the id
/// starting at the first digit.
pub open spec fn entry_of(l: Seq<char>, is_source: bool) -> Option<EntryView> {
    match first_digit(l) {
        None => None,
        Some(d) => {
            let tail = l.skip(d as int);
            match find(tail, "."@) {
                None => None,
                Some(k) => match parse_bounded(trim(tail.take(k as int)), 10, 0xffff_ffff) {
                    None => None,
                    Some(id) => {
                        let body = trim(tail.skip(k as int + 1));
                        let name = trim(before_pat(body, "[vol:"@));
                        if name.len() == 0 {
                            None
                        } else {
                            Some(
                                EntryView {
                                    id: id as u32,
                                    name,
                                    is_source,
                                    volume_text: volume_text_of(body),
                                    muted_marker: contains(body, "MUTED"@),
                                },
                            )
                        }
                    },
                },
            }
        },
    }
}

/// The entries under `Sinks:` and `Sources:`, in the order listed; any
/// other heading ends a section.
pub open spec fn scan_status(ls: Seq<Seq<char>>, kind: Option<bool>) -> Seq<EntryView>
    decreases ls.len(),
{
    if ls.len() == 0 {
        Seq::empty()
    } else {
        let l = trim(ls[0]);
        if contains(l, "Sinks:"@) {
            scan_status(ls.drop_first(), Some(false))
        } else if contains(l, "Sources:"@) {
            scan_status(ls.drop_first(), Some(true))
        } else if has_suffix(l, ":"@) {
            scan_status(ls.drop_first(), None)
        } else {
            match kind {
                None => scan_status(ls.drop_first(), kind),
                Some(k) => match entry_of(l, k) {
                    Some(e) => seq![e] + scan_status(ls.drop_first(), kind),
                    None => scan_status(ls.drop_first(), kind),
                },
            }
        }
    }
}

proof fn lemma_piece_end_is(s: Seq<char>, k: int)
    requires
        0 <= k <= s.len(),
        forall|j: int| 0 <= j < k ==> s[j] != ']' && !is_ws(#[trigger] s[j]),
        k == s.len() || s[k] == ']' || is_ws(s[k]),
    ensures
        piece_end(s) == k,
    decreases k,
{
    if k > 0 {
        let t = s.drop_first();
        assert forall|j: int| 0 <= j < k - 1 implies t[j] != ']' && !is_ws(#[trigger] t[j]) by {
            assert(t[j] == s[j + 1]);
        }
        if k < s.len() {
            assert(t[k - 1] == s[k]);
        }
        assert(s[0] != ']' && !is_ws(s[0]));
        lemma_piece_end_is(t, k - 1);
    }
}

fn volume_text(body: &Vec<char>) -> (r: Option<Vec<char>>)
    ensures
        match volume_text_of(body@) {
            Some(v) => r matches Some(x) && x@ == v,
            None => r is None,
        },
{
    proof {
        reveal_strlit("[vol:");
    }
    let vol = str_chars("[vol:");
    match find_sub(body, &vol) {
        Some(k) => {
            proof {
                crate::text::lemma_find_bound(body@, vol@);
                assert(body@.len() == body.len());
            }
            let seg = before_pat_of(&slice_of(body, k + 5, body.len()), &vol);
            let mut e: usize = 0;
            while e < seg.len() && seg[e] != ']' && !crate::text::is_whitespace(seg[e])
                invariant
                    e <= seg@.len(),
                    forall|j: int| 0 <= j < e ==> seg@[j] != ']' && !is_ws(#[trigger] seg@[j]),
                decreases seg@.len() - e,
            {
                e = e + 1;
            }
            proof {
                lemma_piece_end_is(seg@, e as int);
            }
            Some(slice_of(&seg, 0, e))
        },
        None => None,
    }
}

fn entry_line(l: &Vec<char>, is_source: bool) -> (r: Option<WpctlEntry>)
    ensures
        match entry_of(l@, is_source) {
            Some(e) => r matches Some(x) && entry_view(x) == e,
            None => r is None,
        },
{
    let d = match find_digit(l) {
        Some(d) => d,
        None => return None,
    };
    let tail = slice_of(l, d, l.len());
    let dot = str_chars(".");
    let k = match find_sub(&tail, &dot) {
        Some(k) => k,
        None => return None,
    };
    proof {
        crate::text::lemma_find_bound(tail@, dot@);
        reveal_strlit(".");
    }
    let id = match parse_num(&trim_ws(&slice_of(&tail, 0, k)), 10, 0xffff_ffff) {
        Some(v) => v as u32,
        None => return None,
    };
    let body = trim_ws(&slice_of(&tail, k + 1, tail.len()));
    let name = trim_ws(&before_pat_of(&body, &str_chars("[vol:")));
    if name.len() == 0 {
        return None;
    }
    let volume = match volume_text(&body) {
        Some(v) => Some(string_from(&v)),
        None => None,
    };
    Some(
        WpctlEntry {
            id,
            name: string_from(&name),
            is_source,
            volume_text: volume,
            muted_marker: contains_sub(&body, &str_chars("MUTED")),
        },
    )
}

pub open spec fn entry_views(s: Seq<WpctlEntry>) -> Seq<EntryView> {
    s.map_values(|e: WpctlEntry| entry_view(e))
}

fn status_entries(input: &str) -> (r: Vec<WpctlEntry>)
    ensures
        entry_views(r@) == scan_status(lines(input@), None),
{
    let ls = split_lines(&str_chars(input));
    let ghost all = lines(input@);
    let sinks = str_chars("Sinks:");
    let sources = str_chars("Sources:");
    let colon = str_chars(":");
    let mut kind: Option<bool> = None;
    let mut out: Vec<WpctlEntry> = Vec::new();
    let mut i: usize = 0;
    assert(all.skip(0) == all);
    assert(entry_views(out@) + scan_status(all, None) =~= scan_status(all, None));
    while i < ls.len()
        invariant
            i <= ls@.len(),
            all == lines(input@),
            ls@.len() == all.len(),
            sinks@ == "Sinks:"@,
            sources@ == "Sources:"@,
            colon@ == ":"@,
            forall|k: int| 0 <= k < ls@.len() ==> #[trigger] ls@[k]@ == all[k],
            entry_views(out@) + scan_status(all.skip(i as int), kind) == scan_status(all, None),
        decreases ls@.len() - i,
    {
        assert(all.skip(i as int).len() > 0);
        assert(all.skip(i as int)[0] == ls@[i as int]@);
        assert(all.skip(i as int).drop_first() == all.skip(i as int + 1));
        let l = trim_ws(&ls[i]);
        if contains_sub(&l, &sinks) {
            kind = Some(false);
        } else if contains_sub(&l, &sources) {
            kind = Some(true);
        } else if crate::text::ends_with(&l, &colon) {
            kind = None;
        } else {
            match kind {
                None => {},
                Some(k) => match entry_line(&l, k) {
                    Some(e) => {
                        let ghost before = out@;
                        let ghost ev = entry_view(e);
                        out.push(e);
                        assert(entry_views(out@) =~= entry_views(before).push(ev));
                        assert(entry_views(before).push(ev) + scan_status(all.skip(i as int + 1), kind)
                            =~= entry_views(before) + (seq![ev] + scan_status(
                            all.skip(i as int + 1),
                            kind,
                        )));
                    },
                    None => {},
                },
            }
        }
        i = i + 1;
    }
    assert(all.skip(ls@.len() as int) =~= Seq::<Seq<char>>::empty());
    assert(entry_views(out@) + Seq::<EntryView>::empty() =~= entry_views(out@));
    out
}

pub open spec fn entry_ids(s: Seq<EntryView>) -> Seq<u32> {
    s.map_values(|e: EntryView| e.id)
}

/// The sinks and sources of `wpctl status`, sorted by id, the first entry of
/// each id kept.
pub fn parse_wpctl_status(input: &str) -> (r: Vec<WpctlEntry>)
    ensures
        exists|order: Seq<usize>|
            first_by_id(entry_ids(scan_status(lines(input@), None)), order) && entry_views(r@)
                == order.map_values(|k: usize| scan_status(lines(input@), None)[k as int]),
{
    let all = status_entries(input);
    let mut ids: Vec<u32> = Vec::new();
    let mut i: usize = 0;
    while i < all.len()
        invariant
            i <= all@.len(),
            ids@ == entry_ids(entry_views(all@)).take(i as int),
        decreases all@.len() - i,
    {
        ids.push(all[i].id);
        assert(ids@ =~= entry_ids(entry_views(all@)).take(i as int + 1));
        i = i + 1;
    }
    assert(ids@ =~= entry_ids(entry_views(all@)));
    let order = order_by_id(&ids);
    let mut out: Vec<WpctlEntry> = Vec::new();
    let mut k: usize = 0;
    while k < order.len()
        invariant
            k <= order@.len(),
            first_by_id(ids@, order@),
            ids@.len() == all@.len(),
            entry_views(out@) == order@.take(k as int).map_values(|j: usize| entry_views(all@)[j as int]),
        decreases order@.len() - k,
    {
        let j = order[k];
        let e = &all[j];
        let c = WpctlEntry {
            id: e.id,
            name: copy_string(&e.name),
            is_source: e.is_source,
            volume_text: crate::text::copy_opt(&e.volume_text),
            muted_marker: e.muted_marker,
        };
        let ghost before = out@;
        assert(order@[k as int] < ids@.len());
        assert(entry_view(c) == entry_views(all@)[j as int]);
        out.push(c);
        assert(entry_views(out@) =~= entry_views(before).push(entry_view(c)));
        assert(order@.take(k as int + 1).map_values(|j: usize| entry_views(all@)[j as int])
            =~= order@.take(k as int).map_values(|j: usize| entry_views(all@)[j as int]).push(
            entry_views(all@)[j as int],
        ));
        k = k + 1;
    }
    assert(order@.take(order@.len() as int) == order@);
    out
}

// ------------------------------------------------------------ pw-cli nodes

/// An audio node as `pw-cli ls Node` lists it.
#[derive(Debug, Clone)]
pub struct AudioEndpoint {
    pub id: u32,
    pub name: String,
    pub kind: String,
}

/// `key`, optional spaces, `=`, the value trimmed and unquoted.
pub open spec fn registry_value(line: Seq<char>, key: Seq<char>) -> Option<Seq<char>> {
    match strip_prefix_spec(line, key) {
        Some(rest) => match strip_prefix_spec(trim(rest), "="@) {
            Some(v) => Some(trim_by(trim(v), is_char('"'))),
            None => None,
        },
        None => None,
    }
}

/// What is known of the node being read.
pub struct Pending {
    pub id: Option<u32>,
    pub node_name: Option<Seq<char>>,
    pub description: Option<Seq<char>>,
    pub media_class: Option<Seq<char>>,
}

pub open spec fn fresh(id: Option<u32>) -> Pending {
    Pending { id, node_name: None, description: None, media_class: None }
}

/// The node a finished record makes: an audio source or sink with an id and
/// a name (its node name, else its description).
pub open spec fn finished(p: Pending) -> Seq<(u32, Seq<char>, Seq<char>)> {
    match p.id {
        None => Seq::empty(),
        Some(id) => {
            let kind = match p.media_class {
                Some(c) => if c == "Audio/Source"@ {
                    Some("source"@)
                } else if c == "Audio/Sink"@ {
                    Some("sink"@)
                } else {
                    None
                },
                None => None,
            };
            let name = match p.node_name {
                Some(n) => n,
                None => match p.description {
                    Some(d) => d,
                    None => Seq::empty(),
                },
            };
            match kind {
                Some(k) => if name.len() > 0 {
                    seq![(id, name, k)]
                } else {
                    Seq::empty()
                },
                None => Seq::empty(),
            }
        },
    }
}

/// The audio nodes of the registry listing, in the order listed.
pub open spec fn scan_registry(ls: Seq<Seq<char>>, p: Pending) -> Seq<(u32, Seq<char>, Seq<char>)>
    decreases ls.len(),
{
    if ls.len() == 0 {
        finished(p)
    } else {
        let l = trim(ls[0]);
        match strip_prefix_spec(l, "id "@) {
            Some(rest) => finished(p) + scan_registry(ls.drop_first(), fresh(id_field(rest))),
            None => match registry_value(l, "node.name"@) {
                Some(v) => scan_registry(ls.drop_first(), Pending { node_name: Some(v), ..p }),
                None => match registry_value(l, "node.description"@) {
                    Some(v) => scan_registry(ls.drop_first(), Pending { description: Some(v), ..p }),
                    None => match registry_value(l, "media.class"@) {
                        Some(v) => scan_registry(
                            ls.drop_first(),
                            Pending { media_class: Some(v), ..p },
                        ),
                        None => scan_registry(ls.drop_first(), p),
                    },
                },
            },
        }
    }
}

fn value_of(line: &Vec<char>, key: &str) -> (r: Option<Vec<char>>)
    ensures
        match registry_value(line@, key@) {
            Some(v) => r matches Some(x) && x@ == v,
            None => r is None,
        },
{
    proof {
        reveal_strlit("=");
    }
    match strip_prefix(line, &str_chars(key)) {
        Some(rest) => match strip_prefix(&trim_ws(&rest), &str_chars("=")) {
            Some(v) => Some(trim_char(&trim_ws(&v), '"')),
            None => None,
        },
        None => None,
    }
}

pub open spec fn endpoint_view(e: AudioEndpoint) -> (u32, Seq<char>, Seq<char>) {
    (e.id, e.name@, e.kind@)
}

pub open spec fn endpoint_views(s: Seq<AudioEndpoint>) -> Seq<(u32, Seq<char>, Seq<char>)> {
    s.map_values(|e: AudioEndpoint| endpoint_view(e))
}

fn finish_node(
    out: &mut Vec<AudioEndpoint>,
    id: Option<u32>,
    node_name: &Option<Vec<char>>,
    description: &Option<Vec<char>>,
    media_class: &Option<Vec<char>>,
    Ghost(p): Ghost<Pending>,
)
    requires
        p.id == id,
        match node_name {
            Some(v) => p.node_name == Some(v@),
            None => p.node_name is None,
        },
        match description {
            Some(v) => p.description == Some(v@),
            None => p.description is None,
        },
        match media_class {
            Some(v) => p.media_class == Some(v@),
            None => p.media_class is None,
        },
    ensures
        endpoint_views(final(out)@) == endpoint_views(old(out)@) + finished(p),
{
    let ghost before = out@;
    let id = match id {
        Some(id) => id,
        None => {
            assert(endpoint_views(out@) + Seq::empty() =~= endpoint_views(out@));
            return;
        },
    };
    let kind = match media_class {
        Some(c) => if chars_eq(c, &str_chars("Audio/Source")) {
            "source"
        } else if chars_eq(c, &str_chars("Audio/Sink")) {
            "sink"
        } else {
            assert(endpoint_views(out@) + Seq::empty() =~= endpoint_views(out@));
            return;
        },
        None => {
            assert(endpoint_views(out@) + Seq::empty() =~= endpoint_views(out@));
            return;
        },
    };
    let name = match node_name {
        Some(n) => string_from(n),
        None => match description {
            Some(d) => string_from(d),
            None => String::new(),
        },
    };
    if !name.as_str().is_empty() {
        let e = AudioEndpoint { id, name, kind: owned(kind) };
        let ghost ev = endpoint_view(e);
        out.push(e);
        assert(endpoint_views(out@) =~= endpoint_views(before) + seq![ev]);
    } else {
        assert(endpoint_views(out@) + Seq::empty() =~= endpoint_views(out@));
    }
}

fn registry_nodes(input: &str) -> (r: Vec<AudioEndpoint>)
    ensures
        endpoint_views(r@) == scan_registry(lines(input@), fresh(None)),
{
    let ls = split_lines(&str_chars(input));
    let ghost all = lines(input@);
    let id_prefix = str_chars("id ");
    let mut id: Option<u32> = None;
    let mut node_name: Option<Vec<char>> = None;
    let mut description: Option<Vec<char>> = None;
    let mut media_class: Option<Vec<char>> = None;
    let ghost mut p = fresh(None);
    let mut out: Vec<AudioEndpoint> = Vec::new();
    let mut i: usize = 0;
    assert(all.skip(0) == all);
    assert(endpoint_views(out@) + scan_registry(all, p) =~= scan_registry(all, fresh(None)));
    while i < ls.len()
        invariant
            i <= ls@.len(),
            all == lines(input@),
            ls@.len() == all.len(),
            id_prefix@ == "id "@,
            forall|k: int| 0 <= k < ls@.len() ==> #[trigger] ls@[k]@ == all[k],
            p.id == id,
            match node_name {
                Some(v) => p.node_name == Some(v@),
                None => p.node_name is None,
            },
            match description {
                Some(v) => p.description == Some(v@),
                None => p.description is None,
            },
            match media_class {
                Some(v) => p.media_class == Some(v@),
                None => p.media_class is None,
            },
            endpoint_views(out@) + scan_registry(all.skip(i as int), p) == scan_registry(
                all,
                fresh(None),
            ),
        decreases ls@.len() - i,
    {
        assert(all.skip(i as int).len() > 0);
        assert(all.skip(i as int)[0] == ls@[i as int]@);
        assert(all.skip(i as int).drop_first() == all.skip(i as int + 1));
        let l = trim_ws(&ls[i]);
        match strip_prefix(&l, &id_prefix) {
            Some(rest) => {
                let ghost before = endpoint_views(out@);
                finish_node(&mut out, id, &node_name, &description, &media_class, Ghost(p));
                let new_id = crate::pipewire::node_id_field(&rest);
                proof {
                    assert(endpoint_views(out@) + scan_registry(all.skip(i as int + 1), fresh(new_id))
                        =~= before + (finished(p) + scan_registry(all.skip(i as int + 1), fresh(new_id))));
                    p = fresh(new_id);
                }
                id = new_id;
                node_name = None;
                description = None;
                media_class = None;
            },
            None => match value_of(&l, "node.name") {
                Some(v) => {
                    proof {
                        p = Pending { node_name: Some(v@), ..p };
                    }
                    node_name = Some(v);
                },
                None => match value_of(&l, "node.description") {
                    Some(v) => {
                        proof {
                            p = Pending { description: Some(v@), ..p };
                        }
                        description = Some(v);
                    },
                    None => match value_of(&l, "media.class") {
                        Some(v) => {
                            proof {
                                p = Pending { media_class: Some(v@), ..p };
                            }
                            media_class = Some(v);
                        },
                        None => {},
                    },
                },
            },
        }
        i = i + 1;
    }
    assert(all.skip(ls@.len() as int) =~= Seq::<Seq<char>>::empty());
    finish_node(&mut out, id, &node_name, &description, &media_class, Ghost(p));
    out
}

pub open spec fn endpoint_ids(s: Seq<(u32, Seq<char>, Seq<char>)>) -> Seq<u32> {
    s.map_values(|e: (u32, Seq<char>, Seq<char>)| e.0)
}

/// The audio sources and sinks of `pw-cli ls Node`, sorted by id, the first
/// of each id kept.
pub fn parse_pw_cli_audio_nodes(input: &str) -> (r: Vec<AudioEndpoint>)
    ensures
        exists|order: Seq<usize>|
            first_by_id(endpoint_ids(scan_registry(lines(input@), fresh(None))), order)
                && endpoint_views(r@) == order.map_values(
                |k: usize| scan_registry(lines(input@), fresh(None))[k as int],
            ),
{
    let all = registry_nodes(input);
    let mut ids: Vec<u32> = Vec::new();
    let mut i: usize = 0;
    while i < all.len()
        invariant
            i <= all@.len(),
            ids@ == endpoint_ids(endpoint_views(all@)).take(i as int),
        decreases all@.len() - i,
    {
        ids.push(all[i].id);
        assert(ids@ =~= endpoint_ids(endpoint_views(all@)).take(i as int + 1));
        i = i + 1;
    }
    assert(ids@ =~= endpoint_ids(endpoint_views(all@)));
    let order = order_by_id(&ids);
    let mut out: Vec<AudioEndpoint> = Vec::new();
    let mut k: usize = 0;
    while k < order.len()
        invariant
            k <= order@.len(),
            first_by_id(ids@, order@),
            ids@.len() == all@.len(),
            endpoint_views(out@) == order@.take(k as int).map_values(
                |j: usize| endpoint_views(all@)[j as int],
            ),
        decreases order@.len() - k,
    {
        let j = order[k];
        let e = &all[j];
        let c = AudioEndpoint { id: e.id, name: copy_string(&e.name), kind: copy_string(&e.kind) };
        let ghost before = out@;
        assert(order@[k as int] < ids@.len());
        assert(endpoint_view(c) == endpoint_views(all@)[j as int]);
        out.push(c);
        assert(endpoint_views(out@) =~= endpoint_views(before).push(endpoint_view(c)));
        assert(order@.take(k as int + 1).map_values(|j: usize| endpoint_views(all@)[j as int])
            =~= order@.take(k as int).map_values(|j: usize| endpoint_views(all@)[j as int]).push(
            endpoint_views(all@)[j as int],
        ));
        k = k + 1;
    }
    assert(order@.take(order@.len() as int) == order@);
    out
}

/// How the `wpctl` entries and the registry's nodes merge: by id, each id
/// once, a `wpctl` entry winning over a registry node. The result indexes
/// the `wpctl` entries followed by the registry nodes.
pub fn merge_audio_order(preferred_ids: &[u32], fallback_ids: &[u32]) -> (r: Vec<usize>)
    ensures
        first_by_id(preferred_ids@ + fallback_ids@, r@),
{
    let mut ids: Vec<u32> = Vec::new();
    let mut i: usize = 0;
    while i < preferred_ids.len()
        invariant
            i <= preferred_ids@.len(),
            ids@ == preferred_ids@.take(i as int),
        decreases preferred_ids@.len() - i,
    {
        ids.push(preferred_ids[i]);
        i = i + 1;
    }
    assert(preferred_ids@.take(preferred_ids@.len() as int) == preferred_ids@);
    let mut j: usize = 0;
    while j < fallback_ids.len()
        invariant
            j <= fallback_ids@.len(),
            ids@ == preferred_ids@ + fallback_ids@.take(j as int),
        decreases fallback_ids@.len() - j,
    {
        ids.push(fallback_ids[j]);
        j = j + 1;
    }
    assert(fallback_ids@.take(fallback_ids@.len() as int) == fallback_ids@);
    order_by_id(&ids)
}

} // verus!
