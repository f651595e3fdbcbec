//! What the PipeWire tools print: `wpctl inspect` properties, the
//! `wpctl status` tree and the `pw-cli ls Node` registry listing.
use crate::text::{
    concat, contains, contains_sub, copy_string, ends_with, find, find_digit, find_sub, first_digit,
    has_suffix, is_char, is_ws, lines, parse_bounded, parse_num, slice_of, split_lines, str_chars,
    string_from, strip_prefix, strip_prefix_spec, trim, trim_by, trim_char, trim_start_by,
    trim_start_char, trim_ws,
};
use vstd::prelude::*;

verus! {

// ------------------------------------------------------------ properties

/// The value of `key` on one line of `wpctl inspect`: the line trimmed, its
/// leading `*` markers dropped, then `<key> =` and a value that, unquoted
/// and trimmed, is not empty.
pub open spec fn property_on_line(line: Seq<char>, key: Seq<char>) -> Option<Seq<char>> {
    let l = trim(trim_start_by(trim(line), is_char('*')));
    match strip_prefix_spec(l, key + " ="@) {
        Some(rest) => {
            let v = trim(trim_by(trim(rest), is_char('"')));
            if v.len() > 0 {
                Some(v)
            } else {
                None
            }
        },
        None => None,
    }
}

/// The value of `key` on the first line that has one.
pub open spec fn first_property(ls: Seq<Seq<char>>, key: Seq<char>) -> Option<Seq<char>>
    decreases ls.len(),
{
    if ls.len() == 0 {
        None
    } else {
        match property_on_line(ls[0], key) {
            Some(v) => Some(v),
            None => first_property(ls.drop_first(), key),
        }
    }
}

fn line_property(line: &Vec<char>, key_eq: &Vec<char>, Ghost(key): Ghost<Seq<char>>) -> (r: Option<
    Vec<char>,
>)
    requires
        key_eq@ == key + " ="@,
    ensures
        match property_on_line(line@, key) {
            Some(v) => r matches Some(x) && x@ == v,
            None => r is None,
        },
{
    let l = trim_ws(&trim_start_char(&trim_ws(line), '*'));
    match strip_prefix(&l, key_eq) {
        Some(rest) => {
            let v = trim_ws(&trim_char(&trim_ws(&rest), '"'));
            if v.len() > 0 {
                Some(v)
            } else {
                None
            }
        },
        None => None,
    }
}

/// The first value of a property in `wpctl inspect` output.
pub fn pipewire_property(text: &str, key: &str) -> (r: Option<String>)
    ensures
        match first_property(lines(text@), key@) {
            Some(v) => r matches Some(s) && s@ == v,
            None => r is None,
        },
{
    let ls = split_lines(&str_chars(text));
    let key_eq = concat(&str_chars(key), &str_chars(" ="));
    let ghost all = lines(text@);
    let mut i: usize = 0;
    assert(all.skip(0) == all);
    while i < ls.len()
        invariant
            i <= ls@.len(),
            all == lines(text@),
            ls@.len() == all.len(),
            key_eq@ == key@ + " ="@,
            forall|k: int| 0 <= k < ls@.len() ==> #[trigger] ls@[k]@ == all[k],
            first_property(all, key@) == first_property(all.skip(i as int), key@),
        decreases ls@.len() - i,
    {
        assert(all.skip(i as int).len() > 0);
        assert(all.skip(i as int)[0] == ls@[i as int]@);
        assert(all.skip(i as int).drop_first() == all.skip(i as int + 1));
        match line_property(&ls[i], &key_eq, Ghost(key@)) {
            Some(v) => return Some(string_from(&v)),
            None => {},
        }
        i = i + 1;
    }
    None
}

// ------------------------------------------------------------ pw-cli

/// The first comma-separated field of `s`.
pub open spec fn first_field(s: Seq<char>) -> Seq<char> {
    match find(s, ","@) {
        Some(k) => s.take(k as int),
        None => s,
    }
}

/// The node id in the rest of an `id <n>, type ...` line.
pub open spec fn id_field(rest: Seq<char>) -> Option<u32> {
    match parse_bounded(trim(first_field(rest)), 10, 0xffff_ffff) {
        Some(v) => Some(v as u32),
        None => None,
    }
}

fn first_field_of(s: &Vec<char>) -> (r: Vec<char>)
    ensures
        r@ == first_field(s@),
{
    let comma = str_chars(",");
    match find_sub(s, &comma) {
        Some(k) => {
            proof {
                crate::text::lemma_find_bound(s@, comma@);
            }
            slice_of(s, 0, k)
        },
        None => slice_of(s, 0, s.len()),
    }
}

/// The node id of an `id` line's rest.
pub fn node_id_field(rest: &Vec<char>) -> (r: Option<u32>)
    ensures
        r == id_field(rest@),
{
    match parse_num(&trim_ws(&first_field_of(rest)), 10, 0xffff_ffff) {
        Some(v) => Some(v as u32),
        None => None,
    }
}

/// Walking the registry listing: an `id` line starts a node, and the first
/// `node.name =` line that names `name` gives the id of the node it is in
/// (none if that id did not parse).
pub open spec fn scan_named_node(ls: Seq<Seq<char>>, name: Seq<char>, current: Option<u32>) -> Option<
    u32,
>
    decreases ls.len(),
{
    if ls.len() == 0 {
        None
    } else {
        let l = trim(ls[0]);
        match strip_prefix_spec(l, "id "@) {
            Some(rest) => scan_named_node(ls.drop_first(), name, id_field(rest)),
            None => match strip_prefix_spec(l, "node.name ="@) {
                Some(v) => if trim_by(trim(v), is_char('"')) == name {
                    current
                } else {
                    scan_named_node(ls.drop_first(), name, current)
                },
                None => scan_named_node(ls.drop_first(), name, current),
            },
        }
    }
}

/// The id of the node called `source_name` in `pw-cli ls Node` output.
pub fn pw_cli_named_node_id(text: &str, source_name: &str) -> (r: Option<u32>)
    ensures
        r == scan_named_node(lines(text@), source_name@, None),
{
    let ls = split_lines(&str_chars(text));
    let name = str_chars(source_name);
    let id_prefix = str_chars("id ");
    let name_prefix = str_chars("node.name =");
    let ghost all = lines(text@);
    let mut current: Option<u32> = None;
    let mut i: usize = 0;
    assert(all.skip(0) == all);
    while i < ls.len()
        invariant
            i <= ls@.len(),
            all == lines(text@),
            ls@.len() == all.len(),
            name@ == source_name@,
            id_prefix@ == "id "@,
            name_prefix@ == "node.name ="@,
            forall|k: int| 0 <= k < ls@.len() ==> #[trigger] ls@[k]@ == all[k],
            scan_named_node(all, source_name@, None) == scan_named_node(
                all.skip(i as int),
                source_name@,
                current,
            ),
        decreases ls@.len() - i,
    {
        assert(all.skip(i as int).len() > 0);
        assert(all.skip(i as int)[0] == ls@[i as int]@);
        assert(all.skip(i as int).drop_first() == all.skip(i as int + 1));
        let l = trim_ws(&ls[i]);
        match strip_prefix(&l, &id_prefix) {
            Some(rest) => {
                current = node_id_field(&rest);
            },
            None => match strip_prefix(&l, &name_prefix) {
                Some(v) => {
                    if crate::text::chars_eq(&trim_char(&trim_ws(&v), '"'), &name) {
                        return current;
                    }
                },
                None => {},
            },
        }
        i = i + 1;
    }
    None
}

// ------------------------------------------------------------ wpctl status

/// The id a `wpctl status` entry line starts with: the digits from the
/// first digit up to the first `.` after it.
pub open spec fn entry_id(l: Seq<char>) -> Option<Option<u32>> {
    match first_digit(l) {
        None => None,
        Some(d) => {
            let tail = l.skip(d as int);
            match find(tail, "."@) {
                None => None,
                Some(k) => Some(
                    match parse_bounded(trim(tail.take(k as int)), 10, 0xffff_ffff) {
                        Some(v) => Some(v as u32),
                        None => None,
                    },
                ),
            }
        },
    }
}

fn entry_id_of(l: &Vec<char>) -> (r: Option<Option<u32>>)
    ensures
        r == entry_id(l@),
{
    let d = match find_digit(l) {
        Some(d) => d,
        None => return None,
    };
    let tail = slice_of(l, d, l.len());
    let dot = str_chars(".");
    let k = match find_sub(&tail, &dot) {
        Some(k) => k,
        None => return None,
    };
    proof {
        crate::text::lemma_find_bound(tail@, dot@);
    }
    Some(
        match parse_num(&trim_ws(&slice_of(&tail, 0, k)), 10, 0xffff_ffff) {
            Some(v) => Some(v as u32),
            None => None,
        },
    )
}

/// Walking the `wpctl status` tree: inside the `Sources:` section, the
/// first line that names `name` and carries an entry id gives the id. A
/// line without an entry number or dot ends the search.
pub open spec fn scan_named_source(ls: Seq<Seq<char>>, name: Seq<char>, inside: bool) -> Option<u32>
    decreases ls.len(),
{
    if ls.len() == 0 {
        None
    } else {
        let l = trim(ls[0]);
        if contains(l, "Sources:"@) {
            scan_named_source(ls.drop_first(), name, true)
        } else {
            let inside2 = if inside && has_suffix(l, ":"@) {
                false
            } else {
                inside
            };
            if !inside2 || !contains(l, name) {
                scan_named_source(ls.drop_first(), name, inside2)
            } else {
                match entry_id(l) {
                    None => None,
                    Some(Some(v)) => Some(v),
                    Some(None) => scan_named_source(ls.drop_first(), name, inside2),
                }
            }
        }
    }
}

/// The id of the source called `source_name` in `wpctl status` output.
pub fn named_source_node_id(status: &str, source_name: &str) -> (r: Option<u32>)
    ensures
        r == scan_named_source(lines(status@), source_name@, false),
{
    let ls = split_lines(&str_chars(status));
    let name = str_chars(source_name);
    let sources = str_chars("Sources:");
    let colon = str_chars(":");
    let ghost all = lines(status@);
    let mut inside = false;
    let mut i: usize = 0;
    assert(all.skip(0) == all);
    while i < ls.len()
        invariant
            i <= ls@.len(),
            all == lines(status@),
            ls@.len() == all.len(),
            name@ == source_name@,
            sources@ == "Sources:"@,
            colon@ == ":"@,
            forall|k: int| 0 <= k < ls@.len() ==> #[trigger] ls@[k]@ == all[k],
            scan_named_source(all, source_name@, false) == scan_named_source(
                all.skip(i as int),
                source_name@,
                inside,
            ),
        decreases ls@.len() - i,
    {
        assert(all.skip(i as int).len() > 0);
        assert(all.skip(i as int)[0] == ls@[i as int]@);
        assert(all.skip(i as int).drop_first() == all.skip(i as int + 1));
        let l = trim_ws(&ls[i]);
        if contains_sub(&l, &sources) {
            inside = true;
        } else {
            if inside && ends_with(&l, &colon) {
                inside = false;
            }
            if inside && contains_sub(&l, &name) {
                match entry_id_of(&l) {
                    None => return None,
                    Some(Some(v)) => return Some(v),
                    Some(None) => {},
                }
            }
        }
        i = i + 1;
    }
    None
}

/// Whether the `wpctl status` line at `k` comes after a `Sources:` heading
/// with no other heading (a line ending in `:`) in between.
pub open spec fn sources_open_before(ls: Seq<Seq<char>>, k: nat) -> bool
    decreases k,
{
    if k == 0 || k > ls.len() {
        false
    } else {
        let l = trim(ls[k - 1]);
        if contains(l, "Sources:"@) {
            true
        } else {
            sources_open_before(ls, (k - 1) as nat) && !has_suffix(l, ":"@)
        }
    }
}

/// The line at `k` is an entry of a `Sources:` section that names `name`.
pub open spec fn named_source_line(ls: Seq<Seq<char>>, name: Seq<char>, k: int) -> bool {
    let l = trim(ls[k]);
    &&& 0 <= k < ls.len()
    &&& !contains(l, "Sources:"@)
    &&& sources_open_before(ls, k as nat)
    &&& !has_suffix(l, ":"@)
    &&& contains(l, name)
}

proof fn lemma_named_source_from(ls: Seq<Seq<char>>, name: Seq<char>, i: int)
    requires
        0 <= i <= ls.len(),
    ensures
        scan_named_source(ls.skip(i), name, sources_open_before(ls, i as nat)) matches Some(v)
            ==> exists|k: int|
            i <= k < ls.len() && #[trigger] named_source_line(ls, name, k) && entry_id(trim(ls[k]))
                == Some(Some(v)) && forall|j: int|
                i <= j < k && #[trigger] named_source_line(ls, name, j) ==> entry_id(trim(ls[j]))
                    == Some(None::<u32>),
        scan_named_source(ls.skip(i), name, sources_open_before(ls, i as nat)) is None ==> forall|
            k: int,
        |
            i <= k < ls.len() && #[trigger] named_source_line(ls, name, k) && (entry_id(trim(ls[k]))
                matches Some(Some(_))) ==> exists|j: int|
                i <= j < k && #[trigger] named_source_line(ls, name, j) && entry_id(trim(ls[j]))
                    is None,
    decreases ls.len() - i,
{
    if i < ls.len() {
        lemma_named_source_from(ls, name, i + 1);
        let rest = ls.skip(i);
        assert(rest[0] == ls[i]);
        assert(rest.drop_first() == ls.skip(i + 1));
        let l = trim(ls[i]);
        let open = sources_open_before(ls, i as nat);
        assert(sources_open_before(ls, (i + 1) as nat) == (if contains(l, "Sources:"@) {
            true
        } else {
            open && !has_suffix(l, ":"@)
        }));
        assert(named_source_line(ls, name, i) == (!contains(l, "Sources:"@) && open && !has_suffix(
            l,
            ":"@,
        ) && contains(l, name)));
    }
}

/// What `named_source_node_id` answers, said of the lines themselves: an id
/// comes from an entry line of a `Sources:` section that names the source,
/// every earlier such line having digits but no number before its `.`; no id
/// means every such line with a number comes after one that has no digit or
/// no `.` (where the search stops), and in particular, with no such stopping
/// line, that no entry line naming the source carries a number.
pub proof fn law_named_source_is_first_entry(status: Seq<char>, name: Seq<char>)
    ensures
        scan_named_source(lines(status), name, false) matches Some(v) ==> exists|k: int|
            #[trigger] named_source_line(lines(status), name, k) && entry_id(trim(lines(status)[k]))
                == Some(Some(v)) && forall|j: int|
                j < k && #[trigger] named_source_line(lines(status), name, j) ==> entry_id(
                    trim(lines(status)[j]),
                ) == Some(None::<u32>),
        scan_named_source(lines(status), name, false) is None ==> forall|k: int|
            #[trigger] named_source_line(lines(status), name, k) && (entry_id(
                trim(lines(status)[k]),
            ) matches Some(Some(_))) ==> exists|j: int|
                j < k && #[trigger] named_source_line(lines(status), name, j) && entry_id(
                    trim(lines(status)[j]),
                ) is None,
{
    let ls = lines(status);
    lemma_named_source_from(ls, name, 0);
    assert(ls.skip(0) == ls);
}

// ------------------------------------------------------------ ordering

/// `order` lists, by increasing id, the first index of every id in `ids`.
pub open spec fn first_by_id(ids: Seq<u32>, order: Seq<usize>) -> bool {
    &&& forall|k: int| 0 <= k < order.len() ==> #[trigger] order[k] < ids.len()
    &&& forall|a: int, b: int| 0 <= a < b < order.len() ==> ids[order[a] as int] < ids[order[b] as int]
    &&& forall|k: int, j: int|
        #![trigger order[k], ids[j]]
        0 <= k < order.len() && 0 <= j < order[k] ==> ids[j] != ids[order[k] as int]
    &&& forall|j: int|
        0 <= j < ids.len() ==> exists|k: int|
            0 <= k < order.len() && ids[#[trigger] order[k] as int] == #[trigger] ids[j]
}

proof fn lemma_order_insert(ids: Seq<u32>, i: usize, before: Seq<usize>, p: int, order: Seq<usize>)
    requires
        0 <= i < ids.len(),
        first_by_id(ids.take(i as int), before),
        forall|k: int| 0 <= k < before.len() ==> #[trigger] before[k] < i,
        0 <= p <= before.len(),
        forall|k: int| 0 <= k < p ==> ids[#[trigger] before[k] as int] < ids[i as int],
        p < before.len() ==> ids[before[p] as int] > ids[i as int],
        order == before.take(p).push(i) + before.skip(p),
    ensures
        first_by_id(ids.take(i as int + 1), order),
        forall|k: int| 0 <= k < order.len() ==> #[trigger] order[k] < i + 1,
{
    let t = ids.take(i as int);
    let t1 = ids.take(i as int + 1);
    let id = ids[i as int];
    assert(order.len() == before.len() + 1);
    assert forall|k: int| 0 <= k < order.len() implies order[k] == (if k < p {
        before[k]
    } else if k == p {
        i
    } else {
        before[k - 1]
    }) by {
        if k < p {
            assert(order[k] == before.take(p)[k]);
        } else if k > p {
            assert(order[k] == before.skip(p)[k - p - 1]);
        }
    }
    assert forall|k: int| 0 <= k < order.len() implies #[trigger] order[k] < i + 1 by {
        if k < p {
            assert(before[k] < i);
        } else if k > p {
            assert(before[k - 1] < i);
        }
    }
    assert forall|k: int| 0 <= k < order.len() implies #[trigger] order[k] < t1.len() by {
        assert(order[k] < i + 1);
    }
    assert forall|a: int, b: int| 0 <= a < b < order.len() implies t1[order[a] as int] < t1[
        order[b] as int
    ] by {
        assert(t1[i as int] == id);
        if a < p && b < p {
            assert(t[before[a] as int] < t[before[b] as int]);
        } else if a < p && b == p {
            assert(ids[before[a] as int] < id);
        } else if a < p && b > p {
            assert(t[before[a] as int] < t[before[b - 1] as int]);
        } else if a == p && b > p {
            if b - 1 > p {
                assert(t[before[p] as int] < t[before[b - 1] as int]);
            }
        } else {
            assert(t[before[a - 1] as int] < t[before[b - 1] as int]);
        }
    }
    assert forall|k: int, j: int|
        #![trigger order[k], t1[j]]
        0 <= k < order.len() && 0 <= j < order[k] implies t1[j] != t1[order[k] as int] by {
        if k == p {
            assert(t1[j] == t[j]);
            let m = choose|m: int| 0 <= m < before.len() && t[#[trigger] before[m] as int] == t[j];
            if m < p {
                assert(ids[before[m] as int] < id);
            } else if m > p {
                assert(t[before[p] as int] < t[before[m] as int]);
            }
        } else {
            let kk = if k < p {
                k
            } else {
                k - 1
            };
            assert(order[k] == before[kk]);
            assert(t[j] != t[before[kk] as int]);
        }
    }
    assert forall|j: int| 0 <= j < t1.len() implies exists|k: int|
        0 <= k < order.len() && t1[#[trigger] order[k] as int] == #[trigger] t1[j] by {
        if j == i {
            assert(order[p] == i);
        } else {
            assert(t1[j] == t[j]);
            let m = choose|m: int| 0 <= m < before.len() && t[#[trigger] before[m] as int] == t[j];
            if m < p {
                assert(order[m] == before[m]);
            } else {
                assert(order[m + 1] == before[m]);
            }
        }
    }
}

proof fn lemma_order_dup(ids: Seq<u32>, i: int, order: Seq<usize>, p: int)
    requires
        0 <= i < ids.len(),
        first_by_id(ids.take(i), order),
        forall|k: int| 0 <= k < order.len() ==> #[trigger] order[k] < i,
        0 <= p < order.len(),
        ids[order[p] as int] == ids[i],
    ensures
        first_by_id(ids.take(i + 1), order),
        forall|k: int| 0 <= k < order.len() ==> #[trigger] order[k] < i + 1,
{
    let t = ids.take(i);
    let t1 = ids.take(i + 1);
    assert forall|k: int| 0 <= k < order.len() implies #[trigger] order[k] < t1.len() by {
        assert(order[k] < i);
    }
    assert forall|k: int, j: int|
        #![trigger order[k], t1[j]]
        0 <= k < order.len() && 0 <= j < order[k] implies t1[j] != t1[order[k] as int] by {
        assert(t[j] != t[order[k] as int]);
    }
    assert forall|a: int, b: int| 0 <= a < b < order.len() implies t1[order[a] as int] < t1[
        order[b] as int
    ] by {
        assert(t[order[a] as int] < t[order[b] as int]);
    }
    assert forall|j: int| 0 <= j < t1.len() implies exists|k: int|
        0 <= k < order.len() && t1[#[trigger] order[k] as int] == #[trigger] t1[j] by {
        if j == i {
            assert(t1[order[p] as int] == ids[i]);
        } else {
            assert(t1[j] == t[j]);
            let m = choose|m: int| 0 <= m < order.len() && t[#[trigger] order[m] as int] == t[j];
            assert(t1[order[m] as int] == t[order[m] as int]);
        }
    }
}

/// Sorting by id and keeping the first entry of each id, as `sort_by_key`
/// (stable) followed by `dedup_by_key` does.
pub fn order_by_id(ids: &[u32]) -> (r: Vec<usize>)
    ensures
        first_by_id(ids@, r@),
{
    let mut order: Vec<usize> = Vec::new();
    let mut i: usize = 0;
    while i < ids.len()
        invariant
            i <= ids@.len(),
            first_by_id(ids@.take(i as int), order@),
            forall|k: int| 0 <= k < order@.len() ==> #[trigger] order@[k] < i,
        decreases ids@.len() - i,
    {
        let id = ids[i];
        let mut p: usize = 0;
        while p < order.len() && ids[order[p]] < id
            invariant
                p <= order@.len(),
                forall|k: int| 0 <= k < order@.len() ==> #[trigger] order@[k] < i,
                i < ids@.len(),
                id == ids@[i as int],
                forall|k: int| 0 <= k < p ==> ids@[#[trigger] order@[k] as int] < id,
            decreases order@.len() - p,
        {
            p = p + 1;
        }
        let dup = p < order.len() && ids[order[p]] == id;
        if !dup {
            let ghost before = order@;
            order.insert(p, i);
            proof {
                assert(order@ =~= before.take(p as int).push(i) + before.skip(p as int));
                lemma_order_insert(ids@, i, before, p as int, order@);
            }
        } else {
            proof {
                lemma_order_dup(ids@, i as int, order@, p as int);
            }
        }
        i = i + 1;
    }
    assert(ids@.take(ids@.len() as int) == ids@);
    order
}

} // verus!
