//! Reader and writer for the INI-style tunnel configuration format:
//! `[Section]` headers and `Key = Value` lines matched without regard to
//! ASCII case, `#`/`;` comment lines, and comma-separated list values.

use vstd::prelude::*;

use crate::text::{
    drop_empty, extract, find_char, find_from, lemma_drop_empty_push, range_eq_str_ci,
    seq_eq_ci, split_by, split_ranges, str_eq, to_chars, trim_spec, trimmed_range,
};

verus! {

/// Whether a trimmed line is a comment.
pub open spec fn is_comment(t: Seq<char>) -> bool {
    t.len() > 0 && (t[0] == '#' || t[0] == ';')
}

/// Whether a trimmed line is a `[Section]` header.
pub open spec fn is_section_header(t: Seq<char>) -> bool {
    t.len() >= 2 && t[0] == '[' && t.last() == ']'
}

/// The trimmed name inside a `[Section]` header.
pub open spec fn header_name(t: Seq<char>) -> Seq<char> {
    trim_spec(t.subrange(1, t.len() - 1))
}

/// The first value of `key` while scanning `lines`, where `in_sec` says
/// whether the current section matches the one looked for.
pub open spec fn read_value_lines(
    lines: Seq<Seq<char>>,
    in_sec: bool,
    section: Seq<char>,
    key: Seq<char>,
) -> Option<Seq<char>>
    decreases lines.len(),
{
    if lines.len() == 0 {
        None
    } else {
        let t = trim_spec(lines[0]);
        if is_comment(t) {
            read_value_lines(lines.drop_first(), in_sec, section, key)
        } else if is_section_header(t) {
            read_value_lines(
                lines.drop_first(),
                seq_eq_ci(header_name(t), section),
                section,
                key,
            )
        } else {
            match find_from(t, '=', 0) {
                Some(j) => if in_sec && seq_eq_ci(trim_spec(t.subrange(0, j)), key) {
                    Some(trim_spec(t.subrange(j + 1, t.len() as int)))
                } else {
                    read_value_lines(lines.drop_first(), in_sec, section, key)
                },
                None => read_value_lines(lines.drop_first(), in_sec, section, key),
            }
        }
    }
}

/// The first value of `key` in section `section` of `content`; sections
/// and keys match without regard to ASCII case, and the value is trimmed.
pub open spec fn spec_read_value(content: Seq<char>, section: Seq<char>, key: Seq<char>) -> Option<
    Seq<char>,
> {
    read_value_lines(split_by(content, "\n"@), false, section, key)
}

/// Every value of `key` while scanning `lines`, in order of appearance.
pub open spec fn read_all_lines(
    lines: Seq<Seq<char>>,
    in_sec: bool,
    section: Seq<char>,
    key: Seq<char>,
) -> Seq<Seq<char>>
    decreases lines.len(),
{
    if lines.len() == 0 {
        seq![]
    } else {
        let t = trim_spec(lines[0]);
        if is_comment(t) {
            read_all_lines(lines.drop_first(), in_sec, section, key)
        } else if is_section_header(t) {
            read_all_lines(
                lines.drop_first(),
                seq_eq_ci(header_name(t), section),
                section,
                key,
            )
        } else {
            match find_from(t, '=', 0) {
                Some(j) => if in_sec && seq_eq_ci(trim_spec(t.subrange(0, j)), key) {
                    seq![trim_spec(t.subrange(j + 1, t.len() as int))] + read_all_lines(
                        lines.drop_first(),
                        in_sec,
                        section,
                        key,
                    )
                } else {
                    read_all_lines(lines.drop_first(), in_sec, section, key)
                },
                None => read_all_lines(lines.drop_first(), in_sec, section, key),
            }
        }
    }
}

/// Every value of `key` across all sections of `content` named `section`.
pub open spec fn spec_read_all_values(
    content: Seq<char>,
    section: Seq<char>,
    key: Seq<char>,
) -> Seq<Seq<char>> {
    read_all_lines(split_by(content, "\n"@), false, section, key)
}

/// The elements of a comma-separated list value: split on `,`, each
/// element trimmed, empty elements dropped.
pub open spec fn split_list_spec(v: Seq<char>) -> Seq<Seq<char>> {
    drop_empty(split_by(v, ","@).map_values(|p: Seq<char>| trim_spec(p)))
}

/// The decision taken on one trimmed line by the scanners above.
enum LineKind {
    Skip,
    Header { matches: bool },
    KeyMatch { va: usize, vb: usize },
}

/// Classifies the line `cs[ls..le]` the way `read_value_lines` does, and
/// returns the bounds of its trimmed value when its key matches.
fn classify_line(cs: &Vec<char>, ls: usize, le: usize, section: &str, key: &str) -> (r: LineKind)
    requires
        ls <= le <= cs.len(),
    ensures
        ({
            let t = trim_spec(cs@.subrange(ls as int, le as int));
            match r {
                LineKind::Skip => is_comment(t) || (!is_section_header(t) && match find_from(
                    t,
                    '=',
                    0,
                ) {
                    None => true,
                    Some(j) => !seq_eq_ci(trim_spec(t.subrange(0, j)), key@),
                }),
                LineKind::Header { matches } => !is_comment(t) && is_section_header(t) && matches
                    == seq_eq_ci(header_name(t), section@),
                LineKind::KeyMatch { va, vb } => !is_comment(t) && !is_section_header(t)
                    && (find_from(t, '=', 0) matches Some(j) && seq_eq_ci(
                    trim_spec(t.subrange(0, j)),
                    key@,
                ) && va <= vb <= cs.len() && cs@.subrange(va as int, vb as int) == trim_spec(
                    t.subrange(j + 1, t.len() as int),
                )),
            }
        }),
{
    let ghost line = cs@.subrange(ls as int, le as int);
    let (a, b) = trimmed_range(cs, ls, le);
    let ghost t = trim_spec(line);
    if a < b && (cs[a] == '#' || cs[a] == ';') {
        return LineKind::Skip;
    }
    assert(!is_comment(t));
    if b - a >= 2 && cs[a] == '[' && cs[b - 1] == ']' {
        assert(is_section_header(t));
        let (ha, hb) = trimmed_range(cs, a + 1, b - 1);
        proof {
            assert(cs@.subrange(a + 1, b - 1) =~= t.subrange(1, t.len() - 1));
        }
        let m = range_eq_str_ci(cs, ha, hb, section);
        return LineKind::Header { matches: m };
    }
    assert(!is_section_header(t));
    match find_char(cs, a, b, '=') {
        None => LineKind::Skip,
        Some(j) => {
            proof {
                assert(cs@.subrange(a as int, j as int) =~= t.subrange(0, j - a));
                assert(cs@.subrange(j + 1, b as int) =~= t.subrange(j - a + 1, t.len() as int));
            }
            let (ka, kb) = trimmed_range(cs, a, j);
            proof {
                assert(cs@.subrange(ka as int, kb as int) == trim_spec(t.subrange(0, j - a)));
            }
            if range_eq_str_ci(cs, ka, kb, key) {
                let (va, vb) = trimmed_range(cs, j + 1, b);
                LineKind::KeyMatch { va, vb }
            } else {
                LineKind::Skip
            }
        },
    }
}

/// Reads the first value of `key` in section `section` of `content`.
/// Sections and keys match without regard to ASCII case; comment lines
/// starting with `#` or `;` are skipped; the first match wins; the value
/// is trimmed.
pub fn read_value(content: &str, section: &str, key: &str) -> (r: Option<String>)
    ensures
        match (r, spec_read_value(content@, section@, key@)) {
            (Some(s), Some(v)) => s@ == v,
            (None, None) => true,
            _ => false,
        },
{
    let cs = to_chars(content);
    let n = cs.len();
    proof {
        reveal_strlit("\n");
        assert(cs@.subrange(0, n as int) =~= content@);
    }
    let lines = split_ranges(&cs, 0, n, "\n");
    let ghost line_views = lines@.map_values(
        |p: (usize, usize)| cs@.subrange(p.0 as int, p.1 as int),
    );
    proof {
        assert(line_views.subrange(0, line_views.len() as int) =~= line_views);
    }
    let mut in_sec = false;
    let mut k: usize = 0;
    while k < lines.len()
        invariant
            k <= lines.len(),
            cs@ == content@,
            line_views == lines@.map_values(
                |p: (usize, usize)| cs@.subrange(p.0 as int, p.1 as int),
            ),
            forall|j: int| 0 <= j < lines@.len() ==> (#[trigger] lines@[j]).0 <= lines@[j].1
                <= cs.len(),
            line_views == split_by(content@, "\n"@),
            read_value_lines(line_views, false, section@, key@) == read_value_lines(
                line_views.subrange(k as int, line_views.len() as int),
                in_sec,
                section@,
                key@,
            ),
        decreases lines.len() - k,
    {
        let ghost suffix = line_views.subrange(k as int, line_views.len() as int);
        let p = lines[k];
        proof {
            assert(line_views[k as int] == cs@.subrange(p.0 as int, p.1 as int));
            assert(suffix[0] == line_views[k as int]);
            assert(suffix.drop_first() =~= line_views.subrange(
                k + 1,
                line_views.len() as int,
            ));
        }
        match classify_line(&cs, p.0, p.1, section, key) {
            LineKind::Skip => {},
            LineKind::Header { matches } => {
                in_sec = matches;
            },
            LineKind::KeyMatch { va, vb } => {
                if in_sec {
                    proof {
                        assert(line_views == split_by(content@, "\n"@));
                        assert(read_value_lines(suffix, true, section@, key@) == Some(
                            cs@.subrange(va as int, vb as int),
                        ));
                    }
                    return Some(extract(content, va, vb));
                }
            },
        }
        k = k + 1;
    }
    proof {
        assert(line_views.subrange(
            line_views.len() as int,
            line_views.len() as int,
        ) =~= Seq::<Seq<char>>::empty());
    }
    None
}

/// Reads every value of `key` across all sections of `content` named
/// `section`, in order of appearance, each trimmed.
pub fn read_all_values(content: &str, section: &str, key: &str) -> (r: Vec<String>)
    ensures
        r.deep_view() == spec_read_all_values(content@, section@, key@),
{
    let cs = to_chars(content);
    let n = cs.len();
    proof {
        reveal_strlit("\n");
        assert(cs@.subrange(0, n as int) =~= content@);
    }
    let lines = split_ranges(&cs, 0, n, "\n");
    let ghost line_views = lines@.map_values(
        |p: (usize, usize)| cs@.subrange(p.0 as int, p.1 as int),
    );
    let ghost total = read_all_lines(line_views, false, section@, key@);
    let mut out: Vec<String> = Vec::new();
    proof {
        assert(line_views.subrange(0, line_views.len() as int) =~= line_views);
        assert(out.deep_view() =~= Seq::<Seq<char>>::empty());
        assert(Seq::<Seq<char>>::empty() + total =~= total);
    }
    let mut in_sec = false;
    let mut k: usize = 0;
    while k < lines.len()
        invariant
            k <= lines.len(),
            cs@ == content@,
            line_views == lines@.map_values(
                |p: (usize, usize)| cs@.subrange(p.0 as int, p.1 as int),
            ),
            forall|j: int| 0 <= j < lines@.len() ==> (#[trigger] lines@[j]).0 <= lines@[j].1
                <= cs.len(),
            total == read_all_lines(line_views, false, section@, key@),
            total == out.deep_view() + read_all_lines(
                line_views.subrange(k as int, line_views.len() as int),
                in_sec,
                section@,
                key@,
            ),
        decreases lines.len() - k,
    {
        let ghost suffix = line_views.subrange(k as int, line_views.len() as int);
        let p = lines[k];
        proof {
            assert(line_views[k as int] == cs@.subrange(p.0 as int, p.1 as int));
            assert(suffix[0] == line_views[k as int]);
            assert(suffix.drop_first() =~= line_views.subrange(
                k + 1,
                line_views.len() as int,
            ));
        }
        match classify_line(&cs, p.0, p.1, section, key) {
            LineKind::Skip => {},
            LineKind::Header { matches } => {
                in_sec = matches;
            },
            LineKind::KeyMatch { va, vb } => {
                if in_sec {
                    let ghost before = out@;
                    let ghost before_deep = out.deep_view();
                    let e = extract(content, va, vb);
                    let ghost ev = e@;
                    out.push(e);
                    proof {
                        assert(before_deep.len() == before.len());
                        assert forall|i: int| 0 <= i < before.len() + 1 implies
                            #[trigger] out.deep_view()[i] == before_deep.push(ev)[i] by {
                            if i < before.len() {
                                assert(out@[i] == before[i]);
                            } else {
                                assert(out@[i] == e);
                            }
                        }
                        assert(out.deep_view() =~= before_deep.push(ev));
                        assert((before_deep + (seq![ev] + read_all_lines(
                            suffix.drop_first(),
                            in_sec,
                            section@,
                            key@,
                        ))) =~= (before_deep.push(ev) + read_all_lines(
                            suffix.drop_first(),
                            in_sec,
                            section@,
                            key@,
                        )));
                    }
                }
            },
        }
        k = k + 1;
    }
    proof {
        assert(line_views.subrange(
            line_views.len() as int,
            line_views.len() as int,
        ) =~= Seq::<Seq<char>>::empty());
        assert(out.deep_view() + Seq::<Seq<char>>::empty() =~= out.deep_view());
    }
    out
}

/// Splits a comma-separated list value: each element trimmed, empty
/// elements dropped.
pub fn split_list(value: &str) -> (r: Vec<String>)
    ensures
        r.deep_view() == split_list_spec(value@),
{
    let cs = to_chars(value);
    let n = cs.len();
    proof {
        reveal_strlit(",");
        assert(cs@.subrange(0, n as int) =~= value@);
    }
    let parts = split_ranges(&cs, 0, n, ",");
    let ghost piece_views = parts@.map_values(
        |p: (usize, usize)| cs@.subrange(p.0 as int, p.1 as int),
    );
    let ghost mapped = piece_views.map_values(|p: Seq<char>| trim_spec(p));
    let mut out: Vec<String> = Vec::new();
    let mut k: usize = 0;
    while k < parts.len()
        invariant
            k <= parts.len(),
            cs@ == value@,
            piece_views == parts@.map_values(
                |p: (usize, usize)| cs@.subrange(p.0 as int, p.1 as int),
            ),
            mapped == piece_views.map_values(|p: Seq<char>| trim_spec(p)),
            forall|j: int| 0 <= j < parts@.len() ==> (#[trigger] parts@[j]).0 <= parts@[j].1
                <= cs.len(),
            out.deep_view() == drop_empty(mapped.subrange(0, k as int)),
        decreases parts.len() - k,
    {
        let p = parts[k];
        let (ta, tb) = trimmed_range(&cs, p.0, p.1);
        proof {
            assert(mapped.subrange(0, k + 1) =~= mapped.subrange(0, k as int).push(
                mapped[k as int],
            ));
            lemma_drop_empty_push(mapped.subrange(0, k as int), mapped[k as int]);
            assert(cs@.subrange(ta as int, tb as int) == mapped[k as int]);
        }
        if ta < tb {
            let ghost before = out@;
            let ghost before_deep = out.deep_view();
            let e = extract(value, ta, tb);
            let ghost ev = e@;
            out.push(e);
            proof {
                assert(before_deep.len() == before.len());
                assert forall|i: int| 0 <= i < before.len() + 1 implies
                    #[trigger] out.deep_view()[i] == before_deep.push(ev)[i] by {
                    if i < before.len() {
                        assert(out@[i] == before[i]);
                    } else {
                        assert(out@[i] == e);
                    }
                }
                assert(out.deep_view() =~= before_deep.push(ev));
            }
        }
        k = k + 1;
    }
    proof {
        assert(mapped.subrange(0, parts@.len() as int) =~= mapped);
    }
    out
}

/// Whether some element of `items` equals `lit`.
pub fn list_contains(items: &Vec<String>, lit: &str) -> (r: bool)
    ensures
        r == items.deep_view().contains(lit@),
{
    let mut k: usize = 0;
    while k < items.len()
        invariant
            k <= items.len(),
            forall|j: int| 0 <= j < k ==> items.deep_view()[j] != lit@,
        decreases items.len() - k,
    {
        if str_eq(items[k].as_str(), lit) {
            assert(items.deep_view()[k as int] == lit@);
            return true;
        }
        k = k + 1;
    }
    assert(!items.deep_view().contains(lit@));
    false
}

/// Whether the Interface section marks this as a server configuration:
/// it defines `PostUp`, `PostDown` or `SaveConfig`.
pub open spec fn spec_classify_server(c: Seq<char>) -> bool {
    spec_read_value(c, "Interface"@, "PostUp"@) is Some || spec_read_value(
        c,
        "Interface"@,
        "PostDown"@,
    ) is Some || spec_read_value(c, "Interface"@, "SaveConfig"@) is Some
}

/// True exactly when the Interface section defines any of `PostUp`,
/// `PostDown` or `SaveConfig`.
pub fn classify_server(content: &str) -> (r: bool)
    ensures
        r == spec_classify_server(content@),
{
    read_value(content, "Interface", "PostUp").is_some() || read_value(
        content,
        "Interface",
        "PostDown",
    ).is_some() || read_value(content, "Interface", "SaveConfig").is_some()
}

/// Whether some Peer section's `AllowedIPs` list contains the default
/// route `0.0.0.0/0` or `::/0`.
pub open spec fn spec_detect_full_tunnel(c: Seq<char>) -> bool {
    let vals = spec_read_all_values(c, "Peer"@, "AllowedIPs"@);
    exists|i: int|
        0 <= i < vals.len() && (split_list_spec(vals[i]).contains("0.0.0.0/0"@)
            || split_list_spec(vals[i]).contains("::/0"@))
}

/// True exactly when some Peer section routes all traffic: its
/// `AllowedIPs` list contains the literal `0.0.0.0/0` or `::/0`.
pub fn detect_full_tunnel(content: &str) -> (r: bool)
    ensures
        r == spec_detect_full_tunnel(content@),
{
    let ghost vals_spec = spec_read_all_values(content@, "Peer"@, "AllowedIPs"@);
    let vals = read_all_values(content, "Peer", "AllowedIPs");
    let mut i: usize = 0;
    while i < vals.len()
        invariant
            i <= vals.len(),
            vals.deep_view() == vals_spec,
            vals_spec == spec_read_all_values(content@, "Peer"@, "AllowedIPs"@),
            forall|j: int| 0 <= j < i ==> !(split_list_spec(#[trigger] vals_spec[j]).contains(
                "0.0.0.0/0"@,
            ) || split_list_spec(vals_spec[j]).contains("::/0"@)),
        decreases vals.len() - i,
    {
        let items = split_list(vals[i].as_str());
        proof {
            assert(vals@[i as int]@ == vals_spec[i as int]);
            assert(items.deep_view() == split_list_spec(vals_spec[i as int]));
        }
        if list_contains(&items, "0.0.0.0/0") || list_contains(&items, "::/0") {
            return true;
        }
        i = i + 1;
    }
    false
}

/// `content` followed by `block`, with exactly one newline guaranteed
/// between them; empty content is replaced by the block alone, and the
/// existing content is not otherwise reformatted.
pub open spec fn append_block_spec(c: Seq<char>, b: Seq<char>) -> Seq<char> {
    if c.len() == 0 {
        b
    } else if c.last() == '\n' {
        c + b
    } else {
        c + "\n"@ + b
    }
}

/// Appends a new section to configuration text, ensuring a newline
/// separates it from existing content.
pub fn append_peer_block(content: &str, block: &str) -> (r: String)
    ensures
        r@ == append_block_spec(content@, block@),
{
    let n = content.unicode_len();
    if n == 0 {
        return block.to_owned();
    }
    let last = content.get_char(n - 1);
    let mut s = content.to_owned();
    if last != '\n' {
        s.append("\n");
    }
    s.append(block);
    s
}

} // verus!
