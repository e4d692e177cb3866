//! Tunnel discovery: configuration file names become `Tunnel` entries,
//! sorted lexicographically by name, so the listing order of the
//! filesystem never shows through.

use vstd::prelude::*;
use vstd::multiset::Multiset;
use vstd::relations::{sorted_by, total_ordering};

use crate::status::InterfaceInfoV;
use crate::status::InterfaceInfo;
use crate::text::{ends_with, extract, range_ends_with, str_eq, to_chars};

verus! {

/// Lexicographic order on character sequences: the shorter of two
/// sequences with equal prefixes comes first.
pub open spec fn lex_le(a: Seq<char>, b: Seq<char>) -> bool
    decreases a.len(),
{
    if a.len() == 0 {
        true
    } else if b.len() == 0 {
        false
    } else if a[0] == b[0] {
        lex_le(a.drop_first(), b.drop_first())
    } else {
        a[0] < b[0]
    }
}

/// The lexicographic order as a relation value.
pub open spec fn lex_leq() -> spec_fn(Seq<char>, Seq<char>) -> bool {
    |a: Seq<char>, b: Seq<char>| lex_le(a, b)
}

/// The lexicographic order is reflexive.
pub proof fn lemma_lex_refl(a: Seq<char>)
    ensures
        lex_le(a, a),
    decreases a.len(),
{
    if a.len() > 0 {
        lemma_lex_refl(a.drop_first());
    }
}

/// Any two sequences are lexicographically comparable.
pub proof fn lemma_lex_total(a: Seq<char>, b: Seq<char>)
    ensures
        lex_le(a, b) || lex_le(b, a),
    decreases a.len(),
{
    if a.len() > 0 && b.len() > 0 && a[0] == b[0] {
        lemma_lex_total(a.drop_first(), b.drop_first());
    }
}

/// The lexicographic order is antisymmetric.
pub proof fn lemma_lex_antisym(a: Seq<char>, b: Seq<char>)
    requires
        lex_le(a, b),
        lex_le(b, a),
    ensures
        a == b,
    decreases a.len(),
{
    if a.len() == 0 {
        assert(b.len() == 0);
        assert(a =~= b);
    } else {
        assert(b.len() > 0);
        assert(a[0] == b[0]);
        lemma_lex_antisym(a.drop_first(), b.drop_first());
        assert(a =~= b) by {
            assert(forall|i: int|
                1 <= i < a.len() ==> a[i] == a.drop_first()[i - 1] && b[i] == b.drop_first()[i
                    - 1]);
        }
    }
}

/// The lexicographic order is transitive.
pub proof fn lemma_lex_trans(a: Seq<char>, b: Seq<char>, c: Seq<char>)
    requires
        lex_le(a, b),
        lex_le(b, c),
    ensures
        lex_le(a, c),
    decreases a.len(),
{
    if a.len() > 0 && b.len() > 0 && c.len() > 0 {
        if a[0] == b[0] && b[0] == c[0] {
            lemma_lex_trans(a.drop_first(), b.drop_first(), c.drop_first());
        }
    }
}

/// The lexicographic order is a total ordering.
pub proof fn lemma_lex_total_ordering()
    ensures
        total_ordering(lex_leq()),
{
    assert forall|x: Seq<char>| #[trigger] lex_leq()(x, x) by {
        lemma_lex_refl(x);
    }
    assert forall|x: Seq<char>, y: Seq<char>|
        #[trigger] lex_leq()(x, y) && #[trigger] lex_leq()(y, x) implies x == y by {
        lemma_lex_antisym(x, y);
    }
    assert forall|x: Seq<char>, y: Seq<char>, z: Seq<char>|
        #[trigger] lex_leq()(x, y) && #[trigger] lex_leq()(y, z) implies lex_leq()(x, z) by {
        lemma_lex_trans(x, y, z);
    }
    assert forall|x: Seq<char>, y: Seq<char>| #[trigger] lex_leq()(x, y) || #[trigger] lex_leq()(
        y,
        x,
    ) by {
        lemma_lex_total(x, y);
    }
}

/// Compares two strings lexicographically.
pub fn str_le(a: &str, b: &str) -> (r: bool)
    ensures
        r == lex_le(a@, b@),
{
    let na = a.unicode_len();
    let nb = b.unicode_len();
    proof {
        assert(a@.subrange(0, na as int) =~= a@);
        assert(b@.subrange(0, nb as int) =~= b@);
    }
    let mut i: usize = 0;
    while i < na && i < nb
        invariant
            i <= na,
            i <= nb,
            na == a@.len(),
            nb == b@.len(),
            lex_le(a@, b@) == lex_le(
                a@.subrange(i as int, na as int),
                b@.subrange(i as int, nb as int),
            ),
        decreases na - i,
    {
        let ghost sa = a@.subrange(i as int, na as int);
        let ghost sb = b@.subrange(i as int, nb as int);
        let ca = a.get_char(i);
        let cb = b.get_char(i);
        proof {
            assert(sa[0] == ca);
            assert(sb[0] == cb);
        }
        if ca != cb {
            return ca < cb;
        }
        proof {
            assert(sa.drop_first() =~= a@.subrange(i + 1, na as int));
            assert(sb.drop_first() =~= b@.subrange(i + 1, nb as int));
        }
        i = i + 1;
    }
    proof {
        if i == na {
            assert(a@.subrange(i as int, na as int).len() == 0);
        } else {
            assert(i == nb);
            assert(b@.subrange(i as int, nb as int).len() == 0);
            assert(a@.subrange(i as int, na as int).len() > 0);
        }
    }
    na <= nb
}

/// The index of a least element of `v` under the lexicographic order.
fn min_index(v: &Vec<String>) -> (m: usize)
    requires
        v.len() > 0,
    ensures
        m < v@.len(),
        forall|k: int| 0 <= k < v@.len() ==> lex_le(v.deep_view()[m as int], v.deep_view()[k]),
{
    let mut m: usize = 0;
    let mut j: usize = 1;
    proof {
        lemma_lex_refl(v.deep_view()[0]);
    }
    while j < v.len()
        invariant
            m < j <= v@.len(),
            forall|k: int| 0 <= k < j ==> lex_le(v.deep_view()[m as int], v.deep_view()[k]),
        decreases v.len() - j,
    {
        if str_le(v[j].as_str(), v[m].as_str()) {
            let ghost old_m = m as int;
            m = j;
            proof {
                assert forall|k: int| 0 <= k < j + 1 implies lex_le(
                    v.deep_view()[m as int],
                    v.deep_view()[k],
                ) by {
                    if k < j {
                        lemma_lex_trans(
                            v.deep_view()[m as int],
                            v.deep_view()[old_m],
                            v.deep_view()[k],
                        );
                    } else {
                        lemma_lex_refl(v.deep_view()[m as int]);
                    }
                }
            }
        } else {
            proof {
                lemma_lex_total(v.deep_view()[m as int], v.deep_view()[j as int]);
            }
        }
        j = j + 1;
    }
    m
}

/// Sorts names lexicographically; the result holds exactly the input
/// names, counted with multiplicity.
fn sort_names(names: Vec<String>) -> (r: Vec<String>)
    ensures
        r.deep_view().to_multiset() == names.deep_view().to_multiset(),
        sorted_by(r.deep_view(), lex_leq()),
{
    broadcast use vstd::seq_lib::group_to_multiset_ensures;
    broadcast use vstd::multiset::group_multiset_axioms;

    let ghost orig = names.deep_view().to_multiset();
    let mut v = names;
    let mut out: Vec<String> = Vec::new();
    proof {
        assert(out.deep_view() =~= Seq::<Seq<char>>::empty());
        vstd::seq_lib::to_multiset_len(out.deep_view());
        vstd::multiset::lemma_multiset_empty_len(out.deep_view().to_multiset());
        assert(out.deep_view().to_multiset().add(v.deep_view().to_multiset()) =~= orig);
    }
    while v.len() > 0
        invariant
            out.deep_view().to_multiset().add(v.deep_view().to_multiset()) == orig,
            sorted_by(out.deep_view(), lex_leq()),
            forall|i: int, j: int|
                0 <= i < out.deep_view().len() && 0 <= j < v.deep_view().len() ==> lex_le(
                    #[trigger] out.deep_view()[i],
                    #[trigger] v.deep_view()[j],
                ),
        decreases v.len(),
    {
        let m = min_index(&v);
        let ghost old_v_deep = v.deep_view();
        let ghost old_out_deep = out.deep_view();
        let ghost xv = v.deep_view()[m as int];
        let x = v.remove(m);
        proof {
            assert(v.deep_view() =~= old_v_deep.remove(m as int));
            vstd::seq_lib::to_multiset_remove(old_v_deep, m as int);
        }
        out.push(x);
        proof {
            assert(out.deep_view() =~= old_out_deep.push(xv));
            vstd::seq_lib::to_multiset_build(old_out_deep, xv);
            vstd::seq_lib::to_multiset_contains(old_v_deep, xv);
            broadcast use vstd::multiset::group_multiset_axioms;

            assert(old_v_deep[m as int] == xv);
            assert(old_v_deep.contains(xv));
            assert(old_v_deep.to_multiset().count(xv) > 0);
            assert(out.deep_view().to_multiset().add(v.deep_view().to_multiset()) =~= orig);
            // The appended element follows everything already placed and
            // precedes everything still to place.
            assert forall|i: int, j: int|
                0 <= i < out.deep_view().len() && 0 <= j < v.deep_view().len() implies lex_le(
                #[trigger] out.deep_view()[i],
                #[trigger] v.deep_view()[j],
            ) by {
                if i < old_out_deep.len() {
                    assert(out.deep_view()[i] == old_out_deep[i]);
                }
            }
            assert(sorted_by(out.deep_view(), lex_leq()));
        }
    }
    proof {
        assert(v.deep_view() =~= Seq::<Seq<char>>::empty());
        assert(out.deep_view().to_multiset().add(v.deep_view().to_multiset()) =~= out.deep_view()
            .to_multiset());
    }
    out
}

/// One tunnel definition: the file stem is its name; liveness and
/// interface details are filled in from the live status after discovery.
#[derive(Debug, Clone)]
pub struct Tunnel {
    pub name: String,
    pub config_path: String,
    pub is_active: bool,
    pub interface: Option<InterfaceInfo>,
}

/// The mathematical shape of a `Tunnel`.
pub struct TunnelV {
    pub name: Seq<char>,
    pub config_path: Seq<char>,
    pub is_active: bool,
    pub interface: Option<InterfaceInfoV>,
}

impl View for Tunnel {
    type V = TunnelV;

    open spec fn view(&self) -> TunnelV {
        TunnelV {
            name: self.name@,
            config_path: self.config_path@,
            is_active: self.is_active,
            interface: match self.interface {
                Some(i) => Some(i@),
                None => None,
            },
        }
    }
}

/// Whether a directory entry names a configuration file: it ends in
/// `.conf` and has a non-empty stem.
pub open spec fn is_conf_name(e: Seq<char>) -> bool {
    ends_with(e, ".conf"@) && e.len() > ".conf"@.len()
}

/// The file stem of a configuration file name.
pub open spec fn stem_of(e: Seq<char>) -> Seq<char> {
    e.subrange(0, e.len() - ".conf"@.len())
}

/// The stems of the configuration files among `es`, counted with
/// multiplicity.
pub open spec fn conf_stems_ms(es: Seq<Seq<char>>) -> Multiset<Seq<char>>
    decreases es.len(),
{
    if es.len() == 0 {
        Multiset::empty()
    } else {
        let rest = conf_stems_ms(es.drop_first());
        if is_conf_name(es[0]) {
            rest.insert(stem_of(es[0]))
        } else {
            rest
        }
    }
}

/// Removing one entry removes exactly its stem, if it has one.
proof fn lemma_stems_ms_remove(es: Seq<Seq<char>>, i: int)
    requires
        0 <= i < es.len(),
    ensures
        conf_stems_ms(es.remove(i)) == (if is_conf_name(es[i]) {
            conf_stems_ms(es).remove(stem_of(es[i]))
        } else {
            conf_stems_ms(es)
        }),
        is_conf_name(es[i]) ==> conf_stems_ms(es).count(stem_of(es[i])) >= 1,
    decreases i,
{
    broadcast use vstd::multiset::group_multiset_axioms;

    if i == 0 {
        assert(es.remove(0) =~= es.drop_first());
        if is_conf_name(es[0]) {
            assert(conf_stems_ms(es) == conf_stems_ms(es.drop_first()).insert(stem_of(es[0])));
            assert(conf_stems_ms(es).remove(stem_of(es[0])) =~= conf_stems_ms(es.drop_first()));
        }
    } else {
        let ds = es.drop_first();
        assert(es.remove(i).drop_first() =~= ds.remove(i - 1));
        assert(es.remove(i)[0] == es[0]);
        assert(ds[i - 1] == es[i]);
        lemma_stems_ms_remove(ds, i - 1);
        if is_conf_name(es[i]) {
            if is_conf_name(es[0]) {
                assert(conf_stems_ms(ds).remove(stem_of(es[i])).insert(stem_of(es[0]))
                    =~= conf_stems_ms(ds).insert(stem_of(es[0])).remove(stem_of(es[i])));
            }
        }
    }
}

/// Listings with the same entries have the same configuration stems.
pub proof fn lemma_stems_ms_permutation(e1: Seq<Seq<char>>, e2: Seq<Seq<char>>)
    requires
        e1.to_multiset() == e2.to_multiset(),
    ensures
        conf_stems_ms(e1) == conf_stems_ms(e2),
    decreases e1.len(),
{
    broadcast use vstd::multiset::group_multiset_axioms;

    vstd::seq_lib::to_multiset_len(e1);
    vstd::seq_lib::to_multiset_len(e2);
    if e1.len() == 0 {
        assert(e2.len() == 0);
    } else {
        let x = e1[0];
        assert(e1.contains(x));
        vstd::seq_lib::to_multiset_contains(e1, x);
        vstd::seq_lib::to_multiset_contains(e2, x);
        assert(e2.contains(x));
        let i = choose|i: int| 0 <= i < e2.len() && e2[i] == x;
        assert(e1.remove(0) =~= e1.drop_first());
        vstd::seq_lib::to_multiset_remove(e1, 0);
        vstd::seq_lib::to_multiset_remove(e2, i);
        assert(e1.drop_first().to_multiset() == e2.remove(i).to_multiset());
        lemma_stems_ms_permutation(e1.drop_first(), e2.remove(i));
        lemma_stems_ms_remove(e2, i);
        if is_conf_name(x) {
            assert(conf_stems_ms(e1) == conf_stems_ms(e2.remove(i)).insert(stem_of(x)));
            assert(conf_stems_ms(e2.remove(i)) == conf_stems_ms(e2).remove(stem_of(x)));
            assert(conf_stems_ms(e2).count(stem_of(x)) >= 1);
            assert(conf_stems_ms(e2).remove(stem_of(x)).insert(stem_of(x)) =~= conf_stems_ms(
                e2,
            ));
        }
    }
}

/// The stems of the configuration files among `entries`, in listing order.
fn conf_stems(entries: &Vec<String>) -> (r: Vec<String>)
    ensures
        r.deep_view().to_multiset() == conf_stems_ms(entries.deep_view()),
{
    broadcast use vstd::multiset::group_multiset_axioms;

    let ghost total = conf_stems_ms(entries.deep_view());
    let mut r: Vec<String> = Vec::new();
    proof {
        assert(entries.deep_view().subrange(0, entries@.len() as int) =~= entries.deep_view());
        assert(r.deep_view() =~= Seq::<Seq<char>>::empty());
        vstd::seq_lib::to_multiset_len(r.deep_view());
        vstd::multiset::lemma_multiset_empty_len(r.deep_view().to_multiset());
        assert(r.deep_view().to_multiset().add(
            conf_stems_ms(entries.deep_view()),
        ) =~= total);
    }
    let mut k: usize = 0;
    while k < entries.len()
        invariant
            k <= entries.len(),
            total == conf_stems_ms(entries.deep_view()),
            total == r.deep_view().to_multiset().add(
                conf_stems_ms(
                    entries.deep_view().subrange(k as int, entries@.len() as int),
                ),
            ),
        decreases entries.len() - k,
    {
        broadcast use vstd::multiset::group_multiset_axioms;

        let ghost suffix = entries.deep_view().subrange(k as int, entries@.len() as int);
        proof {
            assert(suffix[0] == entries.deep_view()[k as int]);
            assert(suffix.drop_first() =~= entries.deep_view().subrange(
                k + 1,
                entries@.len() as int,
            ));
        }
        let e = &entries[k];
        let cs = to_chars(e.as_str());
        let n = cs.len();
        proof {
            assert(cs@.subrange(0, n as int) =~= e@);
            assert(e@ == suffix[0]);
        }
        let sfx = ".conf".unicode_len();
        if range_ends_with(&cs, 0, n, ".conf") && n > sfx {
            let ghost before_deep = r.deep_view();
            let ghost sv = stem_of(suffix[0]);
            let s = extract(e.as_str(), 0, n - sfx);
            proof {
                assert(s@ == sv);
            }
            let ghost before = r@;
            r.push(s);
            proof {
                assert(before_deep.len() == before.len());
                assert forall|i: int| 0 <= i < before.len() + 1 implies #[trigger] r.deep_view()[i]
                    == before_deep.push(sv)[i] by {
                    if i < before.len() {
                        assert(r@[i] == before[i]);
                    }
                }
                assert(r.deep_view() =~= before_deep.push(sv));
                vstd::seq_lib::to_multiset_build(before_deep, sv);
                assert(r.deep_view().to_multiset().add(
                    conf_stems_ms(suffix.drop_first()),
                ) =~= before_deep.to_multiset().add(conf_stems_ms(suffix)));
            }
        }
        k = k + 1;
    }
    proof {
        assert(entries.deep_view().subrange(
            entries@.len() as int,
            entries@.len() as int,
        ) =~= Seq::<Seq<char>>::empty());
        assert(r.deep_view().to_multiset().add(
            conf_stems_ms(Seq::<Seq<char>>::empty()),
        ) =~= r.deep_view().to_multiset());
    }
    r
}

/// The tunnel entry derived from one discovered name.
pub open spec fn tunnel_of(dir: Seq<char>, n: Seq<char>) -> TunnelV {
    TunnelV {
        name: n,
        config_path: dir + "/"@ + n + ".conf"@,
        is_active: false,
        interface: None,
    }
}

/// What discovery promises: one entry per configuration file found,
/// sorted lexicographically by name, each entry determined by its name.
pub open spec fn discover_shape(dir: Seq<char>, entries: Seq<Seq<char>>, ts: Seq<TunnelV>) -> bool {
    &&& ts.map_values(|t: TunnelV| t.name).to_multiset() == conf_stems_ms(entries)
    &&& sorted_by(ts.map_values(|t: TunnelV| t.name), lex_leq())
    &&& forall|i: int| 0 <= i < ts.len() ==> ts[i] == tunnel_of(dir, (#[trigger] ts[i]).name)
}

/// Turns a directory listing into tunnel entries: names ending in `.conf`
/// are kept, their stems become tunnel names, and the result is sorted by
/// name.  An unreadable directory yields an empty listing and so an empty
/// result, not an error.
pub fn discover_tunnels(dir: &str, entries: &Vec<String>) -> (r: Vec<Tunnel>)
    ensures
        discover_shape(dir@, entries.deep_view(), r@.map_values(|t: Tunnel| t@)),
{
    let stems = conf_stems(entries);
    let sorted = sort_names(stems);
    let mut r: Vec<Tunnel> = Vec::new();
    let mut k: usize = 0;
    while k < sorted.len()
        invariant
            k <= sorted.len(),
            r@.len() == k,
            forall|i: int|
                0 <= i < k ==> (#[trigger] r@[i])@ == tunnel_of(dir@, sorted.deep_view()[i]),
        decreases sorted.len() - k,
    {
        let name = sorted[k].clone();
        let mut path = dir.to_owned();
        path.append("/");
        path.append(name.as_str());
        path.append(".conf");
        let t = Tunnel { name, config_path: path, is_active: false, interface: None };
        proof {
            assert(t@ == tunnel_of(dir@, sorted.deep_view()[k as int]));
        }
        r.push(t);
        k = k + 1;
    }
    proof {
        let tvs = r@.map_values(|t: Tunnel| t@);
        assert(tvs.map_values(|t: TunnelV| t.name) =~= sorted.deep_view());
    }
    r
}

/// Law: discovery does not depend on the order of the directory listing.
/// Two listings holding the same entries, in any order and with any
/// multiplicity, yield exactly the same tunnel sequence.
pub proof fn lemma_discover_order_independent(
    dir: Seq<char>,
    e1: Seq<Seq<char>>,
    e2: Seq<Seq<char>>,
    t1: Seq<TunnelV>,
    t2: Seq<TunnelV>,
)
    requires
        e1.to_multiset() == e2.to_multiset(),
        discover_shape(dir, e1, t1),
        discover_shape(dir, e2, t2),
    ensures
        t1 == t2,
{
    lemma_stems_ms_permutation(e1, e2);
    lemma_lex_total_ordering();
    let n1 = t1.map_values(|t: TunnelV| t.name);
    let n2 = t2.map_values(|t: TunnelV| t.name);
    vstd::seq_lib::lemma_sorted_unique(n1, n2, lex_leq());
    assert(n1 =~= n2);
    assert forall|i: int| 0 <= i < t1.len() implies t1[i] == t2[i] by {
        assert(t1[i] == tunnel_of(dir, t1[i].name));
        assert(t2[i] == tunnel_of(dir, t2[i].name));
        assert(n1[i] == t1[i].name);
        assert(n2[i] == t2[i].name);
    }
    assert(t1 =~= t2);
}

/// The names of the missing commands, given whether each of the three
/// required ones (`wg`, `wg-quick`, `ip`) is present.
pub open spec fn missing_deps(wg: bool, wg_quick: bool, ip: bool) -> Seq<Seq<char>> {
    (if !wg {
        seq!["wg"@]
    } else {
        Seq::<Seq<char>>::empty()
    }) + (if !wg_quick {
        seq!["wg-quick"@]
    } else {
        Seq::<Seq<char>>::empty()
    }) + (if !ip {
        seq!["ip"@]
    } else {
        Seq::<Seq<char>>::empty()
    })
}

/// Checks which of the required commands are missing, given whether each
/// is present on the system.
pub fn check_dependencies(wg: bool, wg_quick: bool, ip: bool) -> (r: Vec<String>)
    ensures
        r.deep_view() == missing_deps(wg, wg_quick, ip),
{
    let mut r: Vec<String> = Vec::new();
    if !wg {
        r.push(String::from_str("wg"));
    }
    if !wg_quick {
        r.push(String::from_str("wg-quick"));
    }
    if !ip {
        r.push(String::from_str("ip"));
    }
    proof {
        assert(r.deep_view() =~= missing_deps(wg, wg_quick, ip));
    }
    r
}

} // verus!
