//! Parser for the live-status text protocol: newline-separated `key: value`
//! pairs describing one interface and its peers, where `peer:` lines open a
//! new peer block and transfer amounts carry binary byte units.

use vstd::prelude::*;

use crate::text::{
    all_digits, digits_to_nat, drop_empty, ends_with, find_char, find_from, is_digit,
    lemma_digits_nonneg, lemma_digits_upper, lemma_drop_empty_push, lemma_pow10_le,
    lemma_pow10_pos, parse_digits_u64, pow10, pow10_u64, range_ends_with, range_eq_str_ci,
    extract, range_eq_str, seq_eq_ci, split_by, split_ranges, trim_spec,
};

verus! {

/// One remote peer as reported by the live status text.
#[derive(Debug, Clone)]
pub struct PeerInfo {
    pub public_key: String,
    pub endpoint: Option<String>,
    pub allowed_ips: Vec<String>,
    pub latest_handshake: Option<String>,
    pub transfer_rx: u64,
    pub transfer_tx: u64,
}

/// The mathematical shape of a `PeerInfo`.
pub struct PeerInfoV {
    pub public_key: Seq<char>,
    pub endpoint: Option<Seq<char>>,
    pub allowed_ips: Seq<Seq<char>>,
    pub latest_handshake: Option<Seq<char>>,
    pub transfer_rx: u64,
    pub transfer_tx: u64,
}

impl View for PeerInfo {
    type V = PeerInfoV;

    open spec fn view(&self) -> PeerInfoV {
        PeerInfoV {
            public_key: self.public_key@,
            endpoint: self.endpoint.deep_view(),
            allowed_ips: self.allowed_ips.deep_view(),
            latest_handshake: self.latest_handshake.deep_view(),
            transfer_rx: self.transfer_rx,
            transfer_tx: self.transfer_tx,
        }
    }
}

/// The local endpoint of an active tunnel, with its ordered peer list.
#[derive(Debug, Clone)]
pub struct InterfaceInfo {
    pub public_key: String,
    pub listen_port: Option<u16>,
    pub peers: Vec<PeerInfo>,
}

/// The mathematical shape of an `InterfaceInfo`.
pub struct InterfaceInfoV {
    pub public_key: Seq<char>,
    pub listen_port: Option<u16>,
    pub peers: Seq<PeerInfoV>,
}

impl View for InterfaceInfo {
    type V = InterfaceInfoV;

    open spec fn view(&self) -> InterfaceInfoV {
        InterfaceInfoV {
            public_key: self.public_key@,
            listen_port: self.listen_port,
            peers: self.peers@.map_values(|p: PeerInfo| p@),
        }
    }
}

/// The byte multiplier of a transfer unit token, matched without regard
/// to ASCII case.
pub open spec fn unit_multiplier(u: Seq<char>) -> Option<int> {
    if seq_eq_ci(u, "b"@) {
        Some(1)
    } else if seq_eq_ci(u, "kib"@) {
        Some(1024)
    } else if seq_eq_ci(u, "mib"@) {
        Some(1048576)
    } else if seq_eq_ci(u, "gib"@) {
        Some(1073741824)
    } else if seq_eq_ci(u, "tib"@) {
        Some(1099511627776)
    } else {
        None
    }
}

/// The integer part, fractional part and fractional length of a decimal
/// magnitude token, or `None` if the token is not a decimal number.
/// Fractional digits beyond the nineteenth are below the resolution of
/// every recognised unit and are not read.
pub open spec fn magnitude_parts(t: Seq<char>) -> Option<(int, int, int)> {
    match find_from(t, '.', 0) {
        None => if t.len() > 0 && all_digits(t) {
            Some((digits_to_nat(t), 0, 0))
        } else {
            None
        },
        Some(j) => {
            let ip = t.subrange(0, j);
            let fp = t.subrange(j + 1, t.len() as int);
            if t.len() > 1 && all_digits(ip) && all_digits(fp) {
                let fl: int = if fp.len() <= 19 {
                    fp.len() as int
                } else {
                    19
                };
                Some((digits_to_nat(ip), digits_to_nat(fp.subrange(0, fl)), fl))
            } else {
                None
            }
        },
    }
}

/// `s` with one trailing ` received` and then one trailing ` sent` removed.
pub open spec fn strip_transfer_suffix(s: Seq<char>) -> Seq<char> {
    let t = if ends_with(s, " received"@) {
        s.subrange(0, s.len() - " received"@.len())
    } else {
        s
    };
    if ends_with(t, " sent"@) {
        t.subrange(0, t.len() - " sent"@.len())
    } else {
        t
    }
}

/// The byte count denoted by one transfer amount: a decimal magnitude and
/// a binary unit, separated by spaces, after the direction suffix is
/// stripped.  Anything unrecognised counts as zero, and a value beyond
/// `u64::MAX` saturates.
pub open spec fn parse_bytes_spec(s: Seq<char>) -> int {
    let toks = drop_empty(split_by(strip_transfer_suffix(s), " "@));
    if toks.len() < 2 {
        0
    } else {
        match magnitude_parts(toks[0]) {
            None => 0,
            Some((iv, fv, fl)) => match unit_multiplier(toks[1]) {
                None => 0,
                Some(m) => {
                    let total = iv * m + (fv * m) / pow10(fl);
                    if total > u64::MAX {
                        u64::MAX as int
                    } else {
                        total
                    }
                },
            },
        }
    }
}

/// The multiplier of the unit token at `cs[lo..hi]`, or `None` when the
/// token is not recognised.
fn unit_multiplier_exec(cs: &Vec<char>, lo: usize, hi: usize) -> (r: Option<u64>)
    requires
        lo <= hi <= cs.len(),
    ensures
        ({
            let u = cs@.subrange(lo as int, hi as int);
            match r {
                Some(m) => unit_multiplier(u) == Some(m as int) && 1 <= m <= 1099511627776,
                None => unit_multiplier(u) is None,
            }
        }),
{
    if range_eq_str_ci(cs, lo, hi, "b") {
        Some(1)
    } else if range_eq_str_ci(cs, lo, hi, "kib") {
        Some(1024)
    } else if range_eq_str_ci(cs, lo, hi, "mib") {
        Some(1048576)
    } else if range_eq_str_ci(cs, lo, hi, "gib") {
        Some(1073741824)
    } else if range_eq_str_ci(cs, lo, hi, "tib") {
        Some(1099511627776)
    } else {
        None
    }
}

/// The non-empty pieces among `pieces`, which must be ranges into `cs`
/// bounded by `lo` and `hi`.
fn nonempty_ranges(cs: &Vec<char>, pieces: &Vec<(usize, usize)>, lo: usize, hi: usize) -> (r:
    Vec<(usize, usize)>)
    requires
        lo <= hi <= cs.len(),
        forall|j: int| 0 <= j < pieces@.len() ==> lo <= (#[trigger] pieces@[j]).0 <= pieces@[j].1
            <= hi,
    ensures
        r@.map_values(|p: (usize, usize)| cs@.subrange(p.0 as int, p.1 as int)) == drop_empty(
            pieces@.map_values(|p: (usize, usize)| cs@.subrange(p.0 as int, p.1 as int)),
        ),
        forall|j: int| 0 <= j < r@.len() ==> lo <= (#[trigger] r@[j]).0 < r@[j].1 <= hi,
{
    let ghost piece_views = pieces@.map_values(
        |p: (usize, usize)| cs@.subrange(p.0 as int, p.1 as int),
    );
    let mut toks: Vec<(usize, usize)> = Vec::new();
    let mut k: usize = 0;
    while k < pieces.len()
        invariant
            k <= pieces.len(),
            lo <= hi <= cs.len(),
            piece_views == pieces@.map_values(
                |p: (usize, usize)| cs@.subrange(p.0 as int, p.1 as int),
            ),
            forall|j: int| 0 <= j < pieces@.len() ==> lo <= (#[trigger] pieces@[j]).0
                <= pieces@[j].1 <= hi,
            toks@.map_values(|p: (usize, usize)| cs@.subrange(p.0 as int, p.1 as int))
                == drop_empty(piece_views.subrange(0, k as int)),
            forall|j: int| 0 <= j < toks@.len() ==> lo <= (#[trigger] toks@[j]).0 < toks@[j].1
                <= hi,
        decreases pieces.len() - k,
    {
        let p = pieces[k];
        let ghost before = toks@;
        if p.0 < p.1 {
            toks.push(p);
        }
        proof {
            assert(piece_views.subrange(0, k + 1) =~= piece_views.subrange(0, k as int).push(
                piece_views[k as int],
            ));
            lemma_drop_empty_push(piece_views.subrange(0, k as int), piece_views[k as int]);
            if p.0 < p.1 {
                assert(toks@.map_values(
                    |q: (usize, usize)| cs@.subrange(q.0 as int, q.1 as int),
                ) =~= before.map_values(
                    |q: (usize, usize)| cs@.subrange(q.0 as int, q.1 as int),
                ).push(cs@.subrange(p.0 as int, p.1 as int)));
            }
        }
        k = k + 1;
    }
    proof {
        assert(piece_views.subrange(0, piece_views.len() as int) =~= piece_views);
    }
    toks
}

/// Reads the magnitude token at `cs[lo..hi]`: the integer part (`None`
/// when it exceeds `u64::MAX`), the fractional value and the fractional
/// length, or `None` when the token is not a decimal number.
fn magnitude_exec(cs: &Vec<char>, lo: usize, hi: usize) -> (r: Option<(Option<u64>, u64, usize)>)
    requires
        lo <= hi <= cs.len(),
    ensures
        ({
            let t = cs@.subrange(lo as int, hi as int);
            match r {
                None => magnitude_parts(t) is None,
                Some((ivo, fv, fl)) => magnitude_parts(t) matches Some((siv, sfv, sfl))
                    && fv == sfv && fl == sfl && fl <= 19 && (match ivo {
                    Some(iv) => iv == siv,
                    None => siv > u64::MAX,
                }),
            }
        }),
{
    let ghost mag = cs@.subrange(lo as int, hi as int);
    match find_char(cs, lo, hi, '.') {
        None => {
            match parse_digits_u64(cs, lo, hi) {
                None => None,
                Some(v) => {
                    if lo == hi {
                        assert(mag.len() == 0);
                        None
                    } else {
                        proof {
                            assert(magnitude_parts(mag) == Some((digits_to_nat(mag), 0int, 0int)));
                        }
                        Some((v, 0, 0))
                    }
                },
            }
        },
        Some(j) => {
            if hi - lo <= 1 {
                assert(mag.len() <= 1);
                return None;
            }
            let ghost ip = mag.subrange(0, j - lo);
            let ghost fp = mag.subrange(j + 1 - lo, mag.len() as int);
            proof {
                assert(cs@.subrange(lo as int, j as int) =~= ip);
                assert(cs@.subrange(j + 1, hi as int) =~= fp);
            }
            let ivo: Option<u64>;
            match parse_digits_u64(cs, lo, j) {
                None => {
                    return None;
                },
                Some(v) => {
                    ivo = v;
                },
            }
            match parse_digits_u64(cs, j + 1, hi) {
                None => {
                    return None;
                },
                Some(_) => {},
            }
            let flen = hi - (j + 1);
            let fl: usize = if flen <= 19 {
                flen
            } else {
                19
            };
            proof {
                assert(cs@.subrange(j + 1, j + 1 + fl as int) =~= fp.subrange(0, fl as int));
                assert(all_digits(fp.subrange(0, fl as int)));
                lemma_digits_upper(fp.subrange(0, fl as int));
                lemma_pow10_le(fl as int, 19);
                assert(pow10(19) == 10_000_000_000_000_000_000) by {
                    reveal_with_fuel(pow10, 21);
                }
            }
            let fv: u64;
            match parse_digits_u64(cs, j + 1, j + 1 + fl) {
                Some(Some(v)) => {
                    fv = v;
                },
                _ => {
                    proof {
                        assert(false);
                    }
                    return None;
                },
            }
            proof {
                assert(magnitude_parts(mag) == Some(
                    (digits_to_nat(ip), digits_to_nat(fp.subrange(0, fl as int)), fl as int),
                ));
            }
            Some((ivo, fv, fl))
        },
    }
}

/// A magnitude whose integer part exceeds `u64::MAX` scales past it too.
proof fn lemma_scale_saturates(iv: int, fv: int, fl: int, m: int)
    requires
        iv > u64::MAX,
        m >= 1,
        fv >= 0,
    ensures
        iv * m + (fv * m) / pow10(fl) > u64::MAX,
{
    lemma_pow10_pos(fl);
    assert(iv * m >= iv) by (nonlinear_arith)
        requires
            iv >= 0,
            m >= 1,
    ;
    assert(fv * m >= 0) by (nonlinear_arith)
        requires
            fv >= 0,
            m >= 0,
    ;
    assert((fv * m) / pow10(fl) >= 0) by (nonlinear_arith)
        requires
            fv * m >= 0,
            pow10(fl) >= 1,
    ;
}

/// Scales a parsed magnitude by a unit multiplier, saturating at
/// `u64::MAX`.
fn scale_magnitude(iv: u64, fv: u64, fl: usize, m: u64) -> (r: u64)
    requires
        fl <= 19,
        1 <= m <= 1099511627776,
    ensures
        ({
            let total = iv as int * m as int + (fv as int * m as int) / pow10(fl as int);
            r as int == if total > u64::MAX {
                u64::MAX as int
            } else {
                total
            }
        }),
{
    proof {
        lemma_pow10_pos(fl as int);
        assert(iv as int * m as int <= 0xFFFF_FFFF_FFFF_FFFF * 0x100_0000_0000)
            by (nonlinear_arith)
            requires
                0 <= iv as int <= 0xFFFF_FFFF_FFFF_FFFF,
                0 <= m as int <= 0x100_0000_0000,
        ;
        assert(fv as int * m as int <= 0xFFFF_FFFF_FFFF_FFFF * 0x100_0000_0000)
            by (nonlinear_arith)
            requires
                0 <= fv as int <= 0xFFFF_FFFF_FFFF_FFFF,
                0 <= m as int <= 0x100_0000_0000,
        ;
        assert(fv as int * m as int >= 0) by (nonlinear_arith)
            requires
                fv >= 0,
                m >= 0,
        ;
        assert((fv as int * m as int) / pow10(fl as int) >= 0) by (nonlinear_arith)
            requires
                fv as int * m as int >= 0,
                pow10(fl as int) >= 1,
        ;
    }
    let p = pow10_u64(fl);
    let t1: u128 = iv as u128 * m as u128;
    let t2: u128 = (fv as u128 * m as u128) / (p as u128);
    let total: u128 = t1 + t2;
    if total > u64::MAX as u128 {
        u64::MAX
    } else {
        total as u64
    }
}

/// Parses the transfer amount held in `cs[lo..hi]`.
pub(crate) fn parse_bytes_range(cs: &Vec<char>, lo: usize, hi: usize) -> (r: u64)
    requires
        lo <= hi <= cs.len(),
    ensures
        r as int == parse_bytes_spec(cs@.subrange(lo as int, hi as int)),
{
    let ghost s = cs@.subrange(lo as int, hi as int);
    let mut h = hi;
    if range_ends_with(cs, lo, hi, " received") {
        h = hi - " received".unicode_len();
    }
    proof {
        assert(cs@.subrange(lo as int, h as int) =~= if ends_with(s, " received"@) {
            s.subrange(0, s.len() - " received"@.len())
        } else {
            s
        });
    }
    let h2: usize;
    if range_ends_with(cs, lo, h, " sent") {
        h2 = h - " sent".unicode_len();
    } else {
        h2 = h;
    }
    proof {
        assert(cs@.subrange(lo as int, h2 as int) =~= strip_transfer_suffix(s));
    }
    let ghost stripped = cs@.subrange(lo as int, h2 as int);
    proof {
        reveal_strlit(" ");
    }
    let pieces = split_ranges(cs, lo, h2, " ");
    let toks = nonempty_ranges(cs, &pieces, lo, h2);
    let ghost spec_toks = drop_empty(split_by(stripped, " "@));

    if toks.len() < 2 {
        return 0;
    }
    let (a0, b0) = (toks[0].0, toks[0].1);
    let (a1, b1) = (toks[1].0, toks[1].1);
    proof {
        assert(spec_toks[0] == cs@.subrange(a0 as int, b0 as int));
        assert(spec_toks[1] == cs@.subrange(a1 as int, b1 as int));
    }
    let ghost mag = cs@.subrange(a0 as int, b0 as int);

    let m = match unit_multiplier_exec(cs, a1, b1) {
        Some(m) => m,
        None => {
            return 0;
        },
    };
    match magnitude_exec(cs, a0, b0) {
        None => 0,
        Some((ivo, fv, fl)) => match ivo {
            Some(iv) => scale_magnitude(iv, fv, fl, m),
            None => {
                proof {
                    let ghost_triple = magnitude_parts(mag)->0;
                    lemma_scale_saturates(ghost_triple.0, ghost_triple.1, ghost_triple.2, m as int);
                }
                u64::MAX
            },
        },
    }
}

/// Parses one transfer amount such as `1.00 KiB received`; unparsable
/// input yields zero, and a value beyond `u64::MAX` saturates.
pub fn parse_bytes(s: &str) -> (r: u64)
    ensures
        r as int == parse_bytes_spec(s@),
{
    let cs = crate::text::to_chars(s);
    let n = cs.len();
    let r = parse_bytes_range(&cs, 0, n);
    proof {
        assert(cs@.subrange(0, n as int) =~= s@);
    }
    r
}

/// The listen port denoted by a digit string, or `None` when it is empty,
/// has a non-digit, or exceeds the port range.
pub open spec fn parse_port(s: Seq<char>) -> Option<u16> {
    if s.len() > 0 && all_digits(s) && digits_to_nat(s) <= 65535 {
        Some(digits_to_nat(s) as u16)
    } else {
        None
    }
}

/// The parser's running state: the interface gathered so far and the peer
/// block currently open, if any.
pub struct AccV {
    pub info: InterfaceInfoV,
    pub open_peer: Option<PeerInfoV>,
}

/// The state before any line is read.
pub open spec fn init_acc() -> AccV {
    AccV {
        info: InterfaceInfoV { public_key: Seq::empty(), listen_port: None, peers: Seq::empty() },
        open_peer: None,
    }
}

/// A freshly opened peer block with only its public key set.
pub open spec fn new_peer(pk: Seq<char>) -> PeerInfoV {
    PeerInfoV {
        public_key: pk,
        endpoint: None,
        allowed_ips: Seq::empty(),
        latest_handshake: None,
        transfer_rx: 0,
        transfer_tx: 0,
    }
}

/// Closes the open peer block, if any, by appending it to the peer list.
pub open spec fn flush_acc(st: AccV) -> InterfaceInfoV {
    match st.open_peer {
        None => st.info,
        Some(p) => InterfaceInfoV {
            public_key: st.info.public_key,
            listen_port: st.info.listen_port,
            peers: st.info.peers.push(p),
        },
    }
}

/// How one `key: value` pair changes the parser state.
pub open spec fn step_keyval(st: AccV, key: Seq<char>, val: Seq<char>) -> AccV {
    if key == "public key"@ && st.open_peer is None {
        AccV {
            info: InterfaceInfoV {
                public_key: val,
                listen_port: st.info.listen_port,
                peers: st.info.peers,
            },
            open_peer: None,
        }
    } else if key == "listening port"@ {
        AccV {
            info: InterfaceInfoV {
                public_key: st.info.public_key,
                listen_port: parse_port(val),
                peers: st.info.peers,
            },
            open_peer: st.open_peer,
        }
    } else if key == "peer"@ {
        AccV { info: flush_acc(st), open_peer: Some(new_peer(val)) }
    } else {
        match st.open_peer {
            None => st,
            Some(p) => step_peer_keyval(st, p, key, val),
        }
    }
}

/// How one `key: value` pair changes an open peer block.
pub open spec fn step_peer_keyval(st: AccV, p: PeerInfoV, key: Seq<char>, val: Seq<char>) -> AccV {
    {
        if key == "endpoint"@ {
            AccV {
                info: st.info,
                open_peer: Some(
                    PeerInfoV {
                        public_key: p.public_key,
                        endpoint: Some(val),
                        allowed_ips: p.allowed_ips,
                        latest_handshake: p.latest_handshake,
                        transfer_rx: p.transfer_rx,
                        transfer_tx: p.transfer_tx,
                    },
                ),
            }
        } else if key == "allowed ips"@ {
            AccV {
                info: st.info,
                open_peer: Some(
                    PeerInfoV {
                        public_key: p.public_key,
                        endpoint: p.endpoint,
                        allowed_ips: split_by(val, ", "@),
                        latest_handshake: p.latest_handshake,
                        transfer_rx: p.transfer_rx,
                        transfer_tx: p.transfer_tx,
                    },
                ),
            }
        } else if key == "latest handshake"@ {
            AccV {
                info: st.info,
                open_peer: Some(
                    PeerInfoV {
                        public_key: p.public_key,
                        endpoint: p.endpoint,
                        allowed_ips: p.allowed_ips,
                        latest_handshake: Some(val),
                        transfer_rx: p.transfer_rx,
                        transfer_tx: p.transfer_tx,
                    },
                ),
            }
        } else if key == "transfer"@ {
            let parts = split_by(val, ", "@);
            AccV {
                info: st.info,
                open_peer: Some(
                    PeerInfoV {
                        public_key: p.public_key,
                        endpoint: p.endpoint,
                        allowed_ips: p.allowed_ips,
                        latest_handshake: p.latest_handshake,
                        transfer_rx: parse_bytes_spec(parts[0]) as u64,
                        transfer_tx: if parts.len() > 1 {
                            parse_bytes_spec(parts[1]) as u64
                        } else {
                            p.transfer_tx
                        },
                    },
                ),
            }
        } else {
            st
        }
    }
}

/// How one raw line changes the parser state: the line is trimmed, split
/// at its first colon, and the trimmed value is dispatched on the key;
/// a line without a colon is ignored.
pub open spec fn step_line(st: AccV, line: Seq<char>) -> AccV {
    let t = trim_spec(line);
    match find_from(t, ':', 0) {
        None => st,
        Some(j) => step_keyval(st, t.subrange(0, j), trim_spec(t.subrange(j + 1, t.len() as int))),
    }
}

/// Runs the parser over `lines` starting from state `st`.
pub open spec fn parse_acc(lines: Seq<Seq<char>>, st: AccV) -> AccV
    decreases lines.len(),
{
    if lines.len() == 0 {
        st
    } else {
        parse_acc(lines.drop_first(), step_line(st, lines[0]))
    }
}

/// Processing one more line folds it onto the state reached so far.
pub proof fn lemma_parse_acc_push(lines: Seq<Seq<char>>, st: AccV, l: Seq<char>)
    ensures
        parse_acc(lines.push(l), st) == step_line(parse_acc(lines, st), l),
    decreases lines.len(),
{
    if lines.len() == 0 {
        assert(lines.push(l)[0] == l);
        assert(lines.push(l).drop_first() =~= Seq::<Seq<char>>::empty());
        assert(parse_acc(lines.push(l), st) == parse_acc(
            Seq::<Seq<char>>::empty(),
            step_line(st, l),
        ));
        assert(parse_acc(Seq::<Seq<char>>::empty(), step_line(st, l)) == step_line(st, l));
        assert(parse_acc(lines, st) == st);
    } else {
        assert(lines.push(l)[0] == lines[0]);
        assert(lines.push(l).drop_first() =~= lines.drop_first().push(l));
        assert(parse_acc(lines.push(l), st) == parse_acc(
            lines.drop_first().push(l),
            step_line(st, lines[0]),
        ));
        lemma_parse_acc_push(lines.drop_first(), step_line(st, lines[0]), l);
        assert(parse_acc(lines, st) == parse_acc(lines.drop_first(), step_line(st, lines[0])));
    }
}

/// The interface denoted by a complete status text: every newline-separated
/// line is folded into the state and the last open peer block is closed.
pub open spec fn parse_wg_spec(s: Seq<char>) -> InterfaceInfoV {
    flush_acc(parse_acc(split_by(s, "\n"@), init_acc()))
}

/// The pieces of `cs[lo..hi]` split on `sep`, extracted as `String`s.
fn extract_pieces(text: &str, cs: &Vec<char>, lo: usize, hi: usize, sep: &str) -> (r: Vec<String>)
    requires
        cs@ == text@,
        lo <= hi <= cs.len(),
        sep@.len() > 0,
    ensures
        r.deep_view() == split_by(cs@.subrange(lo as int, hi as int), sep@),
{
    let parts = split_ranges(cs, lo, hi, sep);
    let ghost piece_views = parts@.map_values(
        |p: (usize, usize)| cs@.subrange(p.0 as int, p.1 as int),
    );
    let mut out: Vec<String> = Vec::new();
    let mut k: usize = 0;
    while k < parts.len()
        invariant
            cs@ == text@,
            k <= parts.len(),
            lo <= hi <= cs.len(),
            piece_views == parts@.map_values(
                |p: (usize, usize)| cs@.subrange(p.0 as int, p.1 as int),
            ),
            forall|j: int| 0 <= j < parts@.len() ==> lo <= (#[trigger] parts@[j]).0 <= parts@[j].1
                <= hi,
            out.deep_view() == piece_views.subrange(0, k as int),
        decreases parts.len() - k,
    {
        let p = parts[k];
        let e = extract(text, p.0, p.1);
        let ghost before = out@;
        let ghost before_deep = out.deep_view();
        out.push(e);
        proof {
            assert(before_deep == piece_views.subrange(0, k as int));
            assert(before_deep.len() == k);
            assert(before.len() == k);
            assert forall|i: int| 0 <= i < k + 1 implies #[trigger] out.deep_view()[i]
                == piece_views.subrange(0, k + 1)[i] by {
                if i < k {
                    assert(out@[i] == before[i]);
                    assert(before_deep[i] == piece_views.subrange(0, k as int)[i]);
                } else {
                    assert(out@[i] == e);
                }
            }
            assert(out.deep_view() =~= piece_views.subrange(0, k + 1));
        }
        k = k + 1;
    }
    proof {
        assert(piece_views.subrange(0, parts@.len() as int) =~= piece_views);
    }
    out
}

/// The listen port at `cs[lo..hi]`.
fn parse_port_exec(cs: &Vec<char>, lo: usize, hi: usize) -> (r: Option<u16>)
    requires
        lo <= hi <= cs.len(),
    ensures
        r == parse_port(cs@.subrange(lo as int, hi as int)),
{
    match crate::text::parse_dec_bounded(cs, lo, hi, 65535) {
        Some(v) => Some(v as u16),
        None => None,
    }
}

/// The parser's running state, executable form.
struct ParseAcc {
    info: InterfaceInfo,
    open_peer: Option<PeerInfo>,
}

impl View for ParseAcc {
    type V = AccV;

    closed spec fn view(&self) -> AccV {
        AccV {
            info: self.info@,
            open_peer: match self.open_peer {
                Some(p) => Some(p@),
                None => None,
            },
        }
    }
}

/// Applies one `key: value` pair, given as ranges into `cs`, to the state.
fn step_keyval_exec(acc: ParseAcc, text: &str, cs: &Vec<char>, ka: usize, kb: usize, va: usize,
    vb: usize) -> (r: ParseAcc)
    requires
        cs@ == text@,
        ka <= kb <= cs.len(),
        va <= vb <= cs.len(),
    ensures
        r@ == step_keyval(
            acc@,
            cs@.subrange(ka as int, kb as int),
            cs@.subrange(va as int, vb as int),
        ),
{
    let ghost key = cs@.subrange(ka as int, kb as int);
    let ghost val = cs@.subrange(va as int, vb as int);
    let ghost st = acc@;
    if acc.open_peer.is_none() && range_eq_str(cs, ka, kb, "public key") {
        let ParseAcc { info, open_peer } = acc;
        let InterfaceInfo { public_key: _, listen_port, peers } = info;
        ParseAcc {
            info: InterfaceInfo { public_key: extract(text, va, vb), listen_port, peers },
            open_peer,
        }
    } else if range_eq_str(cs, ka, kb, "listening port") {
        let ParseAcc { info, open_peer } = acc;
        let InterfaceInfo { public_key, listen_port: _, peers } = info;
        ParseAcc {
            info: InterfaceInfo {
                public_key,
                listen_port: parse_port_exec(cs, va, vb),
                peers,
            },
            open_peer,
        }
    } else if range_eq_str(cs, ka, kb, "peer") {
        let ParseAcc { info, open_peer } = acc;
        let InterfaceInfo { public_key, listen_port, mut peers } = info;
        let ghost old_peers = peers@;
        if let Some(p) = open_peer {
            peers.push(p);
            proof {
                assert(peers@.map_values(|q: PeerInfo| q@) =~= old_peers.map_values(
                    |q: PeerInfo| q@,
                ).push(p@));
            }
        }
        let np = PeerInfo {
            public_key: extract(text, va, vb),
            endpoint: None,
            allowed_ips: Vec::new(),
            latest_handshake: None,
            transfer_rx: 0,
            transfer_tx: 0,
        };
        proof {
            assert(np@.allowed_ips =~= Seq::<Seq<char>>::empty());
            assert(np@ == new_peer(val));
        }
        ParseAcc { info: InterfaceInfo { public_key, listen_port, peers }, open_peer: Some(np) }
    } else {
        let ParseAcc { info, open_peer } = acc;
        match open_peer {
            None => ParseAcc { info, open_peer: None },
            Some(mut p) => {
                if range_eq_str(cs, ka, kb, "endpoint") {
                    p.endpoint = Some(extract(text, va, vb));
                } else if range_eq_str(cs, ka, kb, "allowed ips") {
                    proof {
                        reveal_strlit(", ");
                    }
                    p.allowed_ips = extract_pieces(text, cs, va, vb, ", ");
                } else if range_eq_str(cs, ka, kb, "latest handshake") {
                    p.latest_handshake = Some(extract(text, va, vb));
                } else if range_eq_str(cs, ka, kb, "transfer") {
                    proof {
                        reveal_strlit(", ");
                    }
                    let parts = split_ranges(cs, va, vb, ", ");
                    proof {
                        crate::text::lemma_split_by_unfold(val, ", "@);
                        assert(split_by(val, ", "@).len() >= 1);
                    }
                    p.transfer_rx = parse_bytes_range(cs, parts[0].0, parts[0].1);
                    if parts.len() > 1 {
                        p.transfer_tx = parse_bytes_range(cs, parts[1].0, parts[1].1);
                    }
                }
                ParseAcc { info, open_peer: Some(p) }
            },
        }
    }
}

/// Applies one raw line, given as a range into `cs`, to the state.
fn step_line_exec(acc: ParseAcc, text: &str, cs: &Vec<char>, ls: usize, le: usize) -> (r:
    ParseAcc)
    requires
        cs@ == text@,
        ls <= le <= cs.len(),
    ensures
        r@ == step_line(acc@, cs@.subrange(ls as int, le as int)),
{
    let ghost line = cs@.subrange(ls as int, le as int);
    let (a, b) = crate::text::trimmed_range(cs, ls, le);
    let ghost t = trim_spec(line);
    match find_char(cs, a, b, ':') {
        None => acc,
        Some(j) => {
            proof {
                assert(cs@.subrange(a as int, j as int) =~= t.subrange(0, j - a));
                assert(cs@.subrange(j + 1, b as int) =~= t.subrange(j - a + 1, t.len() as int));
            }
            let (va, vb) = crate::text::trimmed_range(cs, j + 1, b);
            step_keyval_exec(acc, text, cs, a, j, va, vb)
        },
    }
}

/// Parses the full status text of one interface: its own public key and
/// listen port, then one entry per peer block, in the order the blocks
/// appear; the final open block is included.
pub fn parse_wg_output(output: &str) -> (r: InterfaceInfo)
    ensures
        r@ == parse_wg_spec(output@),
{
    let cs = crate::text::to_chars(output);
    let n = cs.len();
    proof {
        reveal_strlit("\n");
        assert(cs@.subrange(0, n as int) =~= output@);
    }
    let lines = split_ranges(&cs, 0, n, "\n");
    let ghost line_views = lines@.map_values(
        |p: (usize, usize)| cs@.subrange(p.0 as int, p.1 as int),
    );
    let mut acc = ParseAcc {
        info: InterfaceInfo { public_key: String::new(), listen_port: None, peers: Vec::new() },
        open_peer: None,
    };
    proof {
        assert(acc@.info.peers =~= Seq::<PeerInfoV>::empty());
        assert(acc@ == init_acc());
    }
    let mut k: usize = 0;
    while k < lines.len()
        invariant
            cs@ == output@,
            k <= lines.len(),
            line_views == lines@.map_values(
                |p: (usize, usize)| cs@.subrange(p.0 as int, p.1 as int),
            ),
            forall|j: int| 0 <= j < lines@.len() ==> (#[trigger] lines@[j]).0 <= lines@[j].1
                <= cs.len(),
            acc@ == parse_acc(line_views.subrange(0, k as int), init_acc()),
        decreases lines.len() - k,
    {
        let p = lines[k];
        acc = step_line_exec(acc, output, &cs, p.0, p.1);
        proof {
            assert(line_views.subrange(0, k + 1) =~= line_views.subrange(0, k as int).push(
                line_views[k as int],
            ));
            lemma_parse_acc_push(
                line_views.subrange(0, k as int),
                init_acc(),
                line_views[k as int],
            );
        }
        k = k + 1;
    }
    proof {
        assert(line_views.subrange(0, lines@.len() as int) =~= line_views);
        assert(line_views == split_by(output@, "\n"@));
    }
    let ParseAcc { info, open_peer } = acc;
    let InterfaceInfo { public_key, listen_port, mut peers } = info;
    let ghost old_peers = peers@;
    if let Some(p) = open_peer {
        peers.push(p);
        proof {
            assert(peers@.map_values(|q: PeerInfo| q@) =~= old_peers.map_values(
                |q: PeerInfo| q@,
            ).push(p@));
        }
    }
    InterfaceInfo { public_key, listen_port, peers }
}

/// Whether a raw line opens a new peer block.
pub open spec fn is_peer_line(line: Seq<char>) -> bool {
    let t = trim_spec(line);
    match find_from(t, ':', 0) {
        None => false,
        Some(j) => t.subrange(0, j) == "peer"@,
    }
}

/// The trimmed value of a peer-opening line: the new peer's public key.
pub open spec fn opened_value(line: Seq<char>) -> Seq<char> {
    let t = trim_spec(line);
    match find_from(t, ':', 0) {
        None => Seq::empty(),
        Some(j) => trim_spec(t.subrange(j + 1, t.len() as int)),
    }
}

/// The values of the peer-opening lines among `lines`, in order.
pub open spec fn peer_values(lines: Seq<Seq<char>>) -> Seq<Seq<char>>
    decreases lines.len(),
{
    if lines.len() == 0 {
        seq![]
    } else {
        (if is_peer_line(lines[0]) {
            seq![opened_value(lines[0])]
        } else {
            Seq::<Seq<char>>::empty()
        }) + peer_values(lines.drop_first())
    }
}

/// The peer public keys a state will deliver: the closed blocks in order,
/// then the open block if one exists.
pub open spec fn proj_keys(st: AccV) -> Seq<Seq<char>> {
    st.info.peers.map_values(|p: PeerInfoV| p.public_key) + (match st.open_peer {
        Some(p) => seq![p.public_key],
        None => Seq::<Seq<char>>::empty(),
    })
}

/// One line extends the delivered keys by exactly the keys it opens.
proof fn lemma_step_keys(st: AccV, line: Seq<char>)
    ensures
        proj_keys(step_line(st, line)) == proj_keys(st) + (if is_peer_line(line) {
            seq![opened_value(line)]
        } else {
            Seq::<Seq<char>>::empty()
        }),
{
    broadcast use vstd::string::group_string_axioms;

    reveal_strlit("public key");
    reveal_strlit("listening port");
    reveal_strlit("peer");
    assert("peer"@.len() == 4);
    assert("public key"@.len() == 10);
    assert("listening port"@.len() == 14);
    let t = trim_spec(line);
    match find_from(t, ':', 0) {
        None => {
            assert(proj_keys(st) + Seq::<Seq<char>>::empty() =~= proj_keys(st));
        },
        Some(j) => {
            let key = t.subrange(0, j);
            let val = trim_spec(t.subrange(j + 1, t.len() as int));
            let next = step_keyval(st, key, val);
            if key == "peer"@ {
                assert(key != "public key"@);
                assert(key != "listening port"@);
                assert(is_peer_line(line));
                assert(opened_value(line) == val);
                match st.open_peer {
                    None => {
                        assert(proj_keys(next) =~= proj_keys(st) + seq![val]);
                    },
                    Some(p) => {
                        assert(st.info.peers.push(p).map_values(|q: PeerInfoV| q.public_key)
                            =~= st.info.peers.map_values(|q: PeerInfoV| q.public_key).push(
                            p.public_key,
                        ));
                        assert(proj_keys(next) =~= proj_keys(st) + seq![val]);
                    },
                }
            } else {
                assert(!is_peer_line(line));
                assert(proj_keys(next) =~= proj_keys(st));
                assert(proj_keys(st) + Seq::<Seq<char>>::empty() =~= proj_keys(st));
            }
        },
    }
}

/// Folding lines over a state extends the delivered keys by exactly the
/// keys those lines open, in order.
proof fn lemma_parse_acc_keys(lines: Seq<Seq<char>>, st: AccV)
    ensures
        proj_keys(parse_acc(lines, st)) == proj_keys(st) + peer_values(lines),
    decreases lines.len(),
{
    if lines.len() == 0 {
        assert(proj_keys(st) + peer_values(lines) =~= proj_keys(st));
    } else {
        lemma_step_keys(st, lines[0]);
        lemma_parse_acc_keys(lines.drop_first(), step_line(st, lines[0]));
        let opt = if is_peer_line(lines[0]) {
            seq![opened_value(lines[0])]
        } else {
            Seq::<Seq<char>>::empty()
        };
        assert((proj_keys(st) + opt) + peer_values(lines.drop_first()) =~= proj_keys(st) + (opt
            + peer_values(lines.drop_first())));
    }
}

/// Law: for any status text, `parse_wg_output` yields exactly one peer
/// entry per peer-opening line, in the order those lines appear, and each
/// entry's public key is that line's trimmed value.  A trailing block not
/// followed by another `peer:` line is included.
pub proof fn lemma_parse_peer_order(s: Seq<char>)
    ensures
        parse_wg_spec(s).peers.map_values(|p: PeerInfoV| p.public_key) == peer_values(
            split_by(s, "\n"@),
        ),
        parse_wg_spec(s).peers.len() == peer_values(split_by(s, "\n"@)).len(),
{
    let lines = split_by(s, "\n"@);
    lemma_parse_acc_keys(lines, init_acc());
    assert(init_acc().info.peers.map_values(|p: PeerInfoV| p.public_key)
        =~= Seq::<Seq<char>>::empty());
    assert(proj_keys(init_acc()) =~= Seq::<Seq<char>>::empty());
    assert(Seq::<Seq<char>>::empty() + peer_values(lines) =~= peer_values(lines));
    let st = parse_acc(lines, init_acc());
    match st.open_peer {
        None => {
            assert(proj_keys(st) =~= flush_acc(st).peers.map_values(
                |p: PeerInfoV| p.public_key,
            ));
        },
        Some(p) => {
            assert(st.info.peers.push(p).map_values(|q: PeerInfoV| q.public_key)
                =~= st.info.peers.map_values(|q: PeerInfoV| q.public_key).push(p.public_key));
            assert(proj_keys(st) =~= flush_acc(st).peers.map_values(
                |q: PeerInfoV| q.public_key,
            ));
        },
    }
}

} // verus!
