//! Character-level text utilities shared by the parsers and writers:
//! trimming, searching, splitting, case-insensitive comparison and
//! bounded decimal parsing, all specified over `Seq<char>`.

use vstd::prelude::*;

verus! {

/// The whitespace characters recognised by trimming and tokenising:
/// Unicode's White_Space set, the one `str::trim` removes.
pub open spec fn is_space_char(c: char) -> bool {
    ('\u{09}' <= c && c <= '\u{0D}') || c == ' ' || c == '\u{85}' || c == '\u{A0}' || c
        == '\u{1680}' || ('\u{2000}' <= c && c <= '\u{200A}') || c == '\u{2028}' || c
        == '\u{2029}' || c == '\u{202F}' || c == '\u{205F}' || c == '\u{3000}'
}

/// Executable test matching `is_space_char`.
pub fn is_space(c: char) -> (r: bool)
    ensures
        r == is_space_char(c),
{
    ('\u{09}' <= c && c <= '\u{0D}') || c == ' ' || c == '\u{85}' || c == '\u{A0}' || c
        == '\u{1680}' || ('\u{2000}' <= c && c <= '\u{200A}') || c == '\u{2028}' || c
        == '\u{2029}' || c == '\u{202F}' || c == '\u{205F}' || c == '\u{3000}'
}

/// `s` with leading whitespace removed.
pub open spec fn trim_start_spec(s: Seq<char>) -> Seq<char>
    decreases s.len(),
{
    if s.len() > 0 && is_space_char(s[0]) {
        trim_start_spec(s.drop_first())
    } else {
        s
    }
}

/// `s` with trailing whitespace removed.
pub open spec fn trim_end_spec(s: Seq<char>) -> Seq<char>
    decreases s.len(),
{
    if s.len() > 0 && is_space_char(s.last()) {
        trim_end_spec(s.drop_last())
    } else {
        s
    }
}

/// `s` with leading and trailing whitespace removed.
pub open spec fn trim_spec(s: Seq<char>) -> Seq<char> {
    trim_end_spec(trim_start_spec(s))
}

/// Returns the bounds of the trimmed portion of `cs[lo..hi]`, as absolute
/// indices into `cs`.
pub fn trimmed_range(cs: &Vec<char>, lo: usize, hi: usize) -> (r: (usize, usize))
    requires
        lo <= hi <= cs.len(),
    ensures
        lo <= r.0 <= r.1 <= hi,
        cs@.subrange(r.0 as int, r.1 as int) == trim_spec(cs@.subrange(lo as int, hi as int)),
{
    let mut a = lo;
    while a < hi && is_space(cs[a])
        invariant
            lo <= a <= hi <= cs.len(),
            trim_start_spec(cs@.subrange(lo as int, hi as int)) == trim_start_spec(
                cs@.subrange(a as int, hi as int),
            ),
        decreases hi - a,
    {
        proof {
            assert(cs@.subrange(a as int, hi as int).drop_first() =~= cs@.subrange(
                a + 1,
                hi as int,
            ));
        }
        a = a + 1;
    }
    proof {
        assert(trim_start_spec(cs@.subrange(a as int, hi as int)) == cs@.subrange(
            a as int,
            hi as int,
        ));
    }
    let mut b = hi;
    while b > a && is_space(cs[b - 1])
        invariant
            lo <= a <= b <= hi <= cs.len(),
            trim_end_spec(cs@.subrange(a as int, hi as int)) == trim_end_spec(
                cs@.subrange(a as int, b as int),
            ),
        decreases b - a,
    {
        proof {
            assert(cs@.subrange(a as int, b as int).drop_last() =~= cs@.subrange(
                a as int,
                b - 1,
            ));
        }
        b = b - 1;
    }
    proof {
        assert(trim_end_spec(cs@.subrange(a as int, b as int)) == cs@.subrange(
            a as int,
            b as int,
        ));
    }
    (a, b)
}

/// The position of the first occurrence of `c` in `s` at or after `i`.
pub open spec fn find_from(s: Seq<char>, c: char, i: int) -> Option<int>
    decreases s.len() - i,
{
    if i < 0 || i >= s.len() {
        None
    } else if s[i] == c {
        Some(i)
    } else {
        find_from(s, c, i + 1)
    }
}

/// Position, presence and minimality of what `find_from` returns.
pub proof fn lemma_find_from(s: Seq<char>, c: char, i: int)
    requires
        0 <= i <= s.len(),
    ensures
        match find_from(s, c, i) {
            Some(j) => i <= j < s.len() && s[j] == c && (forall|k: int| i <= k < j ==> s[k] != c),
            None => forall|k: int| i <= k < s.len() ==> s[k] != c,
        },
    decreases s.len() - i,
{
    if i < s.len() && s[i] != c {
        lemma_find_from(s, c, i + 1);
    }
}

/// Finds the first occurrence of `c` in `cs[lo..hi]`, as an absolute index.
pub fn find_char(cs: &Vec<char>, lo: usize, hi: usize, c: char) -> (r: Option<usize>)
    requires
        lo <= hi <= cs.len(),
    ensures
        match r {
            Some(j) => lo <= j < hi && find_from(cs@.subrange(lo as int, hi as int), c, 0)
                == Some(j - lo),
            None => find_from(cs@.subrange(lo as int, hi as int), c, 0) is None,
        },
{
    let ghost sub = cs@.subrange(lo as int, hi as int);
    let mut i = lo;
    while i < hi
        invariant
            lo <= i <= hi <= cs.len(),
            sub == cs@.subrange(lo as int, hi as int),
            find_from(sub, c, 0) == find_from(sub, c, i - lo),
        decreases hi - i,
    {
        if cs[i] == c {
            proof {
                lemma_find_from(sub, c, i - lo);
            }
            return Some(i);
        }
        i = i + 1;
    }
    None
}

/// The position of the first occurrence of `sep` as a subsequence of `s`
/// at or after `i`.
pub open spec fn find_seq_from(s: Seq<char>, sep: Seq<char>, i: int) -> Option<int>
    decreases s.len() - i,
{
    if i < 0 || sep.len() == 0 || i + sep.len() > s.len() {
        None
    } else if s.subrange(i, i + sep.len() as int) == sep {
        Some(i)
    } else {
        find_seq_from(s, sep, i + 1)
    }
}

/// Position, presence and minimality of what `find_seq_from` returns.
pub proof fn lemma_find_seq_from(s: Seq<char>, sep: Seq<char>, i: int)
    requires
        0 <= i,
        sep.len() > 0,
    ensures
        match find_seq_from(s, sep, i) {
            Some(j) => i <= j && j + sep.len() <= s.len() && s.subrange(j, j + sep.len() as int)
                == sep && (forall|k: int|
                i <= k < j ==> #[trigger] s.subrange(k, k + sep.len() as int) != sep),
            None => forall|k: int|
                i <= k && k + sep.len() <= s.len() ==> #[trigger] s.subrange(
                    k,
                    k + sep.len() as int,
                ) != sep,
        },
    decreases s.len() - i,
{
    if i + sep.len() <= s.len() && s.subrange(i, i + sep.len() as int) != sep {
        lemma_find_seq_from(s, sep, i + 1);
    }
}

/// The pieces of `s` split on separator `sep`; a separator at the very end
/// yields a trailing empty piece, and a missing separator yields `[s]`.
pub open spec fn split_by(s: Seq<char>, sep: Seq<char>) -> Seq<Seq<char>>
    decreases s.len(),
    via split_by_decreases
{
    if sep.len() == 0 {
        seq![s]
    } else {
        match find_seq_from(s, sep, 0) {
            None => seq![s],
            Some(j) => seq![s.subrange(0, j)] + split_by(
                s.subrange(j + sep.len() as int, s.len() as int),
                sep,
            ),
        }
    }
}

#[via_fn]
proof fn split_by_decreases(s: Seq<char>, sep: Seq<char>) {
    if sep.len() > 0 {
        lemma_find_seq_from(s, sep, 0);
    }
}

/// One unfolding of `split_by` at the first separator occurrence.
pub proof fn lemma_split_by_unfold(s: Seq<char>, sep: Seq<char>)
    requires
        sep.len() > 0,
    ensures
        match find_seq_from(s, sep, 0) {
            None => split_by(s, sep) == seq![s],
            Some(j) => split_by(s, sep) == seq![s.subrange(0, j)] + split_by(
                s.subrange(j + sep.len() as int, s.len() as int),
                sep,
            ),
        },
{
    lemma_find_seq_from(s, sep, 0);
}

/// Whether the characters of `cs[lo..hi]` equal the view of `lit`.
pub fn range_eq_str(cs: &Vec<char>, lo: usize, hi: usize, lit: &str) -> (r: bool)
    requires
        lo <= hi <= cs.len(),
    ensures
        r == (cs@.subrange(lo as int, hi as int) == lit@),
{
    let n = lit.unicode_len();
    if n != hi - lo {
        return false;
    }
    let mut i: usize = 0;
    while i < n
        invariant
            lo <= hi <= cs.len(),
            n == lit@.len(),
            n == hi - lo,
            i <= n,
            forall|k: int| 0 <= k < i ==> cs@.subrange(lo as int, hi as int)[k] == lit@[k],
        decreases n - i,
    {
        if cs[lo + i] != lit.get_char(i) {
            proof {
                assert(cs@.subrange(lo as int, hi as int)[i as int] != lit@[i as int]);
            }
            return false;
        }
        i = i + 1;
    }
    proof {
        assert(cs@.subrange(lo as int, hi as int) =~= lit@);
    }
    true
}

/// The lower-case form of an ASCII capital letter; other characters are kept.
pub open spec fn ascii_lower_char(c: char) -> char {
    if 'A' <= c && c <= 'Z' {
        ((c as u8) + 32) as char
    } else {
        c
    }
}

/// Executable form of `ascii_lower_char`.
pub fn ascii_lower(c: char) -> (r: char)
    ensures
        r == ascii_lower_char(c),
{
    if 'A' <= c && c <= 'Z' {
        ((c as u8) + 32) as char
    } else {
        c
    }
}

/// Equality of two character sequences up to ASCII case.
pub open spec fn seq_eq_ci(a: Seq<char>, b: Seq<char>) -> bool {
    a.len() == b.len() && (forall|i: int|
        0 <= i < a.len() ==> ascii_lower_char(a[i]) == ascii_lower_char(b[i]))
}

/// Whether `cs[lo..hi]` equals the view of `lit` up to ASCII case.
pub fn range_eq_str_ci(cs: &Vec<char>, lo: usize, hi: usize, lit: &str) -> (r: bool)
    requires
        lo <= hi <= cs.len(),
    ensures
        r == seq_eq_ci(cs@.subrange(lo as int, hi as int), lit@),
{
    let ghost sub = cs@.subrange(lo as int, hi as int);
    let n = lit.unicode_len();
    if n != hi - lo {
        return false;
    }
    let mut i: usize = 0;
    while i < n
        invariant
            lo <= hi <= cs.len(),
            sub == cs@.subrange(lo as int, hi as int),
            n == lit@.len(),
            n == hi - lo,
            i <= n,
            forall|k: int| 0 <= k < i ==> ascii_lower_char(sub[k]) == ascii_lower_char(lit@[k]),
        decreases n - i,
    {
        if ascii_lower(cs[lo + i]) != ascii_lower(lit.get_char(i)) {
            proof {
                assert(ascii_lower_char(sub[i as int]) != ascii_lower_char(lit@[i as int]));
            }
            return false;
        }
        i = i + 1;
    }
    true
}

/// The characters of `s` as a vector, for constant-time indexing.
pub fn to_chars(s: &str) -> (r: Vec<char>)
    ensures
        r@ == s@,
{
    let n = s.unicode_len();
    let mut r: Vec<char> = Vec::new();
    let mut i: usize = 0;
    while i < n
        invariant
            n == s@.len(),
            i <= n,
            r@ == s@.subrange(0, i as int),
        decreases n - i,
    {
        r.push(s.get_char(i));
        proof {
            assert(r@ =~= s@.subrange(0, i + 1));
        }
        i = i + 1;
    }
    proof {
        assert(s@.subrange(0, n as int) =~= s@);
    }
    r
}

/// Whether `c` is a decimal digit.
pub open spec fn is_digit(c: char) -> bool {
    '0' <= c && c <= '9'
}

/// The numeric value of a digit character.
pub open spec fn digit_val(c: char) -> int {
    c as int - '0' as int
}

/// Whether every character of `s` is a decimal digit.
pub open spec fn all_digits(s: Seq<char>) -> bool {
    forall|i: int| 0 <= i < s.len() ==> is_digit(s[i])
}

/// The numeric value of a digit string, most significant digit first.
pub open spec fn digits_to_nat(s: Seq<char>) -> int
    decreases s.len(),
{
    if s.len() == 0 {
        0
    } else {
        digits_to_nat(s.drop_last()) * 10 + digit_val(s.last())
    }
}

/// A digit string's value is non-negative.
pub proof fn lemma_digits_nonneg(s: Seq<char>)
    requires
        all_digits(s),
    ensures
        digits_to_nat(s) >= 0,
    decreases s.len(),
{
    if s.len() > 0 {
        assert(all_digits(s.drop_last()));
        lemma_digits_nonneg(s.drop_last());
    }
}

/// Parses `cs[lo..hi]` as a decimal number of value at most `bound`;
/// `None` for an empty string, a non-digit, or a value over the bound.
pub fn parse_dec_bounded(cs: &Vec<char>, lo: usize, hi: usize, bound: u32) -> (r: Option<u32>)
    requires
        lo <= hi <= cs.len(),
    ensures
        ({
            let s = cs@.subrange(lo as int, hi as int);
            match r {
                Some(v) => s.len() > 0 && all_digits(s) && digits_to_nat(s) == v && v <= bound,
                None => s.len() == 0 || !all_digits(s) || digits_to_nat(s) > bound,
            }
        }),
{
    let ghost s = cs@.subrange(lo as int, hi as int);
    if lo == hi {
        return None;
    }
    let mut acc: u32 = 0;
    let mut big = false;
    let mut i = lo;
    while i < hi
        invariant
            lo <= i <= hi <= cs.len(),
            s == cs@.subrange(lo as int, hi as int),
            all_digits(s.subrange(0, i - lo)),
            !big ==> acc == digits_to_nat(s.subrange(0, i - lo)) && acc <= bound,
            big ==> digits_to_nat(s.subrange(0, i - lo)) > bound,
        decreases hi - i,
    {
        let c = cs[i];
        if !('0' <= c && c <= '9') {
            assert(!is_digit(s[i - lo]));
            return None;
        }
        let d: u32 = (c as u32) - 48;
        let ghost pre = s.subrange(0, i - lo);
        let ghost ext = s.subrange(0, i + 1 - lo);
        proof {
            assert(ext.drop_last() =~= pre);
            lemma_digits_nonneg(pre);
        }
        if big {
            proof {
                assert(digits_to_nat(ext) == digits_to_nat(pre) * 10 + digit_val(c));
                assert(digits_to_nat(pre) * 10 >= digits_to_nat(pre)) by {
                    lemma_digits_nonneg(pre);
                }
            }
        } else {
            if acc as u64 * 10 + d as u64 > bound as u64 {
                big = true;
                proof {
                    assert(digits_to_nat(ext) == digits_to_nat(pre) * 10 + digit_val(c));
                }
            } else {
                acc = acc * 10 + d;
            }
        }
        i = i + 1;
    }
    proof {
        assert(s.subrange(0, hi - lo) =~= s);
    }
    if big {
        None
    } else {
        Some(acc)
    }
}

/// Whether `s` ends with `suffix`.
pub open spec fn ends_with(s: Seq<char>, suffix: Seq<char>) -> bool {
    s.len() >= suffix.len() && s.subrange(s.len() - suffix.len(), s.len() as int) == suffix
}

/// Whether `cs[lo..hi]` ends with the view of `lit`.
pub fn range_ends_with(cs: &Vec<char>, lo: usize, hi: usize, lit: &str) -> (r: bool)
    requires
        lo <= hi <= cs.len(),
    ensures
        r == ends_with(cs@.subrange(lo as int, hi as int), lit@),
{
    let ghost sub = cs@.subrange(lo as int, hi as int);
    let n = lit.unicode_len();
    if n > hi - lo {
        return false;
    }
    let r = range_eq_str(cs, hi - n, hi, lit);
    proof {
        assert(cs@.subrange(hi - n, hi as int) =~= sub.subrange(
            sub.len() - lit@.len(),
            sub.len() as int,
        ));
    }
    r
}

/// Whether `s` starts with `prefix`.
pub open spec fn starts_with(s: Seq<char>, prefix: Seq<char>) -> bool {
    s.len() >= prefix.len() && s.subrange(0, prefix.len() as int) == prefix
}

/// Whether `cs[lo..hi]` starts with the view of `lit`.
pub fn range_starts_with(cs: &Vec<char>, lo: usize, hi: usize, lit: &str) -> (r: bool)
    requires
        lo <= hi <= cs.len(),
    ensures
        r == starts_with(cs@.subrange(lo as int, hi as int), lit@),
{
    let ghost sub = cs@.subrange(lo as int, hi as int);
    let n = lit.unicode_len();
    if n > hi - lo {
        return false;
    }
    let r = range_eq_str(cs, lo, lo + n, lit);
    proof {
        assert(cs@.subrange(lo as int, lo + n) =~= sub.subrange(0, lit@.len() as int));
    }
    r
}

} // verus!

verus! {

/// Finds the first occurrence of the view of `sep` in `cs[lo..hi]`, as an
/// absolute index.
pub fn find_seq(cs: &Vec<char>, lo: usize, hi: usize, sep: &str) -> (r: Option<usize>)
    requires
        lo <= hi <= cs.len(),
        sep@.len() > 0,
    ensures
        match r {
            Some(j) => lo <= j && j + sep@.len() <= hi && find_seq_from(
                cs@.subrange(lo as int, hi as int),
                sep@,
                0,
            ) == Some(j - lo),
            None => find_seq_from(cs@.subrange(lo as int, hi as int), sep@, 0) is None,
        },
{
    let ghost sub = cs@.subrange(lo as int, hi as int);
    let n = sep.unicode_len();
    let mut j = lo;
    while n <= hi - j
        invariant
            lo <= j <= hi <= cs.len(),
            n == sep@.len(),
            n > 0,
            sub == cs@.subrange(lo as int, hi as int),
            find_seq_from(sub, sep@, 0) == find_seq_from(sub, sep@, j - lo),
        decreases hi - j,
    {
        let eq = range_eq_str(cs, j, j + n, sep);
        proof {
            assert(cs@.subrange(j as int, (j + n) as int) =~= sub.subrange(
                j - lo,
                j - lo + sep@.len(),
            ));
        }
        if eq {
            return Some(j);
        }
        j = j + 1;
    }
    None
}

/// The pieces of `split_by(cs[lo..hi], sep)` as absolute index ranges.
pub fn split_ranges(cs: &Vec<char>, lo: usize, hi: usize, sep: &str) -> (r: Vec<(usize, usize)>)
    requires
        lo <= hi <= cs.len(),
        sep@.len() > 0,
    ensures
        r@.map_values(|p: (usize, usize)| cs@.subrange(p.0 as int, p.1 as int)) == split_by(
            cs@.subrange(lo as int, hi as int),
            sep@,
        ),
        forall|k: int| 0 <= k < r@.len() ==> lo <= (#[trigger] r@[k]).0 <= r@[k].1 <= hi,
{
    let ghost full = cs@.subrange(lo as int, hi as int);
    let ghost pieces = split_by(full, sep@);
    let mut r: Vec<(usize, usize)> = Vec::new();
    let mut pos = lo;
    loop
        invariant
            lo <= pos <= hi <= cs.len(),
            sep@.len() > 0,
            full == cs@.subrange(lo as int, hi as int),
            pieces == split_by(full, sep@),
            pieces == r@.map_values(|p: (usize, usize)| cs@.subrange(p.0 as int, p.1 as int))
                + split_by(cs@.subrange(pos as int, hi as int), sep@),
            forall|k: int| 0 <= k < r@.len() ==> lo <= (#[trigger] r@[k]).0 <= r@[k].1 <= hi,
        ensures
            pieces == r@.map_values(|p: (usize, usize)| cs@.subrange(p.0 as int, p.1 as int)),
            forall|k: int| 0 <= k < r@.len() ==> lo <= (#[trigger] r@[k]).0 <= r@[k].1 <= hi,
        decreases hi - pos,
    {
        let ghost rest = cs@.subrange(pos as int, hi as int);
        let ghost before = r@;
        match find_seq(cs, pos, hi, sep) {
            None => {
                r.push((pos, hi));
                proof {
                    lemma_split_by_unfold(rest, sep@);
                    assert(split_by(rest, sep@) == seq![rest]);
                    assert(r@.map_values(
                        |p: (usize, usize)| cs@.subrange(p.0 as int, p.1 as int),
                    ) =~= before.map_values(
                        |p: (usize, usize)| cs@.subrange(p.0 as int, p.1 as int),
                    ).push(rest));
                }
                return r;
            },
            Some(j) => {
                r.push((pos, j));
                let n = sep.unicode_len();
                proof {
                    lemma_split_by_unfold(rest, sep@);
                    assert(rest.subrange(0, j - pos) =~= cs@.subrange(pos as int, j as int));
                    assert(rest.subrange(j - pos + sep@.len(), rest.len() as int) =~= cs@.subrange(
                        j + sep@.len(),
                        hi as int,
                    ));
                    assert(split_by(rest, sep@) == seq![cs@.subrange(pos as int, j as int)]
                        + split_by(cs@.subrange(j + sep@.len(), hi as int), sep@));
                    assert(r@.map_values(
                        |p: (usize, usize)| cs@.subrange(p.0 as int, p.1 as int),
                    ) =~= before.map_values(
                        |p: (usize, usize)| cs@.subrange(p.0 as int, p.1 as int),
                    ).push(cs@.subrange(pos as int, j as int)));
                }
                pos = j + n;
            },
        }
    }
}

/// `ps` with its empty pieces removed.
pub open spec fn drop_empty(ps: Seq<Seq<char>>) -> Seq<Seq<char>>
    decreases ps.len(),
{
    if ps.len() == 0 {
        seq![]
    } else if ps[0].len() > 0 {
        seq![ps[0]] + drop_empty(ps.drop_first())
    } else {
        drop_empty(ps.drop_first())
    }
}

} // verus!

verus! {

/// Ten to the power `n` (one for non-positive `n`).
pub open spec fn pow10(n: int) -> int
    decreases n,
{
    if n <= 0 {
        1
    } else {
        10 * pow10(n - 1)
    }
}

/// Powers of ten are positive.
pub proof fn lemma_pow10_pos(n: int)
    ensures
        pow10(n) >= 1,
    decreases n,
{
    if n > 0 {
        lemma_pow10_pos(n - 1);
    }
}

/// Powers of ten grow with the exponent.
pub proof fn lemma_pow10_le(a: int, b: int)
    requires
        a <= b,
    ensures
        pow10(a) <= pow10(b),
    decreases b - a,
{
    if a < b {
        lemma_pow10_le(a, b - 1);
        lemma_pow10_pos(b - 1);
    }
}

/// A string of `n` digits has a value below ten to the `n`.
pub proof fn lemma_digits_upper(s: Seq<char>)
    requires
        all_digits(s),
    ensures
        0 <= digits_to_nat(s) < pow10(s.len() as int),
    decreases s.len(),
{
    if s.len() > 0 {
        assert(all_digits(s.drop_last()));
        lemma_digits_upper(s.drop_last());
        assert(is_digit(s.last()));
    }
}

/// Parses `cs[lo..hi]` as an unbounded digit string: `None` when some
/// character is not a digit, `Some(None)` when the value exceeds `u64::MAX`,
/// and `Some(Some(v))` for the value `v`.  An empty range has value zero.
pub fn parse_digits_u64(cs: &Vec<char>, lo: usize, hi: usize) -> (r: Option<Option<u64>>)
    requires
        lo <= hi <= cs.len(),
    ensures
        ({
            let s = cs@.subrange(lo as int, hi as int);
            match r {
                None => !all_digits(s),
                Some(None) => all_digits(s) && digits_to_nat(s) > u64::MAX,
                Some(Some(v)) => all_digits(s) && digits_to_nat(s) == v,
            }
        }),
{
    let ghost s = cs@.subrange(lo as int, hi as int);
    let mut acc: u64 = 0;
    let mut big = false;
    let mut i = lo;
    while i < hi
        invariant
            lo <= i <= hi <= cs.len(),
            s == cs@.subrange(lo as int, hi as int),
            all_digits(s.subrange(0, i - lo)),
            !big ==> acc == digits_to_nat(s.subrange(0, i - lo)),
            big ==> digits_to_nat(s.subrange(0, i - lo)) > u64::MAX,
        decreases hi - i,
    {
        let c = cs[i];
        if !('0' <= c && c <= '9') {
            assert(!is_digit(s[i - lo]));
            return None;
        }
        let d: u64 = (c as u32 - 48) as u64;
        let ghost pre = s.subrange(0, i - lo);
        let ghost ext = s.subrange(0, i + 1 - lo);
        proof {
            assert(ext.drop_last() =~= pre);
            lemma_digits_nonneg(pre);
            assert(digits_to_nat(ext) == digits_to_nat(pre) * 10 + digit_val(c));
        }
        if big {
            proof {
                assert(digits_to_nat(pre) * 10 >= digits_to_nat(pre));
            }
        } else {
            if acc as u128 * 10 + d as u128 > u64::MAX as u128 {
                big = true;
            } else {
                acc = acc * 10 + d;
            }
        }
        i = i + 1;
    }
    proof {
        assert(s.subrange(0, hi - lo) =~= s);
    }
    if big {
        Some(None)
    } else {
        Some(Some(acc))
    }
}

/// Ten to the power `n`, executable for exponents up to nineteen.
pub fn pow10_u64(n: usize) -> (r: u64)
    requires
        n <= 19,
    ensures
        r == pow10(n as int),
{
    proof {
        assert(pow10(19) == 10_000_000_000_000_000_000) by {
            reveal_with_fuel(pow10, 21);
        }
    }
    let mut p: u64 = 1;
    let mut i: usize = 0;
    while i < n
        invariant
            i <= n <= 19,
            p == pow10(i as int),
            pow10(19) == 10_000_000_000_000_000_000,
        decreases n - i,
    {
        proof {
            lemma_pow10_le(i + 1, 19);
            lemma_pow10_pos(i as int);
        }
        p = p * 10;
        i = i + 1;
    }
    p
}

} // verus!

verus! {

/// Appending a piece to a sequence of pieces appends its non-empty part
/// to the result of `drop_empty`.
pub proof fn lemma_drop_empty_push(ps: Seq<Seq<char>>, x: Seq<char>)
    ensures
        drop_empty(ps.push(x)) == if x.len() > 0 {
            drop_empty(ps).push(x)
        } else {
            drop_empty(ps)
        },
    decreases ps.len(),
{
    if ps.len() == 0 {
        let q = ps.push(x);
        assert(q.drop_first() =~= Seq::<Seq<char>>::empty());
        assert(drop_empty(Seq::<Seq<char>>::empty()) == Seq::<Seq<char>>::empty());
        if x.len() > 0 {
            assert(drop_empty(q) == seq![x] + drop_empty(q.drop_first()));
            assert(drop_empty(q) =~= drop_empty(ps).push(x));
        } else {
            assert(drop_empty(q) == drop_empty(q.drop_first()));
        }
    } else {
        assert(ps.push(x).drop_first() =~= ps.drop_first().push(x));
        lemma_drop_empty_push(ps.drop_first(), x);
        if x.len() > 0 {
            if ps[0].len() > 0 {
                assert(drop_empty(ps.push(x)) =~= drop_empty(ps).push(x));
            }
        }
    }
}

} // verus!

verus! {

/// Whether two strings have equal character sequences.
pub fn str_eq(a: &str, b: &str) -> (r: bool)
    ensures
        r == (a@ == b@),
{
    let n = a.unicode_len();
    if n != b.unicode_len() {
        return false;
    }
    let mut i: usize = 0;
    while i < n
        invariant
            n == a@.len() == b@.len(),
            i <= n,
            forall|k: int| 0 <= k < i ==> a@[k] == b@[k],
        decreases n - i,
    {
        if a.get_char(i) != b.get_char(i) {
            return false;
        }
        i = i + 1;
    }
    proof {
        assert(a@ =~= b@);
    }
    true
}

/// The characters `text[a..b]` as a fresh `String`.
pub fn extract(text: &str, a: usize, b: usize) -> (r: String)
    requires
        a <= b <= text@.len(),
    ensures
        r@ == text@.subrange(a as int, b as int),
{
    text.substring_char(a, b).to_owned()
}

/// The character of one decimal digit.
pub open spec fn digit_char(d: int) -> char {
    if d == 0 {
        '0'
    } else if d == 1 {
        '1'
    } else if d == 2 {
        '2'
    } else if d == 3 {
        '3'
    } else if d == 4 {
        '4'
    } else if d == 5 {
        '5'
    } else if d == 6 {
        '6'
    } else if d == 7 {
        '7'
    } else if d == 8 {
        '8'
    } else {
        '9'
    }
}

/// The decimal rendering of a non-negative integer, without leading zeros.
pub open spec fn dec_spec(n: int) -> Seq<char>
    decreases n,
{
    if n < 10 {
        seq![digit_char(n)]
    } else {
        dec_spec(n / 10) + seq![digit_char(n % 10)]
    }
}

/// The literal of one decimal digit.
pub fn digit_str(d: u64) -> (r: &'static str)
    requires
        d <= 9,
    ensures
        r@ == seq![digit_char(d as int)],
{
    proof {
        reveal_strlit("0");
        reveal_strlit("1");
        reveal_strlit("2");
        reveal_strlit("3");
        reveal_strlit("4");
        reveal_strlit("5");
        reveal_strlit("6");
        reveal_strlit("7");
        reveal_strlit("8");
        reveal_strlit("9");
    }
    let r = if d == 0 {
        "0"
    } else if d == 1 {
        "1"
    } else if d == 2 {
        "2"
    } else if d == 3 {
        "3"
    } else if d == 4 {
        "4"
    } else if d == 5 {
        "5"
    } else if d == 6 {
        "6"
    } else if d == 7 {
        "7"
    } else if d == 8 {
        "8"
    } else {
        "9"
    };
    proof {
        assert(r@ =~= seq![digit_char(d as int)]);
    }
    r
}

/// Renders a number in decimal, without leading zeros.
pub fn dec_u64(n: u64) -> (r: String)
    ensures
        r@ == dec_spec(n as int),
    decreases n,
{
    if n < 10 {
        String::from_str(digit_str(n))
    } else {
        let mut s = dec_u64(n / 10);
        s.append(digit_str(n % 10));
        s
    }
}

/// Renders a number in decimal, without leading zeros.
pub fn dec_u128(n: u128) -> (r: String)
    ensures
        r@ == dec_spec(n as int),
    decreases n,
{
    if n < 10 {
        String::from_str(digit_str(n as u64))
    } else {
        let mut s = dec_u128(n / 10);
        s.append(digit_str((n % 10) as u64));
        s
    }
}

/// `s` with leading and trailing whitespace removed, as a fresh `String`.
pub fn trim_str(s: &str) -> (r: String)
    ensures
        r@ == trim_spec(s@),
{
    let cs = to_chars(s);
    let n = cs.len();
    proof {
        assert(cs@.subrange(0, n as int) =~= s@);
    }
    let (a, b) = trimmed_range(&cs, 0, n);
    extract(s, a, b)
}

} // verus!
