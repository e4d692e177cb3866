//! Presentation helpers: status-bar messages, shortened key rendering and
//! human-readable byte counts.

use vstd::prelude::*;

use crate::text::{dec_spec, dec_u128, dec_u64, digit_char, extract};

verus! {

/// A transient status-bar message.
#[derive(Debug, Clone)]
pub enum Message {
    Info(String),
    Success(String),
    Error(String),
}

impl Message {
    /// The text carried by this message.
    pub open spec fn text_spec(&self) -> Seq<char> {
        match self {
            Message::Info(s) => s@,
            Message::Success(s) => s@,
            Message::Error(s) => s@,
        }
    }

    /// Returns the text carried by this message.
    pub fn text(&self) -> (r: &str)
        ensures
            r@ == self.text_spec(),
    {
        match self {
            Message::Info(s) => s.as_str(),
            Message::Success(s) => s.as_str(),
            Message::Error(s) => s.as_str(),
        }
    }
}

/// A key shortened for display: over twenty characters, only the first
/// eight and the last eight remain, joined by an ellipsis.
pub open spec fn truncate_key_spec(k: Seq<char>) -> Seq<char> {
    if k.len() > 20 {
        k.subrange(0, 8) + "…"@ + k.subrange(k.len() - 8, k.len() as int)
    } else {
        k
    }
}

/// Shortens a long key for display.
pub fn truncate_key(key: &str) -> (r: String)
    ensures
        r@ == truncate_key_spec(key@),
{
    let n = key.unicode_len();
    if n > 20 {
        let mut s = extract(key, 0, 8);
        s.append("…");
        let tail = key.substring_char(n - 8, n);
        s.append(tail);
        proof {
            assert(s@ =~= truncate_key_spec(key@));
        }
        s
    } else {
        key.to_owned()
    }
}

/// The number of hundredths that `b` bytes make of a unit, rounded to
/// the nearest, ties to even.
pub open spec fn unit_hundredths(b: int, unit: int) -> int {
    let q = (100 * b) / unit;
    let r2 = 2 * ((100 * b) % unit);
    if r2 > unit || (r2 == unit && q % 2 == 1) {
        q + 1
    } else {
        q
    }
}

/// Computes `unit_hundredths` for a byte count and a positive unit.
fn hundredths(b: u64, unit: u64) -> (r: u128)
    requires
        1 <= unit,
    ensures
        r as int == unit_hundredths(b as int, unit as int),
{
    let q: u128 = (100 * b as u128) / (unit as u128);
    let r2: u128 = 2 * ((100 * b as u128) % (unit as u128));
    if r2 > unit as u128 || (r2 == unit as u128 && q % 2 == 1) {
        q + 1
    } else {
        q
    }
}

/// A quantity of unit hundredths rendered with two decimal places.
pub open spec fn two_places(h: int) -> Seq<char> {
    dec_spec(h / 100) + "."@ + seq![digit_char(h / 10 % 10), digit_char(h % 10)]
}

/// A byte count rendered for people: scaled to the largest binary unit
/// it reaches (GiB, MiB or KiB) with two decimal places, or the plain
/// count below one KiB.
pub open spec fn format_bytes_spec(b: u64) -> Seq<char> {
    if b >= 1073741824 {
        two_places(unit_hundredths(b as int, 1073741824)) + " GiB"@
    } else if b >= 1048576 {
        two_places(unit_hundredths(b as int, 1048576)) + " MiB"@
    } else if b >= 1024 {
        two_places(unit_hundredths(b as int, 1024)) + " KiB"@
    } else {
        dec_spec(b as int) + " B"@
    }
}

/// Renders `h` hundredths of a unit with two decimal places and the
/// given unit suffix.
fn render_two_places(h: u128, suffix: &str) -> (r: String)
    ensures
        r@ == two_places(h as int) + suffix@,
{
    let mut s = dec_u128(h / 100);
    s.append(".");
    s.append(crate::text::digit_str((h / 10 % 10) as u64));
    s.append(crate::text::digit_str((h % 10) as u64));
    s.append(suffix);
    proof {
        assert(s@ =~= two_places(h as int) + suffix@);
    }
    s
}

/// Renders a byte count for people.
pub fn format_bytes(bytes: u64) -> (r: String)
    ensures
        r@ == format_bytes_spec(bytes),
{
    if bytes >= 1073741824 {
        render_two_places(hundredths(bytes, 1073741824), " GiB")
    } else if bytes >= 1048576 {
        render_two_places(hundredths(bytes, 1048576), " MiB")
    } else if bytes >= 1024 {
        render_two_places(hundredths(bytes, 1024), " KiB")
    } else {
        let mut s = dec_u64(bytes);
        s.append(" B");
        s
    }
}

} // verus!
