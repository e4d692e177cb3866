//! Exporting every tunnel into one deflate-compressed archive, built in
//! memory through the `zip` crate.  The writer itself is opaque to the
//! verifier: the entries it has taken are tracked by `archive_entries`,
//! whether it has refused a call by `archive_ok`, and the finished bytes
//! are named by `archive_encoding`.

use vstd::prelude::*;

use crate::{Error, ErrorV};
use std::io::Write;

verus! {

/// The entries an archive under construction holds: each a file name and
/// its exact bytes, in the order they were added.
pub uninterp spec fn archive_entries(a: ArchiveBuilder) -> Seq<(Seq<char>, Seq<u8>)>;

/// Whether the writer has accepted every call made on it so far; only
/// such a writer is promised to finish.
pub uninterp spec fn archive_ok(a: ArchiveBuilder) -> bool;

/// The bytes of the finished archive holding exactly `entries`: with the
/// fixed options used here (deflate compression, the writer's constant
/// default timestamp) they are a function of the entries alone.
pub uninterp spec fn archive_encoding(entries: Seq<(Seq<char>, Seq<u8>)>) -> Seq<u8>;

/// A zip archive being written in memory.  The `zip` crate's writer is
/// not readable by the verifier, so this builder is trusted; what it
/// holds is tracked by `archive_entries`.
#[verifier::external_body]
pub struct ArchiveBuilder {
    inner: zip::ZipWriter<std::io::Cursor<Vec<u8>>>,
}

/// Relies on `zip::ZipWriter::new`: a fresh writer over an empty buffer
/// holds no entries and has refused nothing.
#[verifier::external_body]
fn archive_new() -> (r: ArchiveBuilder)
    ensures
        archive_entries(r) == Seq::<(Seq<char>, Seq<u8>)>::empty(),
        archive_ok(r),
{
    ArchiveBuilder { inner: zip::ZipWriter::new(std::io::Cursor::new(Vec::new())) }
}

/// Relies on `zip::ZipWriter::start_file` and its `std::io::Write`
/// implementation.  On success exactly one entry with this name and these
/// bytes was appended, deflate compressed.  On a writer that has refused
/// nothing, with the fixed options used here and an in-memory buffer, the
/// only failures the source has are a duplicate entry name, a name too
/// long for the format's 16-bit length field (a quarter of which bounds
/// its UTF-8 form), and entry data past the plain-entry size bound: absent
/// those, the call succeeds.
#[verifier::external_body]
fn archive_add(a: &mut ArchiveBuilder, name: &str, data: &[u8]) -> (r: bool)
    ensures
        r ==> archive_entries(*final(a)) == archive_entries(*old(a)).push((name@, data@)),
        archive_ok(*old(a)) && r ==> archive_ok(*final(a)),
        archive_ok(*old(a)) && !archive_entries(*old(a)).map_values(
            |e: (Seq<char>, Seq<u8>)| e.0,
        ).contains(name@) && name@.len() < 16384 && data@.len() <= 0xFFFF_FFFF ==> r,
{
    let options = zip::write::SimpleFileOptions::default().compression_method(
        zip::CompressionMethod::Deflated,
    );
    if a.inner.start_file(name, options).is_err() {
        return false;
    }
    a.inner.write_all(data).is_ok()
}

/// Relies on `zip::ZipWriter::finish`: it writes the central directory
/// and hands back the buffer, whose bytes are determined by the entries;
/// on an in-memory buffer a writer that has refused nothing cannot fail.
#[verifier::external_body]
fn archive_finish(a: ArchiveBuilder) -> (r: Option<Vec<u8>>)
    ensures
        match r {
            Some(bytes) => bytes@ == archive_encoding(archive_entries(a)),
            None => true,
        },
        archive_ok(a) ==> r is Some,
{
    match a.inner.finish() {
        Ok(c) => Some(c.into_inner()),
        Err(_) => None,
    }
}

/// The archive entries for the given tunnels: each named `<name>.conf`
/// and holding that tunnel's exact file bytes, in order.
pub open spec fn export_entries(names: Seq<Seq<char>>, contents: Seq<Seq<u8>>) -> Seq<
    (Seq<char>, Seq<u8>),
>
    decreases names.len(),
{
    if names.len() == 0 {
        seq![]
    } else {
        seq![(names[0] + ".conf"@, contents[0])] + export_entries(
            names.drop_first(),
            contents.drop_first(),
        )
    }
}

/// Appending one tunnel appends exactly its entry.
proof fn lemma_export_push(
    names: Seq<Seq<char>>,
    contents: Seq<Seq<u8>>,
    n: Seq<char>,
    c: Seq<u8>,
)
    requires
        names.len() == contents.len(),
    ensures
        export_entries(names.push(n), contents.push(c)) == export_entries(
            names,
            contents,
        ).push((n + ".conf"@, c)),
    decreases names.len(),
{
    if names.len() == 0 {
        assert(names.push(n)[0] == n);
        assert(contents.push(c)[0] == c);
        assert(names.push(n).drop_first() =~= Seq::<Seq<char>>::empty());
        assert(contents.push(c).drop_first() =~= Seq::<Seq<u8>>::empty());
        assert(export_entries(Seq::<Seq<char>>::empty(), Seq::<Seq<u8>>::empty())
            == Seq::<(Seq<char>, Seq<u8>)>::empty());
        assert(export_entries(names.push(n), contents.push(c)) == seq![(n + ".conf"@, c)]
            + Seq::<(Seq<char>, Seq<u8>)>::empty());
        assert(export_entries(names.push(n), contents.push(c)) =~= export_entries(
            names,
            contents,
        ).push((n + ".conf"@, c)));
    } else {
        assert(names.push(n)[0] == names[0]);
        assert(contents.push(c)[0] == contents[0]);
        assert(names.push(n).drop_first() =~= names.drop_first().push(n));
        assert(contents.push(c).drop_first() =~= contents.drop_first().push(c));
        lemma_export_push(names.drop_first(), contents.drop_first(), n, c);
        assert(export_entries(names.push(n), contents.push(c)) =~= export_entries(
            names,
            contents,
        ).push((n + ".conf"@, c)));
    }
}

/// The entry names are the tunnel names with `.conf` appended, in order.
proof fn lemma_export_names(names: Seq<Seq<char>>, contents: Seq<Seq<u8>>)
    requires
        names.len() == contents.len(),
    ensures
        export_entries(names, contents).len() == names.len(),
        export_entries(names, contents).map_values(|e: (Seq<char>, Seq<u8>)| e.0)
            == names.map_values(|n: Seq<char>| n + ".conf"@),
    decreases names.len(),
{
    if names.len() == 0 {
        assert(export_entries(names, contents).map_values(|e: (Seq<char>, Seq<u8>)| e.0)
            =~= names.map_values(|n: Seq<char>| n + ".conf"@));
    } else {
        lemma_export_names(names.drop_first(), contents.drop_first());
        let full = export_entries(names, contents);
        assert forall|i: int| 0 <= i < names.len() implies (#[trigger] full[i]).0 == names[i]
            + ".conf"@ by {
            if i > 0 {
                assert(full[i] == export_entries(names.drop_first(), contents.drop_first())[i
                    - 1]);
                assert(names[i] == names.drop_first()[i - 1]);
                assert(export_entries(names.drop_first(), contents.drop_first()).map_values(
                    |e: (Seq<char>, Seq<u8>)| e.0,
                )[i - 1] == names.drop_first().map_values(|n: Seq<char>| n + ".conf"@)[i - 1]);
            }
        }
        assert(full.map_values(|e: (Seq<char>, Seq<u8>)| e.0) =~= names.map_values(
            |n: Seq<char>| n + ".conf"@,
        ));
    }
}

/// The inputs for which an export is owed to succeed: at least one
/// tunnel, no two tunnels of the same name, names of ordinary length,
/// and every file below the archive format's plain-entry size bound.
pub open spec fn exportable(names: Seq<Seq<char>>, contents: Seq<Seq<u8>>) -> bool {
    &&& names.len() > 0
    &&& forall|i: int, j: int| 0 <= i < j < names.len() ==> names[i] != names[j]
    &&& forall|i: int| 0 <= i < names.len() ==> (#[trigger] names[i]).len() < 16000
    &&& forall|i: int| 0 <= i < contents.len() ==> (#[trigger] contents[i]).len() <= 0xFFFF_FFFF
}

/// Archives every tunnel into one deflate-compressed container with one
/// entry per tunnel, named `<name>.conf` and holding that tunnel's exact
/// file bytes.  With no tunnels it fails with `NotFound`; a refusal of
/// the archive writer surfaces as `Io`, and on distinct names of ordinary
/// length with contents below the format's plain-entry bound no refusal
/// exists: the export succeeds.
pub fn export_all(names: &Vec<String>, contents: &Vec<Vec<u8>>) -> (r: Result<Vec<u8>, Error>)
    requires
        names@.len() == contents@.len(),
    ensures
        names@.len() == 0 ==> (r matches Err(e) && e@ == ErrorV::NotFound(
            "No tunnels to export"@,
        )),
        names@.len() > 0 ==> match r {
            Ok(bytes) => bytes@ == archive_encoding(
                export_entries(names.deep_view(), contents.deep_view()),
            ),
            Err(e) => e@ == ErrorV::Io("Could not write archive"@),
        },
        exportable(names.deep_view(), contents.deep_view()) ==> r is Ok,
{
    if names.len() == 0 {
        return Err(Error::NotFound(String::from_str("No tunnels to export")));
    }
    let mut a = archive_new();
    proof {
        assert(names.deep_view().subrange(0, 0) =~= Seq::<Seq<char>>::empty());
        assert(contents.deep_view().subrange(0, 0) =~= Seq::<Seq<u8>>::empty());
    }
    let mut k: usize = 0;
    while k < names.len()
        invariant
            k <= names.len(),
            names@.len() == contents@.len(),
            archive_ok(a),
            archive_entries(a) == export_entries(
                names.deep_view().subrange(0, k as int),
                contents.deep_view().subrange(0, k as int),
            ),
        decreases names.len() - k,
    {
        let ghost pn = names.deep_view().subrange(0, k as int);
        let ghost pc = contents.deep_view().subrange(0, k as int);
        let mut ename = names[k].clone();
        ename.append(".conf");
        proof {
            assert(names.deep_view()[k as int] == names@[k as int]@);
            assert(contents.deep_view()[k as int] == contents@[k as int]@);
            assert(ename@ == names.deep_view()[k as int] + ".conf"@);
        }
        let ghost before = archive_entries(a);
        let ok = archive_add(&mut a, ename.as_str(), contents[k].as_slice());
        if !ok {
            proof {
                if exportable(names.deep_view(), contents.deep_view()) {
                    // Under these hypotheses the writer's success condition
                    // holds, so a refusal is impossible.
                    reveal_strlit(".conf");
                    lemma_export_names(pn, pc);
                    let nk = names.deep_view()[k as int];
                    assert(ename@.len() < 16384);
                    assert(contents.deep_view()[k as int].len() <= 0xFFFF_FFFF);
                    let mapped = before.map_values(|e: (Seq<char>, Seq<u8>)| e.0);
                    if mapped.contains(ename@) {
                        let i = mapped.index_of(ename@);
                        assert(0 <= i < mapped.len() && mapped[i] == ename@);
                        let x = pn[i];
                        assert(x + ".conf"@ == nk + ".conf"@);
                        assert(x.len() == nk.len());
                        assert(x =~= nk) by {
                            assert(forall|j: int|
                                0 <= j < x.len() ==> x[j] == (x + ".conf"@)[j] && nk[j] == (nk
                                    + ".conf"@)[j]);
                        }
                        assert(names.deep_view()[i] == names.deep_view()[k as int]);
                        assert(false);
                    }
                    assert(false);
                }
            }
            return Err(Error::Io(String::from_str("Could not write archive")));
        }
        proof {
            assert(names.deep_view().subrange(0, k + 1) =~= pn.push(
                names.deep_view()[k as int],
            ));
            assert(contents.deep_view().subrange(0, k + 1) =~= pc.push(
                contents.deep_view()[k as int],
            ));
            lemma_export_push(pn, pc, names.deep_view()[k as int], contents.deep_view()[k as int]);
        }
        k = k + 1;
    }
    proof {
        assert(names.deep_view().subrange(0, names@.len() as int) =~= names.deep_view());
        assert(contents.deep_view().subrange(
            0,
            contents@.len() as int,
        ) =~= contents.deep_view());
    }
    match archive_finish(a) {
        Some(bytes) => Ok(bytes),
        None => {
            proof {
                // A writer that refused nothing finishes; this arm cannot
                // be reached.
                assert(false);
            }
            Err(Error::Io(String::from_str("Could not write archive")))
        },
    }
}

} // verus!
