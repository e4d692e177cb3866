use std::io::Read;

use wg_tui::Error;
use wg_tui::archive::export_all;

#[test]
fn export_nothing_is_not_found() {
    match export_all(&Vec::new(), &Vec::new()) {
        Err(Error::NotFound(m)) => assert_eq!(m, "No tunnels to export"),
        other => panic!("expected NotFound, got {:?}", other),
    }
}

#[test]
fn export_round_trips_through_zip() {
    let names = vec!["wg0".to_string(), "office".to_string()];
    let contents = vec![
        b"[Interface]\nPrivateKey = A\n".to_vec(),
        b"[Interface]\nPrivateKey = B\n".to_vec(),
    ];
    let bytes = export_all(&names, &contents).unwrap();

    let cursor = std::io::Cursor::new(bytes);
    let mut archive = zip::ZipArchive::new(cursor).unwrap();
    assert_eq!(archive.len(), 2);

    let mut first = String::new();
    archive
        .by_name("wg0.conf")
        .unwrap()
        .read_to_string(&mut first)
        .unwrap();
    assert_eq!(first, "[Interface]\nPrivateKey = A\n");

    let mut second = String::new();
    archive
        .by_name("office.conf")
        .unwrap()
        .read_to_string(&mut second)
        .unwrap();
    assert_eq!(second, "[Interface]\nPrivateKey = B\n");
}

#[test]
fn export_entries_are_deflate_compressed() {
    let names = vec!["big".to_string()];
    let contents = vec![vec![b'x'; 65536]];
    let bytes = export_all(&names, &contents).unwrap();
    // A repetitive 64 KiB entry must compress well below its input size.
    assert!(bytes.len() < 8192);

    let cursor = std::io::Cursor::new(bytes);
    let mut archive = zip::ZipArchive::new(cursor).unwrap();
    let mut data = Vec::new();
    archive.by_name("big.conf").unwrap().read_to_end(&mut data).unwrap();
    assert_eq!(data, vec![b'x'; 65536]);
}

#[test]
fn export_duplicate_names_are_refused() {
    let names = vec!["same".to_string(), "same".to_string()];
    let contents = vec![b"a".to_vec(), b"b".to_vec()];
    match export_all(&names, &contents) {
        Err(Error::Io(m)) => assert_eq!(m, "Could not write archive"),
        other => panic!("expected Io, got {:?}", other),
    }
}
