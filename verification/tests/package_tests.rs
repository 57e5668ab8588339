//! Package container behaviour: the magic header, append and read round
//! trips, exact size accounting, and the error cases of opening.

use ton_node_storage::error::StorageError;
use ton_node_storage::package::{read_package_from, Package};
use ton_node_storage::package_entry::PackageEntry;

fn entry(name: &[u8], data: &[u8]) -> PackageEntry {
    PackageEntry::with_data(name.to_vec(), data.to_vec())
}

#[test]
fn fresh_package_has_magic_header() {
    let pkg = Package::open(Vec::new(), false, true).unwrap();
    assert_eq!(pkg.as_bytes().as_slice(), &[0x01, 0xDD, 0x8F, 0xAE]);
    assert_eq!(pkg.size(), 0);
}

#[test]
fn open_short_without_create_fails() {
    let err = Package::open(vec![0x01, 0xDD], true, false).unwrap_err();
    assert_eq!(err, StorageError::ShortFile);
}

#[test]
fn open_with_wrong_magic_fails() {
    let err = Package::open(vec![0, 0, 0, 0, 9, 9], true, false).unwrap_err();
    assert_eq!(err, StorageError::HeaderMismatch);
}

#[test]
fn append_then_read_returns_entry() {
    let mut pkg = Package::open(Vec::new(), false, true).unwrap();
    let e = entry(b"a.bin", &[1, 2, 3]);
    let (offset, new_size) = pkg.append_entry(&e).unwrap();
    assert_eq!(offset, 0);
    assert_eq!(new_size, 8 + 5 + 3);
    assert_eq!(pkg.size(), 8 + 5 + 3);
    let back = pkg.read_entry(offset).unwrap();
    assert_eq!(back.filename().as_slice(), b"a.bin");
    assert_eq!(back.data().as_slice(), &[1, 2, 3]);
}

#[test]
fn size_grows_by_exact_entry_size() {
    let mut pkg = Package::open(Vec::new(), false, true).unwrap();
    let before = pkg.size();
    pkg.append_entry(&entry(b"x", &[7; 10])).unwrap();
    assert_eq!(pkg.size(), before + 8 + 1 + 10);
}

#[test]
fn read_past_end_is_out_of_range() {
    let pkg = Package::open(Vec::new(), false, true).unwrap();
    assert_eq!(pkg.read_entry(0).unwrap_err(), StorageError::OutOfRange);
}

#[test]
fn read_only_package_refuses_append() {
    let base = Package::open(Vec::new(), false, true).unwrap();
    let mut ro = Package::open(base.as_bytes().clone(), true, false).unwrap();
    let err = ro.append_entry(&entry(b"a", &[1])).unwrap_err();
    assert_eq!(err, StorageError::InvariantViolation);
}

#[test]
fn truncate_cuts_back_to_size() {
    let mut pkg = Package::open(Vec::new(), false, true).unwrap();
    pkg.append_entry(&entry(b"a", &[1, 2])).unwrap();
    pkg.truncate(0);
    assert_eq!(pkg.size(), 0);
    assert_eq!(pkg.as_bytes().as_slice(), &[0x01, 0xDD, 0x8F, 0xAE]);
}

#[test]
fn package_round_trip() {
    // Open fresh with create, append two entries, reopen read-only, check
    // the header bytes, the iteration order, the sizes and the total size.
    let mut pkg = Package::open(Vec::new(), false, true).unwrap();
    pkg.append_entry(&entry(b"a.bin", &[0x01, 0x02])).unwrap();
    pkg.append_entry(&entry(b"b.bin", &[0x03])).unwrap();
    let image = pkg.as_bytes().clone();

    let reopened = Package::open(image.clone(), true, false).unwrap();
    assert_eq!(&reopened.as_bytes()[0..4], &[0x01, 0xDD, 0x8F, 0xAE]);
    assert_eq!(reopened.size(), 8 + 5 + 2 + 8 + 5 + 1);
    assert_eq!(reopened.size(), 29);

    let mut reader = read_package_from(image).unwrap();
    let first = reader.next().unwrap();
    assert_eq!(first.filename().as_slice(), b"a.bin");
    assert_eq!(first.data().as_slice(), &[0x01, 0x02]);
    let second = reader.next().unwrap();
    assert_eq!(second.filename().as_slice(), b"b.bin");
    assert_eq!(second.data().as_slice(), &[0x03]);
    assert!(reader.next().is_none());
}

#[test]
fn empty_entry_round_trips() {
    let mut pkg = Package::open(Vec::new(), false, true).unwrap();
    let (offset, _) = pkg.append_entry(&entry(b"", &[])).unwrap();
    let back = pkg.read_entry(offset).unwrap();
    assert_eq!(back.filename().len(), 0);
    assert_eq!(back.data().len(), 0);
}

#[test]
fn largest_filename_round_trips() {
    let mut pkg = Package::open(Vec::new(), false, true).unwrap();
    let name = vec![b'n'; 65535];
    let (offset, _) = pkg
        .append_entry(&PackageEntry::with_data(name.clone(), vec![5]))
        .unwrap();
    let back = pkg.read_entry(offset).unwrap();
    assert_eq!(back.filename().len(), 65535);
    assert_eq!(back.filename().as_slice(), name.as_slice());
    assert_eq!(back.data().as_slice(), &[5]);
}
