use ddstats::dump::unpack_dump;

fn archive_of(files: &[(&str, &[u8])]) -> Vec<u8> {
    let mut builder = tar::Builder::new(Vec::new());
    for (path, data) in files {
        let mut header = tar::Header::new_gnu();
        header.set_size(data.len() as u64);
        header.set_mode(0o644);
        header.set_cksum();
        builder.append_data(&mut header, path, *data).unwrap();
    }
    let archive = builder.into_inner().unwrap();
    zstd::stream::encode_all(archive.as_slice(), 3).unwrap()
}

#[test]
fn dump_unpacks_into_its_files_in_order() {
    let compressed = archive_of(&[
        ("2021-05-18T00:00:00.json", b"{\"servers\":[]}"),
        ("2021-05-18T00:05:00.json", b"{}"),
    ]);
    let files = unpack_dump(&compressed).unwrap();
    assert_eq!(files.len(), 2);
    assert_eq!(files[0].0, b"2021-05-18T00:00:00.json".to_vec());
    assert_eq!(files[0].1, b"{\"servers\":[]}".to_vec());
    assert_eq!(files[1].0, b"2021-05-18T00:05:00.json".to_vec());
    assert_eq!(files[1].1, b"{}".to_vec());
}

#[test]
fn empty_archive_has_no_files() {
    let compressed = archive_of(&[]);
    assert_eq!(unpack_dump(&compressed).unwrap().len(), 0);
}

#[test]
fn bytes_that_are_no_zstd_do_not_unpack() {
    assert!(unpack_dump(b"this is not zstd data").is_none());
}
