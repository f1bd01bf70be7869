use boppo::listing::{device_entries, parse_read_dir, process_read_dir_line, DirEntry};
use boppo::remote::{
    read_dir_body, read_dir_reply, read_dir_url, remove_file_reply, remove_file_url, upload_url,
    ReadDirReply,
};
use boppo::sync::FileAttributes;

#[test]
fn a_line_gives_name_and_attributes() {
    assert_eq!(
        process_read_dir_line("d 0 2024-01-01T00:00:00 docs"),
        Some(("docs".to_owned(), FileAttributes { size: 0, is_dir: true }))
    );
    assert_eq!(
        process_read_dir_line("  f\t123 ts  song.mp3 ignored words"),
        Some(("song.mp3".to_owned(), FileAttributes { size: 123, is_dir: false }))
    );
    assert_eq!(
        process_read_dir_line("f +18446744073709551615 t x"),
        Some(("x".to_owned(), FileAttributes { size: u64::MAX, is_dir: false }))
    );
}

#[test]
fn a_line_that_is_no_entry_is_refused() {
    assert_eq!(process_read_dir_line(""), None);
    assert_eq!(process_read_dir_line("f 12 ts"), None);
    assert_eq!(process_read_dir_line("f twelve ts name"), None);
    assert_eq!(process_read_dir_line("f -1 ts name"), None);
    assert_eq!(process_read_dir_line("f 18446744073709551616 ts name"), None);
}

#[test]
fn a_listing_ends_at_its_total() {
    let m = parse_read_dir("d 0 t docs\r\nf 5 t a\nf 7 t a\ntotal 3\nnot an entry\n").unwrap();
    assert_eq!(m.len(), 2);
    assert_eq!(m.get("docs"), Some(&FileAttributes { size: 0, is_dir: true }));
    assert_eq!(m.get("a"), Some(&FileAttributes { size: 7, is_dir: false }));
    assert_eq!(m.get("total"), None);
    assert_eq!(parse_read_dir("").unwrap().len(), 0);
}

#[test]
fn a_bad_line_is_handed_back() {
    match parse_read_dir("f 5 t a\nbad line\ntotal 1") {
        Err(line) => assert_eq!(line, "bad line"),
        Ok(_) => panic!("the line is no entry"),
    }
    match read_dir_body("\n") {
        Err(message) => assert_eq!(message, "Failed to parse read-dir line: "),
        Ok(_) => panic!("an empty line is no entry"),
    }
    assert_eq!(read_dir_body("f 1 t x").unwrap().len(), 1);
}

#[test]
fn a_later_entry_of_a_name_counts() {
    let m = device_entries(&vec![
        DirEntry { name: "a".to_owned(), size: 1, is_dir: false },
        DirEntry { name: "b".to_owned(), size: 2, is_dir: false },
        DirEntry { name: "a".to_owned(), size: 3, is_dir: true },
    ]);
    assert_eq!(m.len(), 2);
    assert_eq!(m.at(0).0, "a");
    assert_eq!(m.get("a"), Some(&FileAttributes { size: 3, is_dir: true }));
}

#[test]
fn requests_have_their_addresses() {
    assert_eq!(read_dir_url("https://x", "/sd/a"), "https://x/files/read-dir?path=/sd/a");
    assert_eq!(upload_url("https://x", "/sd/a"), "https://x/files/upload?path=/sd/a");
    assert_eq!(remove_file_url("https://x", "/sd/a"), "https://x/files/remove-file?path=/sd/a");
}

#[test]
fn statuses_have_their_meanings() {
    assert!(matches!(read_dir_reply(200, "u"), ReadDirReply::Listing));
    assert!(matches!(read_dir_reply(404, "u"), ReadDirReply::Absent(m) if m.len() == 0));
    match read_dir_reply(500, "https://x/y") {
        ReadDirReply::Failed(m) => {
            assert_eq!(m, "read-dir returned status code of 500: https://x/y")
        }
        _ => panic!("500 is a failure"),
    }
    assert_eq!(remove_file_reply(200), Ok(()));
    assert_eq!(
        remove_file_reply(401),
        Err("remove-file returned status code of 401".to_owned())
    );
}
