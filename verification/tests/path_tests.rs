use ib45_coach::path_safety::{extension_and_stem, is_canonical_drive_d};

#[test]
fn accepts_standard_and_long_d_drive_paths() {
    assert!(is_canonical_drive_d(r"D:\IB Past Papers\paper.pdf"));
    assert!(is_canonical_drive_d(r"\\?\D:\IB Past Papers\very-long-path\paper.pdf"));
}

#[test]
fn rejects_other_drives_and_network_paths() {
    assert!(!is_canonical_drive_d(r"C:\Temp\paper.pdf"));
    assert!(!is_canonical_drive_d(r"\\server\share\paper.pdf"));
}

#[test]
fn drive_letter_case_and_bare_drives() {
    assert!(is_canonical_drive_d(r"d:\papers"));
    assert!(is_canonical_drive_d("D:"));
    assert!(is_canonical_drive_d(r"\\?\d:"));
    assert!(!is_canonical_drive_d(r"\\?\C:\papers"));
    assert!(!is_canonical_drive_d(r"\\?\D:/papers"));
    assert!(!is_canonical_drive_d(r"\\?\UNC\server\share"));
    assert!(!is_canonical_drive_d("papers"));
    assert!(!is_canonical_drive_d(""));
}

#[test]
fn extension_and_stem_follow_the_file_name() {
    assert_eq!(
        extension_and_stem(r"D:\Physics\m24_physics_p1_ms.pdf"),
        (Some("pdf".to_string()), Some("m24_physics_p1_ms".to_string()))
    );
    assert_eq!(extension_and_stem(r"D:\Notes\.hidden"), (None, Some(".hidden".to_string())));
    assert_eq!(extension_and_stem(r"D:\Notes\archive.tar.gz"), (Some("gz".to_string()), Some("archive.tar".to_string())));
    assert_eq!(extension_and_stem(r"D:\Notes\README"), (None, Some("README".to_string())));
    assert_eq!(extension_and_stem(r"D:\Notes\.."), (None, None));
    assert_eq!(extension_and_stem(r"D:notes.txt"), (Some("txt".to_string()), Some("notes".to_string())));
    assert_eq!(extension_and_stem(r"\\server\share"), (None, None));
    assert_eq!(extension_and_stem(r"D:\Notes\."), (None, Some("Notes".to_string())));
}

#[test]
fn verbatim_drive_d_is_read_as_the_standard_library_reads_it() {
    assert!(is_canonical_drive_d(r"\\?\D:\/x"));
    assert!(!is_canonical_drive_d(r"//?/D:\x"));
    assert!(!is_canonical_drive_d(r"\\.\D:\x"));
    assert!(!is_canonical_drive_d(r"D\x"));
}
