use snail_os::binfs::{file_name, BinFs};

#[test]
fn test_resolve() {
    let fs = BinFs::new("/bin");

    let file_paths = vec![
        ("/bin/ls", Some("/bin/ls.js".to_string())),
        ("/bin/perl/cpan", Some("/bin/perl/cpan.js".to_string())),
        ("/bin/ld.gold", Some("/bin/ld.gold.js".to_string())),
        ("/bin/node.js", Some("/bin/node.js.js".to_string())),
        ("/usr/bin/go", None),
        ("/sbin/sudo", None),
    ];

    for (input_path, expected_output) in file_paths {
        assert_eq!(fs.resolve(input_path), expected_output);
    }
}

#[test]
fn test_resolve_cleans_repeated_separators() {
    let fs = BinFs::new("/bin");
    assert_eq!(fs.resolve("/bin//ls"), Some("/bin/ls.js".to_string()));
    assert_eq!(fs.resolve("//bin/ls"), Some("/bin/ls.js".to_string()));
}

#[test]
fn test_resolve_mount_point_alone_has_no_file_name() {
    let fs = BinFs::new("/bin");
    assert_eq!(fs.resolve("/"), None);
}

#[test]
fn test_resolve_relative_path_is_outside_absolute_mount() {
    let fs = BinFs::new("/bin");
    assert_eq!(fs.resolve("bin/ls"), None);
}

#[test]
fn test_file_name() {
    assert_eq!(file_name("/bin/ls"), Some("ls".to_string()));
    assert_eq!(file_name("/bin/perl/cpan"), Some("cpan".to_string()));
    assert_eq!(file_name("ld.gold"), Some("ld.gold".to_string()));
    assert_eq!(file_name("/"), None);
    assert_eq!(file_name(""), None);
}
