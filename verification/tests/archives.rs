use llmman::archive::make_single_file_tar;
use llmman::clock::{exact_moment_text, id_of, moment_text};
use llmman::paths::{extension, file_name, file_name_bytes, join, parent};

#[test]
fn an_archive_holds_its_file_behind_the_header() {
    let data: Vec<u8> = (0..1000u32).map(|i| (i % 251) as u8).collect();
    let a = make_single_file_tar("dir/file.bin", &data).unwrap();
    assert_eq!(a.len(), 512 + 1024 + 1024);
    assert_eq!(&a[..12], b"dir/file.bin");
    assert_eq!(&a[100..108], b"0000644\0");
    assert_eq!(&a[512..1512], &data[..]);
    assert!(a[1512..].iter().all(|b| *b == 0));
}

#[test]
fn whole_blocks_need_no_padding() {
    let a = make_single_file_tar("f", &vec![1u8; 512]).unwrap();
    assert_eq!(a.len(), 512 + 512 + 1024);
    let a = make_single_file_tar("f", &[]).unwrap();
    assert_eq!(a.len(), 512 + 1024);
}

#[test]
fn archives_refuse_names_that_are_too_long() {
    assert!(make_single_file_tar(&"x".repeat(100), b"").is_ok());
    assert!(make_single_file_tar(&"x".repeat(101), b"").is_err());
    assert!(make_single_file_tar("..", b"").is_err());
    assert!(make_single_file_tar("model:q4/f", b"").is_ok());
}

#[test]
fn every_name_is_archived_with_the_length_of_its_file() {
    for name in ["a\\b.gguf", "c:d", "dir/e"] {
        let Ok(a) = make_single_file_tar(name, &[7u8; 10]) else {
            assert_ne!(std::path::MAIN_SEPARATOR, '/', "{name}");
            continue;
        };
        assert_eq!(&a[124..136], b"00000000012\0", "{name}");
        assert_eq!(&a[512..522], &[7u8; 10], "{name}");
        if std::path::MAIN_SEPARATOR == '/' {
            assert_eq!(&a[..name.len()], name.as_bytes());
        }
    }
}

#[test]
fn identifiers_are_hexadecimal() {
    assert_eq!(id_of(0), "0".repeat(32));
    assert_eq!(id_of(0xdeadbeef), "000000000000000000000000deadbeef");
    assert_eq!(id_of(u128::MAX), "f".repeat(32));
}

#[test]
fn moments_are_written_in_utc() {
    assert_eq!(moment_text(0), "1970-01-01T00:00:00Z");
    assert_eq!(exact_moment_text(0), "1970-01-01T00:00:00+00:00");
    let nanos = 1_500_000_000_123_456_789;
    assert_eq!(moment_text(nanos), "2017-07-14T02:40:00Z");
    assert_eq!(exact_moment_text(nanos), "2017-07-14T02:40:00.123456789+00:00");
    assert_eq!(moment_text(253_402_300_799_999_999_999), "9999-12-31T23:59:59Z");
    assert_eq!(moment_text(u128::MAX), "1970-01-01T00:00:00Z");
    assert_eq!(exact_moment_text(u128::MAX), "1970-01-01T00:00:00+00:00");
    assert_eq!(moment_text(i64::MAX as u128 * 1_000_000_000), "1970-01-01T00:00:00Z");
}

#[test]
fn paths_in_bytes_have_names() {
    assert_eq!(file_name_bytes(b"/a/\xffb"), Some(&b"\xffb"[..]));
    assert_eq!(file_name_bytes(b"a/b/./"), Some(&b"b"[..]));
    assert_eq!(file_name_bytes(b"a/.."), None);
    assert_eq!(file_name_bytes(b"a/..b"), Some(&b"..b"[..]));
    assert_eq!(file_name_bytes(b"/"), None);
    assert_eq!(file_name_bytes(b"."), None);
    assert_eq!(file_name_bytes(b""), None);
}

#[test]
fn paths_join_and_come_apart() {
    assert_eq!(join("/a", "b"), "/a/b");
    assert_eq!(join("/a/", "b"), "/a/b");
    assert_eq!(join("", "b"), "b");
    assert_eq!(join("/a", "/b"), "/b");
    assert_eq!(file_name("/a/b.txt"), Some("b.txt"));
    assert_eq!(file_name("/a/b/./"), Some("b"));
    assert_eq!(file_name("/a/.."), None);
    assert_eq!(file_name("/"), None);
    assert_eq!(extension("a/b.tar.gz"), Some("gz"));
    assert_eq!(extension("a/.gguf"), None);
    assert_eq!(extension("a/b"), None);
    assert_eq!(extension("a/b."), Some(""));
    assert_eq!(parent("/a/b"), Some("/a"));
    assert_eq!(parent("/a"), Some("/"));
    assert_eq!(parent("/"), None);
    assert_eq!(parent("a"), Some(""));
    assert_eq!(parent(""), None);
    assert_eq!(parent("a/./b/"), Some("a"));
    assert_eq!(parent("./a"), Some("."));
    assert_eq!(parent("//a"), Some("/"));
}

#[test]
fn paths_agree_with_the_standard_library() {
    for p in [
        "/a/b", "/a", "/", "a", "", "a/./b/", "./a", "//a", "a//b", "/a/b.c/.", "..", "a/..", ".",
        "./", "/.", "/./a", "x.gguf", "d/x.tar.gguf", "d/.hidden", "a/b/", "a.b/c", "./.", "a/../b.c",
    ] {
        let q = std::path::Path::new(p);
        assert_eq!(parent(p), q.parent().map(|x| x.to_str().unwrap()), "parent of {p:?}");
        assert_eq!(file_name(p), q.file_name().map(|x| x.to_str().unwrap()), "name of {p:?}");
        assert_eq!(extension(p), q.extension().map(|x| x.to_str().unwrap()), "suffix of {p:?}");
        for base in ["", "/", "b", "/b/"] {
            assert_eq!(
                join(base, p),
                std::path::Path::new(base).join(p).to_str().unwrap(),
                "{base:?} with {p:?}"
            );
        }
    }
}
