use protocore::storage::Error;
use protocore::storage::Op;
use protocore::storage::is_valid_dirname;
use protocore::storage::is_valid_filename;
use protocore::storage::parse;

#[test]
fn filenames() {
    assert!(is_valid_filename(b"/kilo.txt"));
    assert!(is_valid_filename(b"/dir/sub/file"));
    assert!(!is_valid_filename(b""));
    assert!(!is_valid_filename(b"relative"));
    assert!(!is_valid_filename(b"/ends/"));
    assert!(!is_valid_filename(b"//double"));
    assert!(!is_valid_filename(b"/a=b"));
    assert!(!is_valid_filename(b"/space ok?no"));
}

#[test]
fn dirnames() {
    assert!(is_valid_dirname(b"/"));
    assert!(is_valid_dirname(b"/dir/sub"));
    assert!(is_valid_dirname(b"/dir/"));
    assert!(!is_valid_dirname(b""));
    assert!(!is_valid_dirname(b"dir"));
    assert!(!is_valid_dirname(b"/a//b"));
    assert!(!is_valid_dirname(b"/has{brace"));
}

#[test]
fn usage_lines() {
    assert_eq!(
        Error::Put.message(),
        b"ERR usage: PUT file length newline data\n".to_vec()
    );
    assert_eq!(Error::Get.message(), b"ERR usage: GET file rev\n".to_vec());
    assert_eq!(Error::List.message(), b"ERR usage: LIST dir\n".to_vec());
}

#[test]
fn ops_compare() {
    assert_eq!(Op::Help, Op::Help);
    assert_eq!(
        Op::Put(b"/f".to_vec(), 3),
        Op::Put(b"/f".to_vec(), 3)
    );
    assert_ne!(Op::Invalid(Error::Put), Op::Invalid(Error::Get));
}

#[test]
fn parse_put() {
    assert_eq!(
        parse(b"PUT /dir/file.txt 14\n"),
        Some(Op::Put(b"/dir/file.txt".to_vec(), 14))
    );
    // Verbs are case-insensitive.
    assert_eq!(parse(b"put /f 0\n"), Some(Op::Put(b"/f".to_vec(), 0)));
    // A PUT that cannot be read keeps its verb's usage error.
    assert_eq!(parse(b"PUT\n"), Some(Op::Invalid(Error::Put)));
    assert_eq!(parse(b"PUT nofile 3\n"), Some(Op::Invalid(Error::Put)));
    assert_eq!(parse(b"PUT /f x\n"), Some(Op::Invalid(Error::Put)));
    assert_eq!(parse(b"PUT /f 3"), Some(Op::Invalid(Error::Put)));
}

#[test]
fn parse_get() {
    assert_eq!(
        parse(b"GET /file\n"),
        Some(Op::Get(b"/file".to_vec(), usize::MAX))
    );
    assert_eq!(parse(b"GET /file r3\n"), Some(Op::Get(b"/file".to_vec(), 3)));
    assert_eq!(parse(b"get /file R7\n"), Some(Op::Get(b"/file".to_vec(), 7)));
    assert_eq!(parse(b"GET\n"), Some(Op::Invalid(Error::Get)));
    assert_eq!(parse(b"GET /file x\n"), Some(Op::Invalid(Error::Get)));
}

#[test]
fn parse_list_and_help() {
    assert_eq!(parse(b"LIST /\n"), Some(Op::List(b"/".to_vec())));
    assert_eq!(parse(b"LIST /dir\n"), Some(Op::List(b"/dir".to_vec())));
    assert_eq!(parse(b"LIST bad\n"), Some(Op::Invalid(Error::List)));
    assert_eq!(parse(b"HELP\n"), Some(Op::Help));
    assert_eq!(parse(b"help whatever\n"), Some(Op::Help));
}

#[test]
fn parse_rejects_unknown_verbs() {
    assert_eq!(parse(b"STORE /f 3\n"), None);
    assert_eq!(parse(b""), None);
    assert_eq!(parse(b"PU"), None);
}
