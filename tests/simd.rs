use tl::simd::{find, find4, matches_case_insensitive};

#[test]
fn matches_case_insensitive_test() {
    assert!(matches_case_insensitive(b"hTmL", *b"html"));
    assert!(!matches_case_insensitive(b"hTmLs", *b"html"));
    assert!(!matches_case_insensitive(b"hTmy", *b"html"));
    assert!(!matches_case_insensitive(b"/Tmy", *b"html"));
}

#[test]
fn string_search() {
    assert_eq!(find(b"a", b' '), None);
    assert_eq!(find(b"", b' '), None);
    assert_eq!(find(b"a ", b' '), Some(1));
    assert_eq!(find(b"abcd ", b' '), Some(4));
    assert_eq!(find(b"ab cd ", b' '), Some(2));
    assert_eq!(find(b"abcdefgh ", b' '), Some(8));
    assert_eq!(find(b"abcdefghi ", b' '), Some(9));
    assert_eq!(find(b"abcdefghi", b' '), None);
    assert_eq!(find(b"abcdefghiabcdefghi .", b' '), Some(18));
    assert_eq!(find(b"abcdefghiabcdefghi.", b' '), None);

    let count = 1000usize;

    let long = "a".repeat(count) + "b";
    assert_eq!(find(long.as_bytes(), b'b'), Some(count));
}

#[test]
fn string_search_4() {
    let needle: [u8; 4] = [b'a', b'b', b'c', b'd'];

    assert_eq!(find4(b"e", needle), None);
    assert_eq!(find4(b"a", needle), Some(0));
    assert_eq!(find4(b"ea", needle), Some(1));
    assert_eq!(find4(b"ef", needle), None);
    assert_eq!(find4(b"ef a", needle), Some(3));
    assert_eq!(find4(b"ef g", needle), None);
    assert_eq!(find4(b"ef ghijk", needle), None);
    assert_eq!(find4(b"ef ghijkl", needle), None);
    assert_eq!(find4(b"ef ghijkla", needle), Some(9));
    assert_eq!(find4(b"ef ghiajklm", needle), Some(6));
    assert_eq!(find4(b"ef ghibjklm", needle), Some(6));
    assert_eq!(find4(b"ef ghicjklm", needle), Some(6));
    assert_eq!(find4(b"ef ghidjklm", needle), Some(6));
    assert_eq!(find4(b"ef ghijklmnopqrstua", needle), Some(18));
    assert_eq!(find4(b"ef ghijklmnopqrstub", needle), Some(18));
    assert_eq!(find4(b"ef ghijklmnopqrstuc", needle), Some(18));
    assert_eq!(find4(b"ef ghijklmnopqrstud", needle), Some(18));
    assert_eq!(find4(b"ef ghijklmnopqrstu", needle), None);
}

#[test]
fn search_non_ident() {
    assert_eq!(tl::simd::search_non_ident(b"this-is-a-very-long-identifier<"), Some(30));
    assert_eq!(tl::simd::search_non_ident(b"0123456789Abc_-<"), Some(15));
    assert_eq!(tl::simd::search_non_ident(b"0123456789Abc-<"), Some(14));
    assert_eq!(tl::simd::search_non_ident(b"0123456789Abcdef_-<"), Some(18));
    assert_eq!(tl::simd::search_non_ident(b""), None);
    assert_eq!(tl::simd::search_non_ident(b"short"), None);
    assert_eq!(tl::simd::search_non_ident(b"short_<"), Some(6));
    assert_eq!(tl::simd::search_non_ident(b"0123456789abcdefghijklmnopqrstuvwxyzABCDEFGHIJKLMNOPQRSTUVWXYZ-_"), None);
    assert_eq!(tl::simd::search_non_ident(b"0123456789abcdefghijklmnopqrstuvwxyzABCDEFGHIJKLMNOPQRSTUVWXYZ-_<"), Some(64));
    assert_eq!(tl::simd::search_non_ident(b"0123456789ab<defghijklmnopqrstuvwxyzABCDEFGHIJKLMNOPQRSTUVWXYZ-_<"), Some(12));
}
