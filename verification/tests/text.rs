use lox::text::{bytes_of, copy, copy_range, decimal, join, precedes, same};

#[test]
fn decimal_digits_of_numbers() {
    assert_eq!(decimal(0), b"0");
    assert_eq!(decimal(7), b"7");
    assert_eq!(decimal(10), b"10");
    assert_eq!(decimal(255), b"255");
    assert_eq!(decimal(1234567890), b"1234567890");
    assert_eq!(decimal(usize::MAX), usize::MAX.to_string().as_bytes());
}

#[test]
fn order_is_lexicographic_by_bytes() {
    let words = ["", "a", "aa", "ab", "b", "B", "a\u{e9}", "z", "10", "9"];
    for first in words {
        for second in words {
            assert_eq!(
                precedes(&first.as_bytes().to_vec(), &second.as_bytes().to_vec()),
                first < second,
                "{:?} < {:?}",
                first,
                second
            );
        }
    }
}

#[test]
fn joining_and_copying() {
    assert_eq!(join(&b"ab".to_vec(), &b"cd".to_vec()), b"abcd");
    assert_eq!(join(&vec![], &b"cd".to_vec()), b"cd");
    assert_eq!(join(&b"ab".to_vec(), &vec![]), b"ab");
    assert_eq!(copy(&b"abc".to_vec()), b"abc");
    assert_eq!(copy_range(&b"abcdef".to_vec(), 2, 4), b"cd");
    assert_eq!(copy_range(&b"abcdef".to_vec(), 3, 3), b"");
    assert_eq!(bytes_of("gr\u{fc}n"), "gr\u{fc}n".as_bytes());
}

#[test]
fn sameness_is_byte_by_byte() {
    assert!(same(&b"abc".to_vec(), &b"abc".to_vec()));
    assert!(same(&vec![], &vec![]));
    assert!(!same(&b"abc".to_vec(), &b"abd".to_vec()));
    assert!(!same(&b"abc".to_vec(), &b"ab".to_vec()));
    assert!(!same(&b"".to_vec(), &b"a".to_vec()));
}
