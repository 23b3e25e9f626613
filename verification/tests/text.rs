use slow_pages::order::chars_before;
use slow_pages::text::{chars_of, find_first};

#[test]
fn chars_of_gives_the_characters_in_their_order() {
    assert_eq!(chars_of("GET /foo"), vec!['G', 'E', 'T', ' ', '/', 'f', 'o', 'o']);
    assert_eq!(chars_of(""), Vec::<char>::new());
    assert_eq!(chars_of("aé日"), vec!['a', 'é', '日']);
}

#[test]
fn find_first_gives_the_first_place_or_the_length() {
    let v = chars_of("k=a=b");
    assert_eq!(find_first(&v, '='), 1);
    assert_eq!(find_first(&v, 'k'), 0);
    assert_eq!(find_first(&v, 'b'), 4);
    assert_eq!(find_first(&v, 'x'), 5);
    assert_eq!(find_first(&Vec::new(), 'x'), 0);
}

#[test]
fn chars_before_is_the_order_of_the_alphabet() {
    let before = |a: &str, b: &str| chars_before(&chars_of(a), &chars_of(b));
    assert!(before("", "a"));
    assert!(before("a", "b"));
    assert!(before("a", "ab"));
    assert!(before("GET /a", "GET /b"));
    assert!(before("DELETE /z", "GET /a"));
    assert!(before("Z", "a"));
    assert!(!before("a", "a"));
    assert!(!before("", ""));
    assert!(!before("b", "a"));
    assert!(!before("ab", "a"));
}
