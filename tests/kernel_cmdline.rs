use vm_memory::kernel_cmdline::{valid_char, valid_element, valid_str, Cmdline, Error};

#[test]
fn insert_hello_world() {
    let mut cl = Cmdline::new(100);
    assert_eq!(cl.as_str(), "");
    assert!(cl.insert("hello", "world").is_ok());
    assert_eq!(cl.as_str(), "hello=world");

    let s = cl.into_bytes();
    assert_eq!(s, b"hello=world".to_vec());
}

#[test]
fn insert_multi() {
    let mut cl = Cmdline::new(100);
    assert!(cl.insert("hello", "world").is_ok());
    assert!(cl.insert("foo", "bar").is_ok());
    assert_eq!(cl.as_str(), "hello=world foo=bar");
}

#[test]
fn insert_space() {
    let mut cl = Cmdline::new(100);
    assert_eq!(cl.insert("a ", "b"), Err(Error::HasSpace));
    assert_eq!(cl.insert("a", "b "), Err(Error::HasSpace));
    assert_eq!(cl.insert("a ", "b "), Err(Error::HasSpace));
    assert_eq!(cl.insert(" a", "b"), Err(Error::HasSpace));
    assert_eq!(cl.as_str(), "");
}

#[test]
fn insert_equals() {
    let mut cl = Cmdline::new(100);
    assert_eq!(cl.insert("a=", "b"), Err(Error::HasEquals));
    assert_eq!(cl.insert("a", "b="), Err(Error::HasEquals));
    assert_eq!(cl.insert("a=", "b "), Err(Error::HasEquals));
    assert_eq!(cl.insert("=a", "b"), Err(Error::HasEquals));
    assert_eq!(cl.insert("a", "=b"), Err(Error::HasEquals));
    assert_eq!(cl.as_str(), "");
}

#[test]
fn insert_emoji() {
    let mut cl = Cmdline::new(100);
    assert_eq!(cl.insert("heart", "\u{1f496}"), Err(Error::InvalidAscii));
    assert_eq!(cl.insert("\u{1f496}", "love"), Err(Error::InvalidAscii));
    assert_eq!(cl.as_str(), "");
}

#[test]
fn insert_string() {
    let mut cl = Cmdline::new(13);
    assert_eq!(cl.as_str(), "");
    assert!(cl.insert_str("noapic").is_ok());
    assert_eq!(cl.as_str(), "noapic");
    assert!(cl.insert_str("nopci").is_ok());
    assert_eq!(cl.as_str(), "noapic nopci");
}

#[test]
fn insert_too_large() {
    let mut cl = Cmdline::new(4);
    assert_eq!(cl.insert("hello", "world"), Err(Error::TooLarge));
    assert_eq!(cl.insert("a", "world"), Err(Error::TooLarge));
    assert_eq!(cl.insert("hello", "b"), Err(Error::TooLarge));
    assert!(cl.insert("a", "b").is_ok());
    assert_eq!(cl.insert("a", "b"), Err(Error::TooLarge));
    assert_eq!(cl.insert_str("a"), Err(Error::TooLarge));
    assert_eq!(cl.as_str(), "a=b");

    let mut cl = Cmdline::new(10);
    assert!(cl.insert("ab", "ba").is_ok()); // adds 5 length
    assert_eq!(cl.insert("c", "da"), Err(Error::TooLarge)); // adds 5 (including space) length
    assert!(cl.insert("c", "d").is_ok()); // adds 4 (including space) length
}

#[test]
fn insert_str_rejects_control_characters() {
    let mut cl = Cmdline::new(100);
    assert_eq!(cl.insert_str("tab\there"), Err(Error::InvalidAscii));
    assert!(cl.insert_str("a b=c").is_ok());
    assert_eq!(cl.as_str(), "a b=c");
}

#[test]
fn element_checks() {
    assert!(valid_char(' '));
    assert!(valid_char('~'));
    assert!(!valid_char('\u{7f}'));
    assert_eq!(valid_str("a b"), Ok(()));
    assert_eq!(valid_str("a\nb"), Err(Error::InvalidAscii));
    assert_eq!(valid_element("a b"), Err(Error::HasSpace));
    assert_eq!(valid_element("a=b"), Err(Error::HasEquals));
    assert_eq!(valid_element("ab"), Ok(()));
}

#[test]
fn line_stays_below_capacity() {
    let mut cl = Cmdline::new(7);
    assert!(cl.insert_str("abc").is_ok());
    assert_eq!(cl.insert_str("def"), Err(Error::TooLarge));
    assert!(cl.insert_str("de").is_ok());
    assert_eq!(cl.as_str(), "abc de");
    assert!(cl.as_str().len() < 7);
}
