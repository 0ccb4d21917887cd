use std::rc::Rc;
use ulc::character::{CharSpec, Character};
use ulc::parser::{self, CharParser, Match};
use ulc::tree::{Leaf, NodeExt};

#[test]
fn character_test_char_parser() {
    let a = Character::new(
        "RandomChars",
        vec![
            CharSpec::Singleton('H'),
            CharSpec::XRange('a', 'f'),
            CharSpec::Singleton('ز'),
            CharSpec::XRange('ا', 'ج'),
        ],
    );

    assert!(a.parse(&[]).is_err());
    assert!(a.parse(&['z']).is_err());
    assert!(a.parse(&['H']) == Ok(Leaf::new(Rc::new("RandomChars".to_string()), &['H'])));
    assert!(a.parse(&['b']) == Ok(Leaf::new(Rc::new("RandomChars".to_string()), &['b'])));
    assert!(a.parse(&['و']).is_err());
    assert!(a.parse(&['ز']) == Ok(Leaf::new(Rc::new("RandomChars".to_string()), &['ز'])));
    assert!(a.parse(&['ت']) == Ok(Leaf::new(Rc::new("RandomChars".to_string()), &['ت'])));
}

#[test]
fn text_test_char_parser() {
    let a = CharParser::new(
        "RandomChars",
        &[
            parser::CharSpec::Singleton('H'),
            parser::CharSpec::XRange('a', 'f'),
            parser::CharSpec::Singleton('ز'),
            parser::CharSpec::XRange('ا', 'ج'),
        ],
    );

    assert!(a.parse(&[]) == None);
    assert!(a.parse(&['z']) == None);
    assert!(a.parse(&['H']) == Some(Leaf::new(Rc::new("RandomChars".to_string()), &['H'])));
    assert!(a.parse(&['b']) == Some(Leaf::new(Rc::new("RandomChars".to_string()), &['b'])));
    assert!(a.parse(&['و']) == None);
    assert!(a.parse(&['ز']) == Some(Leaf::new(Rc::new("RandomChars".to_string()), &['ز'])));
    assert!(a.parse(&['ت']) == Some(Leaf::new(Rc::new("RandomChars".to_string()), &['ت'])));
}

#[test]
fn char_spec_bounds() {
    assert!(CharSpec::IRange('a', 'c').check('c'));
    assert!(!CharSpec::XRange('a', 'c').check('c'));
    assert!(CharSpec::XRange('a', 'c').check('a'));
    assert!(!CharSpec::Singleton('a').check('b'));
    let e = Character::new("digit", vec![CharSpec::IRange('0', '9')]).parse(&['x']).unwrap_err();
    assert_eq!(e.offset, 0);
    assert_eq!(*e.tag, "digit");
}

#[test]
fn match_parser() {
    let source: Vec<char> = "Cheesee1111sss!!!".chars().collect();
    let matcher = Match::new("some match", "Cheesee".chars().collect());
    let want: Vec<char> = "Cheesee".chars().collect();
    assert!(matcher.parse(&source).unwrap().slice() == &want[..]);
    assert!(matcher.parse(&source[2..]).is_err());
    assert!(Match::new("empty", vec![]).parse(&source).is_err());
    let z = Match::new("name token", "Name".chars().collect());
    let s: Vec<char> = "Name".chars().collect();
    assert!(z.parse(&s).is_ok());
}

#[test]
fn mismatch_names_the_character() {
    let e = Character::new("digit", vec![CharSpec::IRange('0', '9')]).parse(&['x']).unwrap_err();
    assert_eq!(e.desc, "'x' does not match character specification");
}
