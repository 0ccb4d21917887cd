use ulc::character::{CharSpec, Character};
use ulc::parser::{And, Match, Or, Perhaps, Repeat, Rule};
use ulc::tree::NodeExt;

fn alpha_atom() -> Rule {
    Rule::Char(Character::new("alpha", vec![CharSpec::IRange('a', 'z'), CharSpec::IRange('A', 'Z')]))
}

fn num_atom() -> Rule {
    Rule::Char(Character::new("num", vec![CharSpec::IRange('0', '9')]))
}

fn sym_atom() -> Rule {
    Rule::Char(Character::new("sym", vec![CharSpec::Singleton('!')]))
}

fn alpha_rep() -> Rule {
    Repeat::new("alpha*", alpha_atom(), 0, None)
}

fn alpha_plus() -> Rule {
    Repeat::new("alpha+", alpha_atom(), 1, None)
}

fn num_rep() -> Rule {
    Repeat::new("num*", num_atom(), 0, None)
}

fn num_plus() -> Rule {
    Repeat::new("num+", num_atom(), 1, None)
}

fn sym_rep() -> Rule {
    Repeat::new("sym*", sym_atom(), 0, None)
}

fn sym_plus() -> Rule {
    Repeat::new("sym+", sym_atom(), 1, None)
}

fn chars(s: &str) -> Vec<char> {
    s.chars().collect()
}

#[test]
fn character_test_complex() {
    let source: Vec<char> = "Cheesee1111sss!!!".chars().collect();

    {
        let matcher = Rule::Match(Match::new("some match", chars("Cheesee")));
        assert!(matcher.parse(&source).unwrap().slice() == &chars("Cheesee")[..]);
        assert!(matcher.parse(&source[2..]).is_err());
    }

    {
        let alphanumblock = Or::new("alphanumblock", vec![alpha_plus(), num_plus()]);
        let matcher = Repeat::new("alphanumblock*", alphanumblock, 0, None);
        let m = matcher.parse(&source).unwrap();
        assert!(m.slice() == &chars("Cheesee1111sss")[..]);
        assert!(m.get_node("alpha+").unwrap().slice() == &chars("Cheesee")[..]);
        assert!(m.get_node("num+").unwrap().slice() == &chars("1111")[..]);
    }

    let seq = And::new("alpha* num* alpha* sym*", vec![alpha_rep(), num_rep(), alpha_rep(), sym_rep()]);
    assert!(seq.parse(&source).unwrap().slice() == &source[..]);

    let seq = And::new("alpha* num*", vec![alpha_rep(), num_rep()]);
    assert!(seq.parse(&source).unwrap().slice() == &chars("Cheesee1111")[..]);

    let seq = And::new("alpha* sym+", vec![alpha_rep(), sym_plus()]);
    match seq.parse(&source) {
        Err(x) => assert!(x.offset == 7),
        _ => panic!("should not succeed"),
    };

    let maybe_alpha = Perhaps::new("[alpha*]", alpha_rep());
    let seq_imp = And::new("[alpha*] num* alpha*", vec![maybe_alpha, num_rep(), alpha_rep()]);
    assert!(seq_imp.parse(&source).unwrap().slice() == &chars("Cheesee1111sss")[..]);
    assert!(seq_imp.parse(&source[7..]).unwrap().slice() == &chars("1111sss")[..]);
    assert!(seq_imp.parse(&source[..10]).unwrap().slice() == &chars("Cheesee111")[..]);
}

#[test]
fn or() {
    let n = Rule::Match(Match::new("name token", chars("Name")));
    let a = Rule::Match(Match::new("age token", chars("Age")));
    let s: Vec<char> = "Age hehe".chars().collect();
    let p = Or::new("age or name", vec![n, a]);
    assert!(p.parse(&s).unwrap().slice() == &chars("Age")[..]);
}

#[test]
fn repeat_bounds() {
    let s = chars("aaa");
    assert!(Repeat::new("a{0,3}", alpha_atom(), 0, Some(3)).parse(&s).is_err());
    assert_eq!(Repeat::new("a{0,4}", alpha_atom(), 0, Some(4)).parse(&s).unwrap().len(), 3);
    assert!(Repeat::new("a{4,}", alpha_atom(), 4, None).parse(&s).is_err());
    assert_eq!(Repeat::new("a*", alpha_atom(), 0, None).parse(&chars("")).unwrap().len(), 0);
    assert!(And::new("empty", vec![alpha_rep()]).parse(&chars("1")).is_err());
    assert_eq!(Perhaps::new("opt", num_plus()).parse(&s).unwrap().len(), 0);
    assert!(Or::new("none", vec![]).parse(&s).is_err());
}

#[test]
fn match_() {
    let z = Rule::Match(Match::new("name token", chars("Name")));
    let s: Vec<char> = "Name".chars().collect();
    assert!(z.parse(&s).is_ok());
}

#[test]
fn match_empty_string() {
    let m = Match::new("empty", vec![]);
    assert!(m.parse(&chars("")).is_err());
    let m = Match::new("non-empty", vec![]);
    assert!(m.parse(&chars("x")).is_err());
}
