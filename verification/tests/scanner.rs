use shellexpand::chars::{contains_char, to_chars};
use shellexpand::is_valid_var_name_char;
use shellexpand::scanner::{Pending, Scanner, Step};

fn reference(step: Step) -> Pending {
    match step {
        Step::Reference(pending) => pending,
        Step::Done(text) => panic!("no reference left, and the result is {:?}", text),
        Step::Unchanged => panic!("no reference left, and nothing replaced"),
    }
}

fn done(step: Step) -> String {
    match step {
        Step::Done(text) => text,
        Step::Reference(pending) => panic!("a reference to {:?}", pending.wanted()),
        Step::Unchanged => panic!("nothing replaced"),
    }
}

fn unchanged(step: Step) -> bool {
    matches!(step, Step::Unchanged)
}

#[test]
fn name_characters() {
    assert!(is_valid_var_name_char('_'));
    assert!(is_valid_var_name_char('a'));
    assert!(is_valid_var_name_char('Z'));
    assert!(is_valid_var_name_char('0'));
    assert!(is_valid_var_name_char('é'));
    assert!(is_valid_var_name_char('九'));
    assert!(!is_valid_var_name_char('$'));
    assert!(!is_valid_var_name_char('{'));
    assert!(!is_valid_var_name_char('}'));
    assert!(!is_valid_var_name_char('-'));
    assert!(!is_valid_var_name_char('/'));
    assert!(!is_valid_var_name_char(' '));
    assert!(!is_valid_var_name_char('~'));
}

#[test]
fn name_characters_within_ascii() {
    for code in 0u8..128 {
        let c = char::from(code);
        let expected = c == '_' || c.is_ascii_alphabetic() || c.is_ascii_digit();
        assert_eq!(is_valid_var_name_char(c), expected, "for {:?}", c);
    }
}

#[test]
fn name_characters_beyond_ascii() {
    assert!(is_valid_var_name_char('ß'));
    assert!(is_valid_var_name_char('Ω'));
    assert!(is_valid_var_name_char('٣'));
    assert!(is_valid_var_name_char('¾'));
    assert!(!is_valid_var_name_char('€'));
    assert!(!is_valid_var_name_char('—'));
    assert!(!is_valid_var_name_char('\u{a0}'));
    assert!(!is_valid_var_name_char('💝'));
}

#[test]
fn characters_of_a_text() {
    assert_eq!(to_chars(""), Vec::<char>::new());
    assert_eq!(to_chars("a$é九"), vec!['a', '$', 'é', '九']);
    assert!(contains_char("a$b", '$'));
    assert!(contains_char("$", '$'));
    assert!(!contains_char("", '$'));
    assert!(!contains_char("abc", '$'));
    assert!(contains_char("é九", '九'));
}

#[test]
fn scanner_hands_out_each_reference() {
    let first = reference(Scanner::new("a $X b ${Y} $$ $").next_reference());
    assert_eq!(first.wanted(), "X");
    let second = reference(first.resolve(Some("1".to_string())).next_reference());
    assert_eq!(second.wanted(), "Y");
    let text = done(second.resolve(None).next_reference());
    assert_eq!(text, "a 1 b ${Y} $ $");
}

#[test]
fn scanner_without_references() {
    assert_eq!(done(Scanner::new("plain ${ $- $$").next_reference()), "plain ${ $- $");
    assert!(unchanged(Scanner::new("").next_reference()));
    assert!(unchanged(Scanner::new("plain ${ $- $").next_reference()));
}

#[test]
fn scanner_keeps_an_unresolved_reference_as_written() {
    let a = reference(Scanner::new("${a}$b").next_reference());
    assert_eq!(a.wanted(), "a");
    let b = reference(a.resolve(None).next_reference());
    assert_eq!(b.wanted(), "b");
    assert!(unchanged(b.resolve(None).next_reference()));
    let a = reference(Scanner::new("${a}$b$$").next_reference());
    let b = reference(a.resolve(None).next_reference());
    assert_eq!(done(b.resolve(None).next_reference()), "${a}$b$");
    let a = reference(Scanner::new("x${a}$b").next_reference());
    let b = reference(a.resolve(None).next_reference());
    assert_eq!(done(b.resolve(Some("${a}".to_string())).next_reference()), "x${a}${a}");
}

#[test]
fn scanner_given_up() {
    let a = reference(Scanner::new("x${a b}").next_reference());
    assert_eq!(a.into_name(), "a b");
}
