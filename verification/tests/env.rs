use shellexpand::{env_with_context, env_with_context_no_errors, LookupError};
use std::borrow::Cow;

fn failure(name: &str) -> Result<Cow<'static, str>, LookupError<()>> {
    Err(LookupError { name: name.into(), cause: () })
}

#[test]
fn test_empty_env() {
    fn e(_: &str) -> Result<Option<String>, ()> {
        Ok(None)
    }

    assert_eq!(env_with_context("whatever/path", e).unwrap(), "whatever/path");
    assert_eq!(env_with_context("$VAR/whatever/path", e).unwrap(), "$VAR/whatever/path");
    assert_eq!(env_with_context("whatever/$VAR/path", e).unwrap(), "whatever/$VAR/path");
    assert_eq!(env_with_context("whatever/path/$VAR", e).unwrap(), "whatever/path/$VAR");
    assert_eq!(env_with_context("${VAR}/whatever/path", e).unwrap(), "${VAR}/whatever/path");
    assert_eq!(env_with_context("whatever/${VAR}path", e).unwrap(), "whatever/${VAR}path");
    assert_eq!(env_with_context("whatever/path/${VAR}", e).unwrap(), "whatever/path/${VAR}");
    assert_eq!(env_with_context("${}/whatever/path", e).unwrap(), "${}/whatever/path");
    assert_eq!(env_with_context("whatever/${}path", e).unwrap(), "whatever/${}path");
    assert_eq!(env_with_context("whatever/path/${}", e).unwrap(), "whatever/path/${}");
    assert_eq!(env_with_context("$/whatever/path", e).unwrap(), "$/whatever/path");
    assert_eq!(env_with_context("whatever/$path", e).unwrap(), "whatever/$path");
    assert_eq!(env_with_context("whatever/path/$", e).unwrap(), "whatever/path/$");
    assert_eq!(env_with_context("$$/whatever/path", e).unwrap(), "$/whatever/path");
    assert_eq!(env_with_context("whatever/$$path", e).unwrap(), "whatever/$path");
    assert_eq!(env_with_context("whatever/path/$$", e).unwrap(), "whatever/path/$");
    assert_eq!(env_with_context("$A$B$C", e).unwrap(), "$A$B$C");
    assert_eq!(env_with_context("$A_B_C", e).unwrap(), "$A_B_C");
}

#[test]
fn test_error_env() {
    fn e(_: &str) -> Result<Option<String>, ()> {
        Err(())
    }

    assert_eq!(env_with_context("whatever/path", e).unwrap(), "whatever/path");
    // check that escaped $ does nothing
    assert_eq!(env_with_context("whatever/$/path", e).unwrap(), "whatever/$/path");
    assert_eq!(env_with_context("whatever/path$", e).unwrap(), "whatever/path$");
    assert_eq!(env_with_context("whatever/$$path", e).unwrap(), "whatever/$path");

    assert_eq!(env_with_context("$VAR/something", e), failure("VAR"));
    assert_eq!(env_with_context("${VAR}/something", e), failure("VAR"));
    assert_eq!(env_with_context("whatever/${VAR}/something", e), failure("VAR"));
    assert_eq!(env_with_context("whatever/${VAR}", e), failure("VAR"));
    assert_eq!(env_with_context("whatever/$VAR/something", e), failure("VAR"));
    assert_eq!(env_with_context("whatever/$VARsomething", e), failure("VARsomething"));
    assert_eq!(env_with_context("whatever/$VAR", e), failure("VAR"));
    assert_eq!(env_with_context("whatever/$VAR_VAR_VAR", e), failure("VAR_VAR_VAR"));
}

fn regular(s: &str) -> Result<Option<String>, ()> {
    match s {
        "VAR" => Ok(Some("value".to_string())),
        "a_b" => Ok(Some("X_Y".to_string())),
        "EMPTY" => Ok(Some("".to_string())),
        "ERR" => Err(()),
        _ => Ok(None),
    }
}

#[test]
fn test_regular_env() {
    let e = regular;

    // no variables
    assert_eq!(env_with_context("whatever/path", e).unwrap(), "whatever/path");

    // empty string
    assert_eq!(env_with_context("", e).unwrap(), "");

    // existing variable without braces in various positions
    assert_eq!(env_with_context("$VAR/whatever/path", e).unwrap(), "value/whatever/path");
    assert_eq!(env_with_context("whatever/$VAR/path", e).unwrap(), "whatever/value/path");
    assert_eq!(env_with_context("whatever/path/$VAR", e).unwrap(), "whatever/path/value");
    assert_eq!(env_with_context("whatever/$VARpath", e).unwrap(), "whatever/$VARpath");
    assert_eq!(env_with_context("$VAR$VAR/whatever", e).unwrap(), "valuevalue/whatever");
    assert_eq!(env_with_context("/whatever$VAR$VAR", e).unwrap(), "/whatevervaluevalue");
    assert_eq!(env_with_context("$VAR $VAR", e).unwrap(), "value value");
    assert_eq!(env_with_context("$a_b", e).unwrap(), "X_Y");
    assert_eq!(env_with_context("$a_b$VAR", e).unwrap(), "X_Yvalue");

    // existing variable with braces in various positions
    assert_eq!(env_with_context("${VAR}/whatever/path", e).unwrap(), "value/whatever/path");
    assert_eq!(env_with_context("whatever/${VAR}/path", e).unwrap(), "whatever/value/path");
    assert_eq!(env_with_context("whatever/path/${VAR}", e).unwrap(), "whatever/path/value");
    assert_eq!(env_with_context("whatever/${VAR}path", e).unwrap(), "whatever/valuepath");
    assert_eq!(env_with_context("${VAR}${VAR}/whatever", e).unwrap(), "valuevalue/whatever");
    assert_eq!(env_with_context("/whatever${VAR}${VAR}", e).unwrap(), "/whatevervaluevalue");
    assert_eq!(env_with_context("${VAR} ${VAR}", e).unwrap(), "value value");
    assert_eq!(env_with_context("${VAR}$VAR", e).unwrap(), "valuevalue");

    // empty variable in various positions
    assert_eq!(env_with_context("${EMPTY}/whatever/path", e).unwrap(), "/whatever/path");
    assert_eq!(env_with_context("whatever/${EMPTY}/path", e).unwrap(), "whatever//path");
    assert_eq!(env_with_context("whatever/path/${EMPTY}", e).unwrap(), "whatever/path/");

    assert_eq!(env_with_context("$ERR", e), failure("ERR"));
    assert_eq!(env_with_context("${ERR}", e), failure("ERR"));
}

#[test]
fn escaped_dollar() {
    assert_eq!(env_with_context("$$", regular).unwrap(), "$");
    assert_eq!(env_with_context("a$$b", regular).unwrap(), "a$b");
    assert_eq!(env_with_context("$$VAR", regular).unwrap(), "$VAR");
    assert_eq!(env_with_context("$$$VAR", regular).unwrap(), "$value");
    assert_eq!(env_with_context("$$$$", regular).unwrap(), "$$");
    assert_eq!(env_with_context("$$$", regular).unwrap(), "$$");
    assert_eq!(env_with_context("$${VAR}", regular).unwrap(), "${VAR}");
    assert_eq!(env_with_context_no_errors("a$$b", |_| Some("x".to_string())), "a$b");
    fn failing(_: &str) -> Result<Option<String>, ()> {
        Err(())
    }
    assert_eq!(env_with_context("$$", failing).unwrap(), "$");
    assert_eq!(env_with_context("a$$b", failing).unwrap(), "a$b");
}

#[test]
fn unknown_variable_stays() {
    let unknown = |name: &str| -> Result<Option<String>, ()> {
        if name == "X" { Ok(None) } else { Ok(Some("other".to_string())) }
    };
    assert_eq!(env_with_context("$X", unknown).unwrap(), "$X");
    assert_eq!(env_with_context("${X}", unknown).unwrap(), "${X}");
    assert_eq!(env_with_context("$X$Y${X}", unknown).unwrap(), "$Xother${X}");
    assert_eq!(env_with_context_no_errors("$A $B", |_| None), "$A $B");
}

#[test]
fn malformed_brace() {
    fn never(_: &str) -> Result<Option<String>, ()> {
        panic!("a variable was looked up")
    }
    assert_eq!(env_with_context("${VAR", never).unwrap(), "${VAR");
    assert_eq!(env_with_context("a${", never).unwrap(), "a${");
    assert_eq!(env_with_context("${${${", never).unwrap(), "${${${");
    assert_eq!(env_with_context("${$VAR", regular).unwrap(), "${value");
    assert_eq!(env_with_context("${VAR}${VAR", regular).unwrap(), "value${VAR");
    assert_eq!(env_with_context("${a$VAR${b", regular).unwrap(), "${avalue${b");
    assert_eq!(env_with_context("${a $VAR ${b", regular).unwrap(), "${a value ${b");
}

#[test]
fn braced_name_is_taken_as_written() {
    let mut asked: Vec<String> = Vec::new();
    let text = env_with_context_no_errors("${}|${a b}|${$x}|${{y}}|$_1|$é|$-", |name| {
        asked.push(name.to_string());
        Some(format!("<{}>", name))
    });
    assert_eq!(text, "<>|<a b>|<$x>|<{y>}|<_1>|<é>|$-");
    assert_eq!(asked, vec!["", "a b", "$x", "{y", "_1", "é"]);
}

#[test]
fn names_end_at_the_first_other_character() {
    let show = |name: &str| Some(format!("[{}]", name));
    assert_eq!(env_with_context_no_errors("$ab.cd", show), "[ab].cd");
    assert_eq!(env_with_context_no_errors("$ab$cd", show), "[ab][cd]");
    assert_eq!(env_with_context_no_errors("$ab{cd}", show), "[ab]{cd}");
    assert_eq!(env_with_context_no_errors("$a1_Bç九/x", show), "[a1_Bç九]/x");
    assert_eq!(env_with_context_no_errors("$1", show), "[1]");
    assert_eq!(env_with_context_no_errors("$ $\t$~", show), "$ $\t$~");
    assert_eq!(env_with_context_no_errors("$", show), "$");
    assert_eq!(env_with_context_no_errors("x$", show), "x$");
}

#[test]
fn values_are_not_scanned_again() {
    let nested = |name: &str| match name {
        "A" => Some("$B".to_string()),
        "B" => Some("b".to_string()),
        "D" => Some("$$".to_string()),
        _ => None,
    };
    assert_eq!(env_with_context_no_errors("$A ${A} $B $D", nested), "$B $B b $$");
}

#[test]
fn lookups_run_from_left_to_right() {
    let mut count = 0;
    let text = env_with_context_no_errors("$x ${x} $$ $x $", |_| {
        count += 1;
        Some(count.to_string())
    });
    assert_eq!(text, "1 2 $ 3 $");
    assert_eq!(count, 3);
}

#[test]
fn first_failure_ends_the_scan() {
    let mut asked: Vec<String> = Vec::new();
    let r = env_with_context("$A ${B} $C $D", |name| {
        asked.push(name.to_string());
        if name == "B" || name == "D" { Err(name.len() + 41) } else { Ok(Some("v".to_string())) }
    });
    assert_eq!(r, Err(LookupError { name: "B".to_string(), cause: 42 }));
    assert_eq!(asked, vec!["A", "B"]);
}

#[test]
fn failure_carries_the_cause() {
    let r = env_with_context("a $X b", |_| Err::<Option<String>, &str>("no such thing"));
    let e = r.unwrap_err();
    assert_eq!(e.name, "X");
    assert_eq!(e.cause, "no such thing");
    assert_eq!(e.message(e.cause), "error looking key 'X' up: no such thing");
    assert_eq!(e.clone(), e);
}

#[test]
fn text_without_dollar_is_borrowed() {
    let input = String::from("some/~/path {x} é");
    match env_with_context(&input, regular) {
        Ok(Cow::Borrowed(text)) => assert!(std::ptr::eq(text, input.as_str())),
        _ => panic!("copied"),
    }
    match env_with_context_no_errors(&input, |_| None) {
        Cow::Borrowed(text) => assert!(std::ptr::eq(text, input.as_str())),
        Cow::Owned(_) => panic!("copied"),
    }
    assert!(matches!(env_with_context("", regular), Ok(Cow::Borrowed(""))));
}

#[test]
fn text_in_which_nothing_is_replaced_is_borrowed() {
    for text in ["whatever/path/$", "$X", "${X}", "a$", "${", "$ ${ $- ${X} $X", "${}"] {
        let input = String::from(text);
        match env_with_context_no_errors(&input, |_| None) {
            Cow::Borrowed(same) => assert!(std::ptr::eq(same, input.as_str())),
            Cow::Owned(_) => panic!("{:?} was copied", text),
        }
        match env_with_context(&input, |_| Ok::<Option<String>, ()>(None)) {
            Ok(Cow::Borrowed(same)) => assert!(std::ptr::eq(same, input.as_str())),
            _ => panic!("{:?} was copied", text),
        }
    }
    assert!(matches!(env_with_context("$X/$VAR", |_| Ok::<_, ()>(None)), Ok(Cow::Borrowed("$X/$VAR"))));
    assert!(matches!(env_with_context("a$", regular), Ok(Cow::Borrowed("a$"))));
    assert!(matches!(env_with_context("$X ${X}", regular), Ok(Cow::Borrowed("$X ${X}"))));
}

#[test]
fn text_in_which_something_is_replaced_is_owned() {
    assert!(matches!(env_with_context("$VAR", regular), Ok(Cow::Owned(_))));
    assert!(matches!(env_with_context("$X$VAR", regular), Ok(Cow::Owned(_))));
    assert!(matches!(env_with_context("$VAR$X", regular), Ok(Cow::Owned(_))));
    assert!(matches!(env_with_context("${EMPTY}", regular), Ok(Cow::Owned(_))));
    assert!(matches!(env_with_context("$$", regular), Ok(Cow::Owned(_))));
    assert!(matches!(env_with_context("a$$b", regular), Ok(Cow::Owned(_))));
    assert!(matches!(env_with_context_no_errors("${X}$$", |_| None), Cow::Owned(_)));
    // a value that reads like the reference is a value all the same
    let echo = env_with_context_no_errors("a $X", |name| Some(format!("${}", name)));
    assert_eq!(echo, "a $X");
    assert!(matches!(echo, Cow::Owned(_)));
}

#[test]
fn text_is_copied_from_the_first_replacement_on() {
    assert_eq!(env_with_context("ab $X ${ $ $$ cd $X $", regular).unwrap(), "ab $X ${ $ $ cd $X $");
    assert_eq!(env_with_context("ab $X ${Y} $VAR cd $X", regular).unwrap(), "ab $X ${Y} value cd $X");
    assert_eq!(env_with_context("${X}${EMPTY}${X}", regular).unwrap(), "${X}${X}");
    assert_eq!(env_with_context("é$X九$VAR", regular).unwrap(), "é$X九value");
}

#[test]
fn no_op_twice() {
    let input = "some/path";
    let once = env_with_context(input, regular).unwrap();
    let twice = env_with_context(&once, regular).unwrap();
    assert_eq!(once, "some/path");
    assert_eq!(twice, "some/path");
    assert_eq!(env_with_context(input, regular), env_with_context(input, regular));
}
