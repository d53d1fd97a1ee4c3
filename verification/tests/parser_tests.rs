use scheme_parser::ast::{Op, ParseError, Prim, Procedure, SForm};
use scheme_parser::parser::{op, parse_procedure, primitive, procedure, procedure_body, specialform, string, user};

#[test]
fn string_parser() {
    let comp_string = String::from("hi");

    match string("hi") {
        Ok((_, s)) => assert_eq!(comp_string, s),
        _ => panic!("Failed to parse string"),
    }

    match string("   hi    ") {
        Ok((_, s)) => assert_eq!(comp_string, s),
        _ => panic!("Failed to parse string"),
    }

    match string("hi      ") {
        Ok((_, s)) => assert_eq!(comp_string, s),
        _ => panic!("Failed to parse string"),
    }

    match string("        hi") {
        Ok((_, s)) => assert_eq!(comp_string, s),
        _ => panic!("Failed to parse string"),
    }
}

#[test]
fn user_op_parser() {
    match user("userop") {
        Ok((_, s)) => assert_eq!(Op::User(String::from("userop")), s),
        _ => panic!("Failed to parse userop"),
    }
}

#[test]
fn specialform_op_parser() {
    match specialform("if") {
        Ok((_, a)) => assert_eq!(Op::SpecialForm(SForm::If), a),
        _ => panic!("Failed to parse special form"),
    }
    match specialform("begin") {
        Ok((_, a)) => assert_eq!(Op::SpecialForm(SForm::Begin), a),
        _ => panic!("Failed to parse special form"),
    }
    match specialform("define") {
        Ok((_, a)) => assert_eq!(Op::SpecialForm(SForm::Define), a),
        _ => panic!("Failed to parse special form"),
    }
    match specialform("lambda") {
        Ok((_, a)) => assert_eq!(Op::SpecialForm(SForm::Lambda), a),
        _ => panic!("Failed to parse special form"),
    }
    match specialform("let") {
        Ok((_, a)) => assert_eq!(Op::SpecialForm(SForm::Let), a),
        _ => panic!("Failed to parse special form"),
    }
}

#[test]
fn primitive_op_parser() {
    match primitive("+") {
        Ok((_, a)) => assert_eq!(Op::Primitive(Prim::Add), a),
        _ => panic!("Failed to parse primitive"),
    }
    match primitive("*") {
        Ok((_, a)) => assert_eq!(Op::Primitive(Prim::Mul), a),
        _ => panic!("Failed to parse primitive"),
    }
    match primitive("-") {
        Ok((_, a)) => assert_eq!(Op::Primitive(Prim::Sub), a),
        _ => panic!("Failed to parse primitive"),
    }
    match primitive("/") {
        Ok((_, a)) => assert_eq!(Op::Primitive(Prim::Div), a),
        _ => panic!("Failed to parse primitive"),
    }
}

#[test]
fn op_parser() {
    match op("  +   ") {
        Ok((_, a)) => assert_eq!(Op::Primitive(Prim::Add), a),
        _ => panic!("Failed to parse primitive"),
    }
    match op("   let   ") {
        Ok((_, a)) => assert_eq!(Op::SpecialForm(SForm::Let), a),
        _ => panic!("Failed to parse special form"),
    }
    match op("   myprocedure   ") {
        Ok((_, a)) => assert_eq!(Op::User(String::from("myprocedure")), a),
        _ => panic!("Failed to parse user op"),
    }
}

#[test]
fn procedure_test() {
    let procedure_num = Procedure {
        op: Op::Primitive(Prim::Add),
        args: vec!["1".to_string(), "2".to_string(), "3".to_string(), "4".to_string()],
    };

    let procedure_user = Procedure { op: Op::User(String::from("myprocedure")), args: Vec::new() };
    let proc = procedure("(+ 1    2    3  4)");

    match proc {
        Ok((_, a)) => assert_eq!(procedure_num, a),
        _ => panic!("Failed to parse primitive"),
    }

    let proc = procedure("(myprocedure)");

    match proc {
        Ok((_, a)) => assert_eq!(procedure_user, a),
        _ => panic!("Failed to parse primitive"),
    }
}

#[test]
fn add_roundtrip_whitespace_insensitive() {
    let expected = Procedure {
        op: Op::Primitive(Prim::Add),
        args: vec!["1".to_string(), "2".to_string(), "3".to_string(), "4".to_string()],
    };
    let tight = parse_procedure("(+ 1 2 3 4)").expect("parse failed");
    let spaced = parse_procedure("(+ 1    2    3  4)").expect("parse failed");
    assert_eq!(expected, tight);
    assert_eq!(tight, spaced);
}

#[test]
fn user_procedure_no_args() {
    let expected = Procedure { op: Op::User(String::from("myprocedure")), args: Vec::new() };
    assert_eq!(Ok(expected), parse_procedure("(myprocedure)"));
}

#[test]
fn keywords_classify_as_special_forms() {
    let cases = vec![
        ("(if a b)", SForm::If),
        ("(begin a)", SForm::Begin),
        ("(define x y)", SForm::Define),
        ("(lambda x)", SForm::Lambda),
        ("(let x y)", SForm::Let),
    ];
    for (text, form) in cases {
        let p = parse_procedure(text).expect("parse failed");
        assert_eq!(Op::SpecialForm(form), p.op);
    }
    match op("let") {
        Ok((_, a)) => {
            assert_ne!(Op::User(String::from("let")), a);
            assert_eq!(Op::SpecialForm(SForm::Let), a);
        }
        _ => panic!("Failed to parse keyword"),
    }
}

#[test]
fn keyword_extension_is_user_name() {
    match op("lettuce") {
        Ok((_, a)) => assert_eq!(Op::User(String::from("lettuce")), a),
        _ => panic!("Failed to parse user op"),
    }
    let p = parse_procedure("(lettuce 1)").expect("parse failed");
    assert_eq!(Op::User(String::from("lettuce")), p.op);
    let q = parse_procedure("(iffy)").expect("parse failed");
    assert_eq!(Op::User(String::from("iffy")), q.op);
}

#[test]
fn arguments_reparse_as_themselves() {
    let p = parse_procedure("(+ 12 abc x9)").expect("parse failed");
    assert_eq!(vec!["12".to_string(), "abc".to_string(), "x9".to_string()], p.args);
    for arg in &p.args {
        match string(arg) {
            Ok((rest, t)) => {
                assert_eq!(arg, &t);
                assert_eq!("", rest);
            }
            _ => panic!("Failed to reparse argument"),
        }
    }
}

#[test]
fn token_rest_keeps_interior_whitespace() {
    match string("hi world") {
        Ok((rest, t)) => {
            assert_eq!("hi", t);
            assert_eq!(" world", rest);
        }
        _ => panic!("Failed to parse string"),
    }
    match string("  hi   world  ") {
        Ok((rest, t)) => {
            assert_eq!("hi", t);
            assert_eq!("   world", rest);
        }
        _ => panic!("Failed to parse string"),
    }
    match string("hi    ") {
        Ok((rest, t)) => {
            assert_eq!("hi", t);
            assert_eq!("", rest);
        }
        _ => panic!("Failed to parse string"),
    }
    match op("  +   x ") {
        Ok((rest, a)) => {
            assert_eq!(Op::Primitive(Prim::Add), a);
            assert_eq!("   x", rest);
        }
        _ => panic!("Failed to parse primitive"),
    }
}

#[test]
fn unicode_whitespace_is_whitespace() {
    match string("\u{000b}hi\u{00a0}") {
        Ok((rest, t)) => {
            assert_eq!("hi", t);
            assert_eq!("", rest);
        }
        _ => panic!("Failed to parse string"),
    }
    let p = parse_procedure("(let\u{3000}x\u{2003}y)").expect("parse failed");
    assert_eq!(Op::SpecialForm(SForm::Let), p.op);
    assert_eq!(vec!["x".to_string(), "y".to_string()], p.args);
}

#[test]
fn whitespace_around_delimiters() {
    let p = parse_procedure("(  let   x   y  )").expect("parse failed");
    assert_eq!(Op::SpecialForm(SForm::Let), p.op);
    assert_eq!(vec!["x".to_string(), "y".to_string()], p.args);

    let q = parse_procedure("(+)").expect("parse failed");
    assert_eq!(Op::Primitive(Prim::Add), q.op);
    assert!(q.args.is_empty());
}

#[test]
fn procedure_leaves_trailing_text() {
    match procedure("(a b) tail") {
        Ok((rest, p)) => {
            assert_eq!(" tail", rest);
            assert_eq!(Op::User(String::from("a")), p.op);
        }
        _ => panic!("Failed to parse procedure"),
    }
}

#[test]
fn procedure_body_without_delimiters() {
    match procedure_body("f x y") {
        Ok((rest, p)) => {
            assert_eq!("", rest);
            assert_eq!(Op::User(String::from("f")), p.op);
            assert_eq!(vec!["x".to_string(), "y".to_string()], p.args);
        }
        _ => panic!("Failed to parse procedure body"),
    }
}

#[test]
fn missing_delimiter_errors() {
    assert_eq!(Err(ParseError::MissingDelimiter), parse_procedure("+ 1 2"));
    assert_eq!(Err(ParseError::MissingDelimiter), parse_procedure("(+ 1 2"));
    assert_eq!(Err(ParseError::MissingDelimiter), parse_procedure(""));
    assert_eq!(Err(ParseError::MissingDelimiter), parse_procedure("(f x ."));
}

#[test]
fn invalid_operator_errors() {
    assert_eq!(Err(ParseError::InvalidOperator), parse_procedure("()"));
    assert_eq!(Err(ParseError::InvalidOperator), parse_procedure("(%)"));
    match op("") {
        Err(e) => assert_eq!(ParseError::InvalidOperator, e),
        _ => panic!("Expected an operator failure"),
    }
    match specialform("lettuce") {
        Err(e) => assert_eq!(ParseError::InvalidOperator, e),
        _ => panic!("Expected a special-form failure"),
    }
}

#[test]
fn invalid_token_errors() {
    assert_eq!(Err(ParseError::InvalidToken), string("").map(|(_, t)| t));
    assert_eq!(Err(ParseError::InvalidToken), string("   ").map(|(_, t)| t));
    assert_eq!(Err(ParseError::InvalidToken), string("(").map(|(_, t)| t));
}
