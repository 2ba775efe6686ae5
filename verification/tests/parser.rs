use stickyimmix::error::{spos, ErrorKind, RuntimeError};
use stickyimmix::memory::{Memory, Mutator, MutatorView};
use stickyimmix::parser::parse;
use stickyimmix::printer::{debug, print};

fn check(input: &str, expect: &str) {
    let mut mem = Memory::new();

    struct Test<'a> {
        input: &'a str,
        expect: &'a str,
    }

    impl<'a> Mutator for Test<'a> {
        type Input = ();
        type Output = ();

        fn run(&self, mem: &mut MutatorView, _: Self::Input) -> Result<Self::Output, RuntimeError> {
            let ast = parse(mem, self.input)?;
            println!(
                "expect: {}\ngot:    {}\ndebug:  {}",
                &self.expect,
                print(mem, ast.value()),
                debug(mem, ast.value())
            );
            assert!(print(mem, ast.value()) == self.expect);

            Ok(())
        }
    }

    let test = Test {
        input: input,
        expect: expect,
    };
    mem.mutate(&test, ()).unwrap();
}

fn parse_error(input: &str) -> RuntimeError {
    let mut mem = Memory::new();

    struct Test<'a> {
        input: &'a str,
    }

    impl<'a> Mutator for Test<'a> {
        type Input = ();
        type Output = ();

        fn run(&self, mem: &mut MutatorView, _: Self::Input) -> Result<Self::Output, RuntimeError> {
            parse(mem, self.input).map(|_| ())
        }
    }

    let test = Test { input: input };
    mem.mutate(&test, ()).unwrap_err()
}

fn check_debug(input: &str, expect: &str) {
    let mut mem = Memory::new();

    struct Test<'a> {
        input: &'a str,
        expect: &'a str,
    }

    impl<'a> Mutator for Test<'a> {
        type Input = ();
        type Output = ();

        fn run(&self, mem: &mut MutatorView, _: Self::Input) -> Result<Self::Output, RuntimeError> {
            let ast = parse(mem, self.input)?;
            assert_eq!(debug(mem, ast.value()), self.expect);
            Ok(())
        }
    }

    let test = Test {
        input: input,
        expect: expect,
    };
    mem.mutate(&test, ()).unwrap();
}

#[test]
fn parse_empty_list() {
    let input = String::from("()");
    let expect = String::from("nil");
    check(&input, &expect);
}

#[test]
fn parse_nil() {
    let input = String::from("(a . nil)");
    let expect = String::from("(a)");
    check(&input, &expect);
}

#[test]
fn parse_symbol() {
    let input = String::from("a");
    let expect = input.clone();
    check(&input, &expect);
}

#[test]
fn parse_list() {
    let input = String::from("(a)");
    let expect = input.clone();
    check(&input, &expect);
}

#[test]
fn parse_list_nested1() {
    let input = String::from("((a))");
    let expect = input.clone();
    check(&input, &expect);
}

#[test]
fn parse_list_nested2() {
    let input = String::from("(a (b c) d)");
    let expect = input.clone();
    check(&input, &expect);
}

#[test]
fn parse_list_nested3() {
    let input = String::from("(a b (c (d)))");
    let expect = input.clone();
    check(&input, &expect);
}

#[test]
fn parse_longer_list() {
    let input = String::from("(a b c)");
    let expect = input.clone();
    check(&input, &expect);
}

#[test]
fn parse_dot_notation() {
    let input = String::from("(a . b)");
    let expect = input.clone();
    check(&input, &expect);
}

#[test]
fn parse_dot_notation_longer() {
    let input = String::from("((a . b) . (c . d))");
    let expect = String::from("((a . b) c . d)");
    check(&input, &expect);
}

#[test]
fn parse_dot_notation_with_nil() {
    let input = String::from("(a . ())");
    let expect = String::from("(a)");
    check(&input, &expect);
}

#[test]
fn parse_nothing_is_nil() {
    check("", "nil");
    check("   \n ", "nil");
    check("nil", "nil");
}

#[test]
fn parse_quote_is_a_list_of_quote_and_the_expression() {
    check("'a", "(quote a)");
    check("'(a b)", "(quote (a b))");
    check("(a 'b)", "(a (quote b))");
}

#[test]
fn parse_text_is_printed_between_quotes() {
    check("\"some text\"", "\"some text\"");
    check("(a \"b c\" d)", "(a \"b c\" d)");
    check("\"\"", "\"\"");
}

#[test]
fn parse_looks_at_the_first_expression_only() {
    check("a b c", "a");
    check("(a) )", "(a)");
}

#[test]
fn parse_debug_prints_dot_notation() {
    check_debug("(a b)", "(a . (b . nil))");
    check_debug("(a . b)", "(a . b)");
    check_debug("a", "a");
}

#[test]
fn parse_refuses_a_dot_where_an_expression_begins() {
    let e = parse_error(".");
    assert_eq!(e.error_pos(), Some(spos(1, 0)));
    assert_eq!(
        *e.error_kind(),
        ErrorKind::ParseError(String::from("Invalid symbol '.'"))
    );
}

#[test]
fn parse_refuses_an_unmatched_close_parenthesis() {
    let e = parse_error(" )");
    assert_eq!(e.error_pos(), Some(spos(1, 1)));
    assert_eq!(
        *e.error_kind(),
        ErrorKind::ParseError(String::from("Unmatched close parenthesis"))
    );
}

#[test]
fn parse_refuses_a_dot_after_an_open_parenthesis() {
    let e = parse_error("(. a)");
    assert_eq!(e.error_pos(), Some(spos(1, 1)));
    assert_eq!(
        *e.error_kind(),
        ErrorKind::ParseError(String::from("Unexpected '.' dot after open-parenthesis"))
    );
}

#[test]
fn parse_refuses_more_than_one_expression_behind_a_dot() {
    let e = parse_error("(a . b c)");
    assert_eq!(e.error_pos(), Some(spos(1, 7)));
    assert_eq!(
        *e.error_kind(),
        ErrorKind::ParseError(String::from(
            "Dotted pair must be closed by a ')' close-parenthesis"
        ))
    );
}

#[test]
fn parse_refuses_a_list_that_is_not_closed() {
    for input in ["(a b", "(", "(a .", "(a . b"] {
        let e = parse_error(input);
        assert_eq!(e.error_pos(), None);
        assert_eq!(
            *e.error_kind(),
            ErrorKind::ParseError(String::from("Unexpected end of code stream"))
        );
        assert_eq!(e.message(), "Parse error: Unexpected end of code stream");
    }
}

#[test]
fn parse_hands_on_the_refusal_of_the_lexer() {
    let e = parse_error("(a\n\tb)");
    assert_eq!(e.error_pos(), Some(spos(2, 0)));
    assert_eq!(
        *e.error_kind(),
        ErrorKind::LexerError(String::from("tabs are not valid whitespace"))
    );
}
