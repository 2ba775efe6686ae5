use stickyimmix::error::{err_parser_wpos, ErrorKind, RuntimeError, SourcePos};

fn expected(error: &RuntimeError, source: &str) -> Vec<String> {
    let mut out = Vec::new();
    if let Some(pos) = error.error_pos() {
        let mut iter = source.lines().enumerate();
        while let Some((count, line)) = iter.next() {
            if count + 1 == pos.line as usize {
                out.push(format!("error: {}", error.message()));
                out.push(format!("{:5}|{}", pos.line, line));
                out.push(format!("{:5}|{:width$}^", " ", " ", width = pos.column as usize));
                out.push(format!("{:5}|", " "));
                return out;
            }
        }
    } else {
        out.push(format!("error: {}", error.message()));
    }
    out
}

#[test]
fn report_without_position_is_the_message() {
    let error = RuntimeError::new(ErrorKind::KeyError);
    assert_eq!(
        error.print_with_source("(a b)"),
        vec![String::from("error: Key does not exist in Dict")]
    );
    assert_eq!(error.print_with_source(""), expected(&error, ""));
}

#[test]
fn report_shows_the_line_and_marks_the_column() {
    let error = err_parser_wpos(SourcePos::new(2, 3), "Unmatched parentheses");
    let source = "(a b\n(c d))\n(e)";
    assert_eq!(
        error.print_with_source(source),
        vec![
            String::from("error: Parse error: Unmatched parentheses"),
            String::from("    2|(c d))"),
            String::from("     |   ^"),
            String::from("     |"),
        ]
    );
    assert_eq!(error.print_with_source(source), expected(&error, source));
}

#[test]
fn report_agrees_with_the_formatting_of_the_standard_library() {
    let sources = [
        "",
        "\n",
        "a",
        "a\n",
        "a\nb",
        "a\r\nb\r\n",
        "a\r",
        "a\n\nb\n",
        "\r\n\r\nx",
        "one\ntwo\nthree\nfour\nfive",
        "\u{e9}t\u{e9}\n\u{4e16}\u{754c}\r\nend",
    ];
    for source in sources {
        for line in 0..8u32 {
            for column in [0u32, 1, 2, 7, 40] {
                let error = err_parser_wpos(SourcePos::new(line, column), "bad");
                assert_eq!(error.print_with_source(source), expected(&error, source));
            }
        }
    }
    let far = err_parser_wpos(SourcePos::new(123456, 0), "bad");
    assert!(far.print_with_source("a\nb").is_empty());
    let mut long = String::new();
    for _ in 0..100000 {
        long.push('\n');
    }
    long.push_str("here");
    let error = err_parser_wpos(SourcePos::new(100001, 2), "bad");
    assert_eq!(error.print_with_source(&long), expected(&error, &long));
    assert_eq!(error.print_with_source(&long)[1], "100001|here");
}
