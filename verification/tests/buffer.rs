use cute_lib::expression::{Expression, Number};
use cute_lib::token::{Token, TokenKind};
use cute_lib::utils::strip_carriage_return;
use cute_lib::{convert_strings_to_expressions, Buffer};

#[test]
fn buffer_push() {
    let mut buffer = Buffer::new();
    buffer.push("1 + 3\n3 * 3\n");

    assert_eq!(buffer.0, vec!["1 + 3", "3 * 3"]);
}

#[test]
fn buffer_starts_empty_and_grows() {
    let mut buffer = Buffer::new();
    assert_eq!(buffer.0, Vec::<String>::new());
    buffer.push("");
    assert_eq!(buffer.0, Vec::<String>::new());
    buffer.push("a");
    buffer.push("b\nc");
    assert_eq!(buffer.0, vec!["a", "b", "c"]);
}

#[test]
fn buffer_push_splits_as_std_lines_does() {
    let texts = [
        "",
        "\n",
        "\n\n",
        "a",
        "a\n",
        "a\nb",
        "a\r\nb\r\n",
        "a\r",
        "a\r\r\n",
        "\r\n",
        "\r",
        "a\n\nb\n",
        "é\r\n\u{2028}x\n ",
        "1 + 3\r\n3 * 3",
    ];
    for text in texts {
        let mut buffer = Buffer::new();
        buffer.push(text);
        let expected: Vec<String> = text.lines().map(|line| line.to_string()).collect();
        assert_eq!(buffer.0, expected, "text {text:?}");
    }
}

#[test]
fn strip_carriage_return_takes_one_off() {
    assert_eq!(strip_carriage_return("a\r"), "a");
    assert_eq!(strip_carriage_return("a\r\r"), "a\r");
    assert_eq!(strip_carriage_return("\ra"), "\ra");
    assert_eq!(strip_carriage_return(""), "");
}

#[test]
fn each_line_gives_an_expression() {
    let mut buffer = Buffer::new();
    buffer.push("1 + 3\n 30*2 and more\n");
    assert_eq!(
        convert_strings_to_expressions(buffer),
        vec![
            Expression::binary(
                Expression::Number(Number(1)),
                Token::new(TokenKind::Plus, "+"),
                Expression::Number(Number(3))
            ),
            Expression::binary(
                Expression::Number(Number(30)),
                Token::new(TokenKind::Mul, "*"),
                Expression::Number(Number(2))
            ),
        ]
    );
    assert_eq!(convert_strings_to_expressions(Buffer::new()), vec![]);
}
