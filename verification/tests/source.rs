use lambda_lexer::source::Source;

#[test]
fn it_starts_in_the_correct_state() {
    let examples = vec![("hello".to_string(), false), ("".to_string(), true)];

    for (text, expected) in examples {
        let source = Source::new(&text);
        assert_eq!(source.is_finished(), expected);
    }
}

#[test]
fn it_can_advance_until_finished() {
    let text = "hello".to_string();
    let mut source = Source::new(&text);
    let mut chars = vec![];

    while let Some(c) = source.advance() {
        chars.push(c);
    }

    let collected: String = chars.iter().collect();
    assert_eq!(text, collected);
}

#[test]
fn it_can_support_a_whitespace_tokenizer() {
    let text = "hello world this\nis some sample text.\n";

    let mut source = Source::new(&text);
    let expected = vec!["hello", "world", "this", "is", "some", "sample", "text."];

    let mut tokens = vec![];
    let mut in_token = !source.peek().unwrap().is_whitespace();
    let mut buffer = vec![];

    while let Some(c) = source.advance() {
        if in_token {
            if c.is_whitespace() {
                let token: String = buffer.iter().collect();
                tokens.push(token);
                buffer.clear();
                in_token = false;
            } else {
                buffer.push(c);
            }
        } else {
            if !c.is_whitespace() {
                buffer.push(c);
                in_token = true;
            }
        }
    }

    assert_eq!(tokens.len(), expected.len());

    for (t, e) in tokens.iter().zip(expected.iter()) {
        assert_eq!(t, e);
    }
}

#[test]
fn advance_returns_nothing_once_finished() {
    let mut source = Source::new("a");
    assert_eq!(source.advance(), Some('a'));
    assert!(source.is_finished());
    assert_eq!(source.advance(), None);
    assert_eq!(source.advance(), None);
    assert!(source.is_finished());
}

#[test]
fn advance_moves_by_one_character() {
    let mut source = Source::new("xyz");
    assert_eq!(source.advance(), Some('x'));
    assert_eq!(source.peek(), Some('y'));
    assert_eq!(source.advance(), Some('y'));
    assert_eq!(source.peek(), Some('z'));
}

#[test]
fn peek_does_not_move() {
    let mut source = Source::new("ab");
    assert_eq!(source.peek(), Some('a'));
    assert_eq!(source.peek(), Some('a'));
    assert_eq!(source.advance(), Some('a'));
    assert_eq!(source.peek(), Some('b'));
    assert_eq!(source.advance(), Some('b'));
    assert_eq!(source.peek(), None);
}

#[test]
fn peek_on_empty_text_is_nothing() {
    let source = Source::new("");
    assert_eq!(source.peek(), None);
}

#[test]
fn extract_of_a_fresh_cursor_is_empty() {
    let source = Source::new("hello");
    assert_eq!(source.extract(), Some(String::new()));
}

#[test]
fn extract_returns_what_was_read_since_the_reset() {
    let mut source = Source::new("hello world");
    for _ in 0..6 {
        source.advance();
    }
    source.reset();
    assert_eq!(source.extract(), Some(String::new()));
    for n in 1..=5 {
        source.advance();
        assert_eq!(source.extract(), Some("world"[..n].to_string()));
    }
    assert!(source.is_finished());
    source.advance();
    assert_eq!(source.extract(), Some("world".to_string()));
}

#[test]
fn extract_does_not_move() {
    let mut source = Source::new("abc");
    source.advance();
    source.advance();
    assert_eq!(source.extract(), Some("ab".to_string()));
    assert_eq!(source.extract(), Some("ab".to_string()));
    assert_eq!(source.peek(), Some('c'));
}

#[test]
fn extract_without_reset_spans_from_the_beginning() {
    let mut source = Source::new("hello");
    while source.advance().is_some() {}
    assert_eq!(source.extract(), Some("hello".to_string()));
}

#[test]
fn reset_empties_the_lexeme() {
    let mut source = Source::new("abc");
    source.advance();
    source.reset();
    assert_eq!(source.extract(), Some(String::new()));
    assert_eq!(source.peek(), Some('b'));
    source.reset();
    assert_eq!(source.extract(), Some(String::new()));
}

#[test]
fn characters_outside_ascii_count_as_one_each() {
    let text = "λé→x";
    let mut source = Source::new(text);
    let mut read = String::new();
    let mut count = 0;
    while let Some(c) = source.advance() {
        read.push(c);
        count += 1;
    }
    assert_eq!(count, 4);
    assert_eq!(read, text);
    assert_eq!(source.extract(), Some(text.to_string()));
}

#[test]
fn reading_everything_reproduces_the_text() {
    for text in ["", " ", "a", "(\\x.x)", "two words\n", "tab\there"] {
        let mut source = Source::new(text);
        let mut read = String::new();
        while let Some(c) = source.advance() {
            read.push(c);
        }
        assert_eq!(read, text);
    }
}
