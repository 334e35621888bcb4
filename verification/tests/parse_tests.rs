use relambda::{
    parse_toplevel, Application, CharPos, CharPosIterator, Combinator, ParseError, SyntaxTree,
};

fn parse_str(source: &str) -> Result<SyntaxTree, ParseError> {
    parse_toplevel(&mut CharPosIterator::new(source.chars().collect()))
}

fn leaf(c: Combinator) -> SyntaxTree {
    SyntaxTree::Combinator(c)
}

fn apply(func: SyntaxTree, arg: SyntaxTree) -> SyntaxTree {
    SyntaxTree::Application(Application {
        func: Box::new(func),
        arg: Box::new(arg),
    })
}

#[test]
fn parses_every_combinator() {
    assert_eq!(parse_str("i"), Ok(leaf(Combinator::I)));
    assert_eq!(parse_str("k"), Ok(leaf(Combinator::K)));
    assert_eq!(parse_str("s"), Ok(leaf(Combinator::S)));
    assert_eq!(parse_str("v"), Ok(leaf(Combinator::V)));
    assert_eq!(parse_str("d"), Ok(leaf(Combinator::D)));
    assert_eq!(parse_str("c"), Ok(leaf(Combinator::C)));
    assert_eq!(parse_str("e"), Ok(leaf(Combinator::E)));
    assert_eq!(parse_str("@"), Ok(leaf(Combinator::Read)));
    assert_eq!(parse_str("|"), Ok(leaf(Combinator::Reprint)));
    assert_eq!(parse_str("?x"), Ok(leaf(Combinator::Compare('x'))));
    assert_eq!(parse_str(".x"), Ok(leaf(Combinator::Dot('x'))));
    assert_eq!(parse_str("r"), Ok(leaf(Combinator::Dot('\n'))));
}

#[test]
fn letters_are_case_insensitive() {
    assert_eq!(
        parse_str("`SK"),
        Ok(apply(leaf(Combinator::S), leaf(Combinator::K)))
    );
    assert_eq!(parse_str("R"), Ok(leaf(Combinator::Dot('\n'))));
    // The character after a dot is taken as it stands.
    assert_eq!(parse_str(".K"), Ok(leaf(Combinator::Dot('K'))));
    assert_eq!(parse_str("?K"), Ok(leaf(Combinator::Compare('K'))));
}

#[test]
fn backtick_and_bracket_both_apply() {
    let expected = apply(
        apply(leaf(Combinator::K), leaf(Combinator::S)),
        leaf(Combinator::I),
    );
    assert_eq!(parse_str("``ksi"), Ok(apply(
        apply(leaf(Combinator::K), leaf(Combinator::S)),
        leaf(Combinator::I),
    )));
    assert_eq!(parse_str("[[ksi"), Ok(expected));
}

#[test]
fn white_space_and_comments_are_skipped() {
    let expected = apply(leaf(Combinator::I), leaf(Combinator::K));
    assert_eq!(
        parse_str("  # leading comment\n ` i\t# about i\n\n k  # trailing"),
        Ok(expected)
    );
    // A dot takes the very next character, white space included.
    assert_eq!(parse_str(". "), Ok(leaf(Combinator::Dot(' '))));
    assert_eq!(parse_str(".#"), Ok(leaf(Combinator::Dot('#'))));
    // A non-breaking space is white space too.
    assert_eq!(parse_str("\u{a0}i"), Ok(leaf(Combinator::I)));
}

#[test]
fn empty_text_is_unexpected_eof() {
    assert_eq!(parse_str(""), Err(ParseError::UnexpectedEof));
    assert_eq!(parse_str("   # only a comment"), Err(ParseError::UnexpectedEof));
    assert_eq!(parse_str("`i"), Err(ParseError::UnexpectedEof));
    assert_eq!(parse_str("`"), Err(ParseError::UnexpectedEof));
}

#[test]
fn eof_after_dot_or_question_mark_reports_its_position() {
    assert_eq!(
        parse_str("."),
        Err(ParseError::UnexpectedEofAfter { position: (0, 0) })
    );
    assert_eq!(
        parse_str("`i\n ?"),
        Err(ParseError::UnexpectedEofAfter { position: (1, 1) })
    );
}

#[test]
fn unknown_token_is_reported_in_lower_case_with_position() {
    assert_eq!(
        parse_str("x"),
        Err(ParseError::UnexpectedToken {
            item: 'x',
            position: (0, 0)
        })
    );
    assert_eq!(
        parse_str("`i\n`k Q"),
        Err(ParseError::UnexpectedToken {
            item: 'q',
            position: (1, 3)
        })
    );
}

#[test]
fn trailing_content_is_rejected() {
    assert_eq!(
        parse_str("ii"),
        Err(ParseError::UnexpectedCharacter {
            item: 'i',
            position: (0, 1)
        })
    );
    assert_eq!(
        parse_str("`ii # fine\n\n  K"),
        Err(ParseError::UnexpectedCharacter {
            item: 'K',
            position: (2, 2)
        })
    );
}

#[test]
fn cursor_reports_lines_and_columns() {
    let mut it = CharPosIterator::new("a\nbc".chars().collect());
    assert_eq!(
        it.peek(),
        Some(CharPos {
            item: 'a',
            position: (0, 0)
        })
    );
    assert_eq!(
        it.next(),
        Some(CharPos {
            item: 'a',
            position: (0, 0)
        })
    );
    assert_eq!(
        it.next(),
        Some(CharPos {
            item: '\n',
            position: (0, 1)
        })
    );
    assert_eq!(
        it.next(),
        Some(CharPos {
            item: 'b',
            position: (1, 0)
        })
    );
    assert_eq!(
        it.next(),
        Some(CharPos {
            item: 'c',
            position: (1, 1)
        })
    );
    assert_eq!(it.next(), None);
    assert_eq!(it.peek(), None);
    assert_eq!(it.next(), None);
}

#[test]
fn syntax_trees_clone_to_equal_trees() {
    let tree = parse_str("``s`k.x`?yi").unwrap();
    assert_eq!(tree.clone(), tree);
    match &tree {
        SyntaxTree::Application(app) => {
            let copy = app.clone();
            assert_eq!(&copy, app);
            assert_eq!(
                *copy.arg,
                apply(leaf(Combinator::Compare('y')), leaf(Combinator::I))
            );
        }
        SyntaxTree::Combinator(_) => panic!("expected an application"),
    }
}
