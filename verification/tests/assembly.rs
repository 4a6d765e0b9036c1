use hack_parser::error::ParseError;
use hack_parser::expression::Expression;
use hack_parser::parser::Parser;
use hack_parser::token::Token;

fn name(text: &str) -> String {
    text.to_string()
}

fn destination(text: &str) -> Token {
    Token::Destination(name(text))
}

fn computation(text: &str) -> Token {
    Token::Computation(name(text))
}

fn jump(text: &str) -> Token {
    Token::Jump(name(text))
}

fn compute(destination: &str, computation: &str) -> Expression {
    Expression::Compute { destination: name(destination), computation: name(computation) }
}

fn compute_jump(computation: &str, jump: &str) -> Expression {
    Expression::ComputeJump { computation: name(computation), jump: name(jump) }
}

#[test]
fn an_empty_stream_gives_no_expression() {
    let parser = Parser::new();
    assert_eq!(parser.assemble(&vec![]), Ok(vec![]));
}

#[test]
fn separators_alone_give_no_expression() {
    let parser = Parser::new();
    let tokens = vec![Token::InstructionEnd, Token::InstructionEnd];
    assert_eq!(parser.assemble(&tokens), Ok(vec![]));
}

#[test]
fn a_literal_is_carried_as_it_is() {
    let parser = Parser::new();
    let tokens = vec![
        Token::AddressLiteral(0),
        Token::InstructionEnd,
        Token::AddressLiteral(32767),
        Token::InstructionEnd,
    ];
    assert_eq!(
        parser.assemble(&tokens),
        Ok(vec![Expression::Address(0), Expression::Address(32767)])
    );
}

#[test]
fn a_predefined_symbol_resolves_without_registration() {
    let parser = Parser::new();
    let tokens = vec![
        Token::AddressSymbol(name("SCREEN")),
        Token::InstructionEnd,
        Token::AddressSymbol(name("R13")),
        Token::InstructionEnd,
    ];
    assert_eq!(
        parser.assemble(&tokens),
        Ok(vec![Expression::Address(16384), Expression::Address(13)])
    );
}

#[test]
fn assembly_without_registration_does_not_resolve_a_label() {
    let parser = Parser::new();
    let tokens = vec![
        Token::LabelDeclaration(name("LOOP"), 10),
        Token::AddressSymbol(name("LOOP")),
        Token::InstructionEnd,
    ];
    assert_eq!(parser.assemble(&tokens), Err(ParseError::UnresolvedSymbol { index: 1 }));
}

#[test]
fn assembly_resolves_what_was_registered() {
    let mut parser = Parser::new();
    parser.register_symbols(&vec![Token::DeclaredSymbol(name("i"))]);
    let tokens = vec![Token::AddressSymbol(name("i")), Token::InstructionEnd];
    assert_eq!(parser.assemble(&tokens), Ok(vec![Expression::Address(16)]));
}

#[test]
fn a_destination_takes_the_computation_behind_it() {
    let parser = Parser::new();
    let tokens = vec![destination("AMD"), computation("D|M")];
    assert_eq!(parser.assemble(&tokens), Ok(vec![compute("AMD", "D|M")]));
}

#[test]
fn a_computation_takes_the_jump_behind_it() {
    let parser = Parser::new();
    let tokens = vec![computation("D"), jump("JGT")];
    assert_eq!(parser.assemble(&tokens), Ok(vec![compute_jump("D", "JGT")]));
}

#[test]
fn a_destination_at_the_end_is_rejected() {
    let parser = Parser::new();
    let tokens = vec![Token::AddressLiteral(1), Token::InstructionEnd, destination("D")];
    assert_eq!(parser.assemble(&tokens), Err(ParseError::GrammarViolation { index: 2 }));
}

#[test]
fn a_computation_at_the_end_is_rejected() {
    let parser = Parser::new();
    let tokens = vec![computation("0")];
    assert_eq!(parser.assemble(&tokens), Err(ParseError::GrammarViolation { index: 0 }));
}

#[test]
fn a_destination_before_a_jump_is_rejected() {
    let parser = Parser::new();
    let tokens = vec![destination("D"), jump("JMP"), Token::InstructionEnd];
    assert_eq!(parser.assemble(&tokens), Err(ParseError::GrammarViolation { index: 0 }));
}

#[test]
fn a_destination_before_a_destination_is_rejected() {
    let parser = Parser::new();
    let tokens = vec![destination("D"), destination("M"), computation("A")];
    assert_eq!(parser.assemble(&tokens), Err(ParseError::GrammarViolation { index: 0 }));
}

#[test]
fn a_computation_before_a_separator_is_rejected() {
    let parser = Parser::new();
    let tokens = vec![Token::InstructionEnd, computation("D+1"), Token::InstructionEnd];
    assert_eq!(parser.assemble(&tokens), Err(ParseError::GrammarViolation { index: 1 }));
}

#[test]
fn a_computation_before_a_computation_is_rejected() {
    let parser = Parser::new();
    let tokens = vec![computation("D"), computation("M"), jump("JMP")];
    assert_eq!(parser.assemble(&tokens), Err(ParseError::GrammarViolation { index: 0 }));
}

#[test]
fn a_label_between_the_two_parts_is_rejected() {
    let parser = Parser::new();
    let tokens = vec![destination("D"), Token::LabelDeclaration(name("L"), 1), computation("A")];
    assert_eq!(parser.assemble(&tokens), Err(ParseError::GrammarViolation { index: 0 }));
}

#[test]
fn a_bare_jump_is_rejected() {
    let parser = Parser::new();
    let tokens = vec![jump("JMP"), Token::InstructionEnd];
    assert_eq!(parser.assemble(&tokens), Err(ParseError::GrammarViolation { index: 0 }));
}

#[test]
fn a_second_jump_is_rejected() {
    let parser = Parser::new();
    let tokens = vec![computation("0"), jump("JMP"), jump("JEQ")];
    assert_eq!(parser.assemble(&tokens), Err(ParseError::GrammarViolation { index: 2 }));
}

#[test]
fn a_declared_symbol_starts_no_instruction() {
    let parser = Parser::new();
    let tokens = vec![
        Token::AddressLiteral(1),
        Token::DeclaredSymbol(name("x")),
        Token::AddressLiteral(2),
    ];
    assert_eq!(parser.assemble(&tokens), Err(ParseError::GrammarViolation { index: 1 }));
}

#[test]
fn the_first_failure_is_reported() {
    let parser = Parser::new();
    let tokens = vec![
        Token::AddressLiteral(1),
        Token::AddressSymbol(name("missing")),
        jump("JMP"),
    ];
    assert_eq!(parser.assemble(&tokens), Err(ParseError::UnresolvedSymbol { index: 1 }));
    let tokens = vec![
        Token::AddressLiteral(1),
        jump("JMP"),
        Token::AddressSymbol(name("missing")),
    ];
    assert_eq!(parser.assemble(&tokens), Err(ParseError::GrammarViolation { index: 1 }));
}

#[test]
fn instructions_need_no_separator_between_them() {
    let parser = Parser::new();
    let tokens = vec![
        Token::AddressLiteral(2),
        destination("D"),
        computation("A"),
        computation("D"),
        jump("JNE"),
        Token::AddressSymbol(name("R1")),
    ];
    assert_eq!(
        parser.assemble(&tokens),
        Ok(vec![
            Expression::Address(2),
            compute("D", "A"),
            compute_jump("D", "JNE"),
            Expression::Address(1),
        ])
    );
}

#[test]
fn expressions_of_two_streams_follow_each_other() {
    let parser = Parser::new();
    let first =
        vec![Token::AddressLiteral(2), Token::InstructionEnd, destination("D"), computation("A")];
    let second =
        vec![computation("D"), jump("JGT"), Token::InstructionEnd, Token::AddressLiteral(3)];
    let mut both = first.clone();
    both.extend(second.clone());
    let mut expected = parser.assemble(&first).unwrap();
    expected.extend(parser.assemble(&second).unwrap());
    assert_eq!(expected.len(), 4);
    assert_eq!(parser.assemble(&both), Ok(expected));
}

#[test]
fn labels_and_separators_between_instructions_change_nothing() {
    let parser = Parser::new();
    let plain = vec![
        Token::AddressLiteral(2),
        destination("D"),
        computation("A"),
        computation("D"),
        jump("JGT"),
    ];
    let spaced = vec![
        Token::LabelDeclaration(name("START"), 0),
        Token::AddressLiteral(2),
        Token::InstructionEnd,
        Token::LabelDeclaration(name("A"), 1),
        Token::LabelDeclaration(name("B"), 1),
        destination("D"),
        computation("A"),
        Token::InstructionEnd,
        Token::InstructionEnd,
        Token::LabelDeclaration(name("C"), 2),
        computation("D"),
        jump("JGT"),
        Token::InstructionEnd,
        Token::LabelDeclaration(name("END"), 3),
    ];
    let expected = vec![Expression::Address(2), compute("D", "A"), compute_jump("D", "JGT")];
    assert_eq!(parser.assemble(&plain), Ok(expected.clone()));
    assert_eq!(parser.assemble(&spaced), Ok(expected));
}
