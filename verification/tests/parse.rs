use hack_parser::error::ParseError;
use hack_parser::expression::Expression;
use hack_parser::parser::Parser;
use hack_parser::token::Token;

fn name(text: &str) -> String {
    text.to_string()
}

#[test]
fn address_instruction_parses() {
    let mut parser = Parser::new();
    let tokens = vec![Token::AddressLiteral(7), Token::InstructionEnd];
    assert_eq!(parser.parse(&tokens), Ok(vec![Expression::Address(7)]));
}

#[test]
fn full_compute_instruction_parses() {
    let mut parser = Parser::new();
    let tokens = vec![
        Token::Destination(name("D")),
        Token::Computation(name("A+1")),
        Token::InstructionEnd,
    ];
    assert_eq!(
        parser.parse(&tokens),
        Ok(vec![Expression::Compute { destination: name("D"), computation: name("A+1") }])
    );
}

#[test]
fn jump_instruction_parses() {
    let mut parser = Parser::new();
    let tokens =
        vec![Token::Computation(name("0")), Token::Jump(name("JMP")), Token::InstructionEnd];
    assert_eq!(
        parser.parse(&tokens),
        Ok(vec![Expression::ComputeJump { computation: name("0"), jump: name("JMP") }])
    );
}

#[test]
fn destination_without_computation_fails() {
    let mut parser = Parser::new();
    let tokens = vec![Token::Destination(name("D")), Token::InstructionEnd];
    assert_eq!(parser.parse(&tokens), Err(ParseError::GrammarViolation { index: 0 }));
}

#[test]
fn undeclared_symbol_fails() {
    let mut parser = Parser::new();
    let tokens = vec![Token::AddressSymbol(name("UNDECLARED")), Token::InstructionEnd];
    assert_eq!(parser.parse(&tokens), Err(ParseError::UnresolvedSymbol { index: 0 }));
}

#[test]
fn undeclared_symbol_fails_among_declarations_of_other_names() {
    let mut parser = Parser::new();
    let tokens = vec![
        Token::LabelDeclaration(name("DECLARED"), 4),
        Token::AddressSymbol(name("DECLARED")),
        Token::InstructionEnd,
        Token::AddressSymbol(name("UNDECLARED")),
        Token::InstructionEnd,
    ];
    assert_eq!(parser.parse(&tokens), Err(ParseError::UnresolvedSymbol { index: 3 }));
}

#[test]
fn label_resolves_to_its_address() {
    let mut parser = Parser::new();
    let tokens = vec![
        Token::LabelDeclaration(name("LOOP"), 10),
        Token::AddressSymbol(name("LOOP")),
        Token::InstructionEnd,
    ];
    assert_eq!(parser.parse(&tokens), Ok(vec![Expression::Address(10)]));
}

#[test]
fn label_resolves_before_its_declaration() {
    let mut parser = Parser::new();
    let tokens = vec![
        Token::AddressSymbol(name("LOOP")),
        Token::InstructionEnd,
        Token::Computation(name("0")),
        Token::Jump(name("JMP")),
        Token::InstructionEnd,
        Token::LabelDeclaration(name("LOOP"), 10),
    ];
    assert_eq!(
        parser.parse(&tokens),
        Ok(vec![
            Expression::Address(10),
            Expression::ComputeJump { computation: name("0"), jump: name("JMP") },
        ])
    );
}

#[test]
fn label_overrides_a_predefined_name() {
    let mut parser = Parser::new();
    let tokens = vec![
        Token::AddressSymbol(name("R2")),
        Token::LabelDeclaration(name("R2"), 100),
        Token::AddressSymbol(name("R3")),
    ];
    assert_eq!(parser.parse(&tokens), Ok(vec![Expression::Address(100), Expression::Address(3)]));
}

#[test]
fn predefined_symbols_resolve() {
    let mut parser = Parser::new();
    let tokens = vec![
        Token::AddressSymbol(name("SP")),
        Token::InstructionEnd,
        Token::AddressSymbol(name("THAT")),
        Token::InstructionEnd,
        Token::AddressSymbol(name("R15")),
        Token::InstructionEnd,
        Token::AddressSymbol(name("KBD")),
        Token::InstructionEnd,
    ];
    assert_eq!(
        parser.parse(&tokens),
        Ok(vec![
            Expression::Address(0),
            Expression::Address(4),
            Expression::Address(15),
            Expression::Address(24576),
        ])
    );
}

#[test]
fn expressions_keep_the_order_of_their_tokens() {
    let mut parser = Parser::new();
    let tokens = vec![
        Token::LabelDeclaration(name("START"), 0),
        Token::AddressLiteral(2),
        Token::InstructionEnd,
        Token::Destination(name("D")),
        Token::Computation(name("A")),
        Token::InstructionEnd,
        Token::LabelDeclaration(name("MIDDLE"), 2),
        Token::LabelDeclaration(name("ALSO"), 2),
        Token::AddressSymbol(name("END")),
        Token::InstructionEnd,
        Token::Computation(name("D")),
        Token::Jump(name("JGT")),
        Token::InstructionEnd,
        Token::AddressSymbol(name("START")),
        Token::InstructionEnd,
        Token::LabelDeclaration(name("END"), 5),
    ];
    assert_eq!(
        parser.parse(&tokens),
        Ok(vec![
            Expression::Address(2),
            Expression::Compute { destination: name("D"), computation: name("A") },
            Expression::Address(5),
            Expression::ComputeJump { computation: name("D"), jump: name("JGT") },
            Expression::Address(0),
        ])
    );
}

#[test]
fn a_declared_symbol_in_the_stream_fails_the_parse() {
    let mut parser = Parser::new();
    let tokens = vec![
        Token::AddressSymbol(name("counter")),
        Token::InstructionEnd,
        Token::DeclaredSymbol(name("counter")),
    ];
    assert_eq!(parser.parse(&tokens), Err(ParseError::GrammarViolation { index: 2 }));
    assert_eq!(parser.symbols().get(name("counter")), Some(&16));
}

#[test]
fn a_failed_parse_has_registered_the_whole_stream() {
    let mut parser = Parser::new();
    let tokens = vec![
        Token::Jump(name("JMP")),
        Token::LabelDeclaration(name("LATE"), 8),
        Token::DeclaredSymbol(name("x")),
    ];
    assert_eq!(parser.parse(&tokens), Err(ParseError::GrammarViolation { index: 0 }));
    assert_eq!(parser.symbols().get(name("LATE")), Some(&8));
    assert_eq!(parser.symbols().get(name("x")), Some(&16));
}

#[test]
fn a_parse_starts_from_the_predefined_names_alone() {
    let mut parser = Parser::new();
    let first = vec![
        Token::LabelDeclaration(name("LOOP"), 10),
        Token::LabelDeclaration(name("R1"), 99),
        Token::AddressSymbol(name("LOOP")),
    ];
    assert_eq!(parser.parse(&first), Ok(vec![Expression::Address(10)]));
    let second = vec![Token::AddressSymbol(name("R1")), Token::AddressSymbol(name("LOOP"))];
    assert_eq!(parser.parse(&second), Err(ParseError::UnresolvedSymbol { index: 1 }));
    assert_eq!(parser.symbols().get(name("R1")), Some(&1));
    assert_eq!(parser.symbols().get(name("LOOP")), None);
}

#[test]
fn a_parse_forgets_what_was_registered_by_hand() {
    let mut parser = Parser::new();
    parser.register_symbols(&vec![Token::DeclaredSymbol(name("a"))]);
    let tokens = vec![Token::AddressSymbol(name("a"))];
    assert_eq!(parser.parse(&tokens), Err(ParseError::UnresolvedSymbol { index: 0 }));
}

#[test]
fn parsing_twice_gives_the_same() {
    let mut parser = Parser::new();
    let tokens = vec![
        Token::AddressSymbol(name("L")),
        Token::Destination(name("M")),
        Token::Computation(name("D")),
        Token::LabelDeclaration(name("L"), 6),
    ];
    let once = parser.parse(&tokens);
    let twice = parser.parse(&tokens);
    assert_eq!(once, twice);
    assert_eq!(
        once,
        Ok(vec![
            Expression::Address(6),
            Expression::Compute { destination: name("M"), computation: name("D") },
        ])
    );
}

#[test]
fn an_empty_stream_parses_to_nothing() {
    let mut parser = Parser::new();
    assert_eq!(parser.parse(&vec![]), Ok(vec![]));
}
