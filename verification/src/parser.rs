//! The parser: both passes over a token stream.

use crate::assembly::{
    assemble, assemble_from, emitted_before, lemma_unresolved_symbol, step, Outcome, Step,
};
use crate::error::ParseError;
use crate::expression::{expression_views, Expression, ExpressionView};
use crate::registration::{
    declares, labels, lemma_label_binds, lemma_register_counts, lemma_register_next,
    lemma_register_prefix_fits, lemma_registered_names, register, registration_fits,
};
use crate::symbols::{
    is_predefined_name, lemma_predefined_bindings, SymTable, Symbols, ADDRESS_SPACE,
    FIRST_VARIABLE_ADDRESS,
};
use crate::token::{token_views, Token, TokenView};
use vstd::prelude::*;

verus! {

/// Turns token streams into expressions. It owns the symbol table of the parse
/// it last ran.
pub struct Parser {
    sym_table: SymTable,
}

impl View for Parser {
    type V = Symbols;

    closed spec fn view(&self) -> Symbols {
        self.sym_table@
    }
}

/// The mathematical value of what a parse returns.
pub open spec fn outcome_view(outcome: Result<Vec<Expression>, ParseError>) -> Outcome {
    match outcome {
        Ok(expressions) => Ok(expression_views(expressions@)),
        Err(error) => Err(error),
    }
}

/// What a parse of `tokens` gives: the names are resolved in the table that
/// the registration pass leaves when it starts from the predefined names.
pub open spec fn parse_outcome(tokens: Seq<TokenView>) -> Outcome {
    assemble(register(Symbols::predefined(), tokens).bindings, tokens)
}

/// A stream with no more tokens than there are addresses for variables fits.
pub proof fn lemma_short_stream_fits(tokens: Seq<TokenView>)
    requires
        tokens.len() <= ADDRESS_SPACE - FIRST_VARIABLE_ADDRESS,
    ensures
        registration_fits(Symbols::predefined(), tokens),
{
    lemma_register_counts(Symbols::predefined(), tokens);
}

/// A label resolves to its address and not to a variable, whether the address
/// instruction stands before or behind it: every address instruction that
/// names the label carries the address of the last label of that name.
pub proof fn lemma_label_resolves(
    tokens: Seq<TokenView>,
    label: int,
    user: int,
    name: Seq<char>,
    address: u16,
)
    requires
        0 <= label < tokens.len(),
        0 <= user < tokens.len(),
        tokens[label] == TokenView::LabelDeclaration(name, address),
        forall|j: int| label < j < tokens.len() ==> !labels(#[trigger] tokens[j], name),
        tokens[user] == TokenView::AddressSymbol(name),
    ensures
        step(register(Symbols::predefined(), tokens).bindings, tokens, user) == (Step::Emit {
            expression: ExpressionView::Address(address),
            width: 1,
        }),
{
    lemma_label_binds(Symbols::predefined(), tokens, label, name, address);
}

/// A symbol that nothing declares is fatal: where an address instruction names
/// a symbol that is not predefined and that no token of the stream declares,
/// the parse fails. Where the tokens before that instruction assemble, the
/// failure is this unresolved symbol.
pub proof fn lemma_undeclared_symbol_rejected(tokens: Seq<TokenView>, i: int, name: Seq<char>)
    requires
        0 <= i < tokens.len(),
        tokens[i] == TokenView::AddressSymbol(name),
        !is_predefined_name(name),
        forall|j: int| 0 <= j < tokens.len() ==> !declares(#[trigger] tokens[j], name),
    ensures
        parse_outcome(tokens) is Err,
        assemble(register(Symbols::predefined(), tokens).bindings, tokens.take(i)) is Ok
            ==> parse_outcome(tokens) == Outcome::Err(
            ParseError::UnresolvedSymbol { index: i as usize },
        ),
{
    lemma_predefined_bindings();
    lemma_registered_names(Symbols::predefined(), tokens, name);
    lemma_unresolved_symbol(register(Symbols::predefined(), tokens).bindings, tokens, i);
}

/// One more expression in front of `rest` is one more at the end of `done`.
proof fn lemma_emitted_one_more(
    done: Seq<ExpressionView>,
    expression: ExpressionView,
    rest: Outcome,
)
    ensures
        emitted_before(done, emitted_before(seq![expression], rest)) == emitted_before(
            done.push(expression),
            rest,
        ),
{
    if let Ok(expressions) = rest {
        assert(done + (seq![expression] + expressions) =~= done.push(expression) + expressions);
    }
}

impl Parser {
    /// A parser whose table binds the predefined names.
    pub fn new() -> (parser: Parser)
        ensures
            parser@ == Symbols::predefined(),
    {
        Parser { sym_table: SymTable::new() }
    }

    /// The symbol table as the last pass left it.
    pub fn symbols(&self) -> (table: &SymTable)
        ensures
            table@ == self@,
    {
        &self.sym_table
    }

    /// Parses `tokens`: starts from the predefined names, registers every
    /// declaration of the stream, then assembles the stream.
    pub fn parse(&mut self, tokens: &Vec<Token>) -> (outcome: Result<Vec<Expression>, ParseError>)
        requires
            registration_fits(Symbols::predefined(), token_views(tokens@)),
        ensures
            final(self)@ == register(Symbols::predefined(), token_views(tokens@)),
            outcome_view(outcome) == parse_outcome(token_views(tokens@)),
    {
        self.sym_table = SymTable::new();
        self.register_symbols(tokens);
        self.assemble(tokens)
    }

    /// Whether the addresses suffice for a parse of `tokens`: whether every
    /// variable that the stream declares gets one. Where they do not, `parse`
    /// cannot be called.
    pub fn addresses_suffice(tokens: &Vec<Token>) -> (fits: bool)
        ensures
            fits == registration_fits(Symbols::predefined(), token_views(tokens@)),
    {
        let ghost views = token_views(tokens@);
        let ghost start = Symbols::predefined();
        let mut table = SymTable::new();
        let mut i: usize = 0;
        while i < tokens.len()
            invariant
                i <= tokens.len(),
                views == token_views(tokens@),
                start == Symbols::predefined(),
                table@ == register(start, views.take(i as int)),
                registration_fits(start, views.take(i as int)),
            decreases tokens.len() - i,
        {
            proof {
                lemma_register_next(start, views, i as int);
            }
            match &tokens[i] {
                Token::DeclaredSymbol(name) => {
                    if !table.can_add(name) {
                        proof {
                            if registration_fits(start, views) {
                                lemma_register_prefix_fits(start, views, i as int);
                            }
                        }
                        return false;
                    }
                    table.add(name.clone());
                },
                Token::LabelDeclaration(name, address) => {
                    table.set(name.clone(), *address);
                },
                _ => {},
            }
            i += 1;
        }
        assert(views.take(i as int) =~= views);
        true
    }

    /// The registration pass: declares every declared symbol of `tokens` and
    /// binds every label, in the order of the stream.
    pub fn register_symbols(&mut self, tokens: &Vec<Token>)
        requires
            registration_fits(old(self)@, token_views(tokens@)),
        ensures
            final(self)@ == register(old(self)@, token_views(tokens@)),
    {
        let ghost views = token_views(tokens@);
        let mut i: usize = 0;
        while i < tokens.len()
            invariant
                i <= tokens.len(),
                views == token_views(tokens@),
                registration_fits(old(self)@, views),
                self@ == register(old(self)@, views.take(i as int)),
            decreases tokens.len() - i,
        {
            proof {
                lemma_register_prefix_fits(old(self)@, views, i as int);
                lemma_register_next(old(self)@, views, i as int);
            }
            match &tokens[i] {
                Token::DeclaredSymbol(name) => {
                    self.sym_table.add(name.clone());
                },
                Token::LabelDeclaration(name, address) => {
                    self.sym_table.set(name.clone(), *address);
                },
                _ => {},
            }
            i += 1;
        }
        assert(views.take(i as int) =~= views);
    }

    /// The assembly pass: applies the grammar to `tokens` from the first token
    /// to the last and resolves names in the table as it stands.
    pub fn assemble(&self, tokens: &Vec<Token>) -> (outcome: Result<Vec<Expression>, ParseError>)
        ensures
            outcome_view(outcome) == assemble(self@.bindings, token_views(tokens@)),
    {
        let ghost views = token_views(tokens@);
        let ghost bindings = self@.bindings;
        let mut expressions: Vec<Expression> = Vec::new();
        let mut i: usize = 0;
        while i < tokens.len()
            invariant
                i <= tokens.len(),
                views == token_views(tokens@),
                bindings == self@.bindings,
                assemble(bindings, views) == emitted_before(
                    expression_views(expressions@),
                    assemble_from(bindings, views, i as int),
                ),
            decreases tokens.len() - i,
        {
            let ghost done = expression_views(expressions@);
            let expression = match &tokens[i] {
                Token::AddressSymbol(name) => {
                    match self.sym_table.get(name.clone()) {
                        Some(address) => Expression::Address(*address),
                        None => {
                            return Err(ParseError::UnresolvedSymbol { index: i });
                        },
                    }
                },
                Token::AddressLiteral(address) => Expression::Address(*address),
                Token::Destination(destination) => {
                    if i + 1 >= tokens.len() {
                        return Err(ParseError::GrammarViolation { index: i });
                    }
                    match &tokens[i + 1] {
                        Token::Computation(computation) => {
                            i += 1;
                            Expression::Compute {
                                destination: destination.clone(),
                                computation: computation.clone(),
                            }
                        },
                        _ => {
                            return Err(ParseError::GrammarViolation { index: i });
                        },
                    }
                },
                Token::Computation(computation) => {
                    if i + 1 >= tokens.len() {
                        return Err(ParseError::GrammarViolation { index: i });
                    }
                    match &tokens[i + 1] {
                        Token::Jump(jump) => {
                            i += 1;
                            Expression::ComputeJump {
                                computation: computation.clone(),
                                jump: jump.clone(),
                            }
                        },
                        _ => {
                            return Err(ParseError::GrammarViolation { index: i });
                        },
                    }
                },
                Token::InstructionEnd | Token::LabelDeclaration(_, _) => {
                    i += 1;
                    continue;
                },
                Token::DeclaredSymbol(_) | Token::Jump(_) => {
                    return Err(ParseError::GrammarViolation { index: i });
                },
            };
            proof {
                lemma_emitted_one_more(done, expression@, assemble_from(bindings, views, i + 1));
                assert(expression_views(expressions@.push(expression)) =~= done.push(
                    expression@,
                ));
            }
            expressions.push(expression);
            i += 1;
        }
        Ok(expressions)
    }
}

} // verus!
