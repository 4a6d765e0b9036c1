//! The tokens that the front end consumes.

use vstd::prelude::*;

verus! {

/// One token of the lexed source text.
#[derive(Debug)]
pub enum Token {
    /// An address instruction that names a symbol which is still to be resolved.
    AddressSymbol(String),
    /// An address instruction that carries its numeric address.
    AddressLiteral(u16),
    /// A bare symbol, which declares a variable unless the name is bound already.
    DeclaredSymbol(String),
    /// A label: the name and the instruction address it stands for.
    LabelDeclaration(String, u16),
    /// The destination part of a compute instruction.
    Destination(String),
    /// The computation part of a compute instruction.
    Computation(String),
    /// The jump condition of a compute instruction.
    Jump(String),
    /// The separator that closes an instruction.
    InstructionEnd,
}

/// The mathematical value of a [`Token`]: names and parts are sequences of characters.
pub enum TokenView {
    AddressSymbol(Seq<char>),
    AddressLiteral(u16),
    DeclaredSymbol(Seq<char>),
    LabelDeclaration(Seq<char>, u16),
    Destination(Seq<char>),
    Computation(Seq<char>),
    Jump(Seq<char>),
    InstructionEnd,
}

impl View for Token {
    type V = TokenView;

    open spec fn view(&self) -> TokenView {
        match self {
            Token::AddressSymbol(name) => TokenView::AddressSymbol(name@),
            Token::AddressLiteral(address) => TokenView::AddressLiteral(*address),
            Token::DeclaredSymbol(name) => TokenView::DeclaredSymbol(name@),
            Token::LabelDeclaration(name, address) => TokenView::LabelDeclaration(name@, *address),
            Token::Destination(part) => TokenView::Destination(part@),
            Token::Computation(part) => TokenView::Computation(part@),
            Token::Jump(part) => TokenView::Jump(part@),
            Token::InstructionEnd => TokenView::InstructionEnd,
        }
    }
}

impl PartialEq for Token {
    /// Whether the two tokens have the same value.
    fn eq(&self, other: &Token) -> (equal: bool) {
        match (self, other) {
            (Token::AddressSymbol(a), Token::AddressSymbol(b)) => a.eq(b),
            (Token::AddressLiteral(a), Token::AddressLiteral(b)) => *a == *b,
            (Token::DeclaredSymbol(a), Token::DeclaredSymbol(b)) => a.eq(b),
            (Token::LabelDeclaration(a, x), Token::LabelDeclaration(b, y)) => a.eq(b) && *x == *y,
            (Token::Destination(a), Token::Destination(b)) => a.eq(b),
            (Token::Computation(a), Token::Computation(b)) => a.eq(b),
            (Token::Jump(a), Token::Jump(b)) => a.eq(b),
            (Token::InstructionEnd, Token::InstructionEnd) => true,
            _ => false,
        }
    }
}

/// `==` on tokens means that their values are equal.
impl vstd::std_specs::cmp::PartialEqSpecImpl for Token {
    open spec fn obeys_eq_spec() -> bool {
        true
    }

    open spec fn eq_spec(&self, other: &Token) -> bool {
        self@ == other@
    }
}

impl Eq for Token {

}

impl Clone for Token {
    /// A token of the same value.
    fn clone(&self) -> (copy: Token)
        ensures
            copy@ == self@,
    {
        match self {
            Token::AddressSymbol(name) => Token::AddressSymbol(name.clone()),
            Token::AddressLiteral(address) => Token::AddressLiteral(*address),
            Token::DeclaredSymbol(name) => Token::DeclaredSymbol(name.clone()),
            Token::LabelDeclaration(name, address) => Token::LabelDeclaration(
                name.clone(),
                *address,
            ),
            Token::Destination(part) => Token::Destination(part.clone()),
            Token::Computation(part) => Token::Computation(part.clone()),
            Token::Jump(part) => Token::Jump(part.clone()),
            Token::InstructionEnd => Token::InstructionEnd,
        }
    }
}

/// The values of a sequence of tokens, in the same order.
pub open spec fn token_views(tokens: Seq<Token>) -> Seq<TokenView> {
    tokens.map_values(|token: Token| token@)
}

} // verus!
