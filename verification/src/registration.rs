//! The registration pass: what a token stream does to the symbol table.

use crate::symbols::{Symbols, ADDRESS_SPACE};
use crate::token::TokenView;
use vstd::prelude::*;

verus! {

/// The table after one token was registered: a declared symbol becomes a
/// variable, a label is bound to its address, any other token changes nothing.
pub open spec fn register_token(symbols: Symbols, token: TokenView) -> Symbols {
    match token {
        TokenView::DeclaredSymbol(name) => symbols.declare(name),
        TokenView::LabelDeclaration(name, address) => symbols.bind(name, address),
        _ => symbols,
    }
}

/// The table after the tokens were registered one by one, from the first to the last.
pub open spec fn register(symbols: Symbols, tokens: Seq<TokenView>) -> Symbols
    decreases tokens.len(),
{
    if tokens.len() == 0 {
        symbols
    } else {
        register_token(register(symbols, tokens.drop_last()), tokens.last())
    }
}

/// Whether the table has an address for every variable that the tokens declare.
pub open spec fn registration_fits(symbols: Symbols, tokens: Seq<TokenView>) -> bool {
    register(symbols, tokens).next <= ADDRESS_SPACE
}

/// Whether `token` is a declaration of `name`, as a variable or as a label.
pub open spec fn declares(token: TokenView, name: Seq<char>) -> bool {
    match token {
        TokenView::DeclaredSymbol(declared) => declared == name,
        TokenView::LabelDeclaration(label, _) => label == name,
        _ => false,
    }
}

/// Whether `token` is a label for `name`.
pub open spec fn labels(token: TokenView, name: Seq<char>) -> bool {
    match token {
        TokenView::LabelDeclaration(label, _) => label == name,
        _ => false,
    }
}

/// Registering one token more is registering the tokens before it, then that token.
pub proof fn lemma_register_next(symbols: Symbols, tokens: Seq<TokenView>, i: int)
    requires
        0 <= i < tokens.len(),
    ensures
        register(symbols, tokens.take(i + 1)) == register_token(
            register(symbols, tokens.take(i)),
            tokens[i],
        ),
{
    assert(tokens.take(i + 1).drop_last() =~= tokens.take(i));
}

/// The next free address never goes down, and goes up by one for each token at
/// most: a stream fits if it is no longer than the addresses that are left.
pub proof fn lemma_register_counts(symbols: Symbols, tokens: Seq<TokenView>)
    ensures
        symbols.next <= register(symbols, tokens).next <= symbols.next + tokens.len(),
    decreases tokens.len(),
{
    if tokens.len() > 0 {
        lemma_register_counts(symbols, tokens.drop_last());
    }
}

/// A stream that fits leaves room at every token on the way.
pub proof fn lemma_register_prefix_fits(symbols: Symbols, tokens: Seq<TokenView>, i: int)
    requires
        0 <= i <= tokens.len(),
        registration_fits(symbols, tokens),
    ensures
        registration_fits(symbols, tokens.take(i)),
        i < tokens.len() ==> (tokens[i] matches TokenView::DeclaredSymbol(name) ==> register(
            symbols,
            tokens.take(i),
        ).can_declare(name)),
    decreases tokens.len() - i,
{
    if i == tokens.len() {
        assert(tokens.take(i) =~= tokens);
    } else {
        lemma_register_prefix_fits(symbols, tokens, i + 1);
        lemma_register_next(symbols, tokens, i);
    }
}

/// Registering a stream is registering its first part and then the rest.
pub proof fn lemma_register_concat(symbols: Symbols, first: Seq<TokenView>, second: Seq<TokenView>)
    ensures
        register(symbols, first + second) == register(register(symbols, first), second),
    decreases second.len(),
{
    if second.len() == 0 {
        assert(first + second =~= first);
    } else {
        lemma_register_concat(symbols, first, second.drop_last());
        assert((first + second).drop_last() =~= first + second.drop_last());
    }
}

/// The names bound after registration are those bound before it and those
/// that a token of the stream declares.
pub proof fn lemma_registered_names(symbols: Symbols, tokens: Seq<TokenView>, name: Seq<char>)
    ensures
        register(symbols, tokens).bindings.contains_key(name) <==> symbols.bindings.contains_key(
            name,
        ) || exists|i: int| 0 <= i < tokens.len() && declares(#[trigger] tokens[i], name),
    decreases tokens.len(),
{
    if tokens.len() > 0 {
        let front = tokens.drop_last();
        lemma_registered_names(symbols, front, name);
        if exists|i: int| 0 <= i < front.len() && declares(#[trigger] front[i], name) {
            let i = choose|i: int| 0 <= i < front.len() && declares(#[trigger] front[i], name);
            assert(declares(tokens[i], name));
        }
        if declares(tokens.last(), name) {
            assert(declares(tokens[tokens.len() - 1], name));
        }
        if exists|i: int| 0 <= i < tokens.len() && declares(#[trigger] tokens[i], name) {
            let i = choose|i: int| 0 <= i < tokens.len() && declares(#[trigger] tokens[i], name);
            if i < front.len() {
                assert(declares(front[i], name));
            }
        }
    }
}

/// A name that is bound keeps its address through every token that is not a
/// label for it: declaring it again as a variable changes nothing.
pub proof fn lemma_binding_kept(symbols: Symbols, tokens: Seq<TokenView>, name: Seq<char>)
    requires
        symbols.bindings.contains_key(name),
        forall|i: int| 0 <= i < tokens.len() ==> !labels(#[trigger] tokens[i], name),
    ensures
        register(symbols, tokens).lookup(name) == symbols.lookup(name),
    decreases tokens.len(),
{
    if tokens.len() > 0 {
        let front = tokens.drop_last();
        assert forall|i: int| 0 <= i < front.len() implies !labels(#[trigger] front[i], name) by {
            assert(front[i] == tokens[i]);
        }
        lemma_binding_kept(symbols, front, name);
        assert(!labels(tokens[tokens.len() - 1], name));
    }
}

/// A label decides what its name resolves to: after registration the name is
/// bound to the address of the last label for it, wherever in the stream that
/// label stands and whether or not the name was declared as a variable too.
pub proof fn lemma_label_binds(
    symbols: Symbols,
    tokens: Seq<TokenView>,
    i: int,
    name: Seq<char>,
    address: u16,
)
    requires
        0 <= i < tokens.len(),
        tokens[i] == TokenView::LabelDeclaration(name, address),
        forall|j: int| i < j < tokens.len() ==> !labels(#[trigger] tokens[j], name),
    ensures
        register(symbols, tokens).lookup(name) == Some(address),
    decreases tokens.len(),
{
    let front = tokens.drop_last();
    if i < tokens.len() - 1 {
        assert(front[i] == tokens[i]);
        assert forall|j: int| i < j < front.len() implies !labels(#[trigger] front[j], name) by {
            assert(front[j] == tokens[j]);
        }
        lemma_label_binds(symbols, front, i, name, address);
        assert(!labels(tokens[tokens.len() - 1], name));
    }
}

/// Variables get their addresses in the order in which their names first
/// appear: a declared symbol whose name is not bound when the pass comes to it
/// gets the address that is free then, the next free address moves up by one,
/// and the name keeps that address to the end unless a later label takes it.
pub proof fn lemma_variable_address(
    symbols: Symbols,
    tokens: Seq<TokenView>,
    i: int,
    name: Seq<char>,
)
    requires
        0 <= i < tokens.len(),
        tokens[i] == TokenView::DeclaredSymbol(name),
        register(symbols, tokens.take(i)).lookup(name).is_none(),
        forall|j: int| i < j < tokens.len() ==> !labels(#[trigger] tokens[j], name),
    ensures
        register(symbols, tokens).lookup(name) == Some(
            register(symbols, tokens.take(i)).next as u16,
        ),
        register(symbols, tokens.take(i + 1)).next == register(symbols, tokens.take(i)).next + 1,
{
    let upto = tokens.take(i + 1);
    let rest = tokens.skip(i + 1);
    lemma_register_next(symbols, tokens, i);
    assert(upto + rest =~= tokens);
    lemma_register_concat(symbols, upto, rest);
    assert forall|j: int| 0 <= j < rest.len() implies !labels(#[trigger] rest[j], name) by {
        assert(rest[j] == tokens[i + 1 + j]);
    }
    lemma_binding_kept(register(symbols, upto), rest, name);
}

/// A declared symbol whose name is bound when the pass comes to it takes no
/// address and changes nothing.
pub proof fn lemma_repeat_changes_nothing(
    symbols: Symbols,
    tokens: Seq<TokenView>,
    i: int,
    name: Seq<char>,
)
    requires
        0 <= i < tokens.len(),
        tokens[i] == TokenView::DeclaredSymbol(name),
        register(symbols, tokens.take(i)).lookup(name).is_some(),
    ensures
        register(symbols, tokens.take(i + 1)) == register(symbols, tokens.take(i)),
{
    lemma_register_next(symbols, tokens, i);
}

} // verus!
