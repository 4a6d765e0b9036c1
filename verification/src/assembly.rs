//! The assembly pass: the grammar that turns tokens into expressions.

use crate::error::ParseError;
use crate::expression::ExpressionView;
use crate::token::TokenView;
use vstd::prelude::*;

verus! {

/// What a pass over tokens comes to: the expressions, or the failure.
pub type Outcome = Result<Seq<ExpressionView>, ParseError>;

/// What the grammar makes of the token that an instruction would start with.
pub enum Step {
    /// An instruction of `width` tokens, which gives `expression`.
    Emit { expression: ExpressionView, width: int },
    /// A separator or a label: one token that gives nothing.
    Skip,
    /// No instruction starts here.
    Reject { error: ParseError },
}

/// The token right after index `i`, if there is one.
pub open spec fn follower(tokens: Seq<TokenView>, i: int) -> Option<TokenView> {
    if i + 1 < tokens.len() {
        Some(tokens[i + 1])
    } else {
        None
    }
}

/// The grammar at index `i` of `tokens`, with names resolved by `bindings`.
///
/// An address instruction is one token: a literal carries its address, a symbol
/// must be bound and carries the address it is bound to. A destination must be
/// followed at once by a computation, a computation that starts an instruction
/// must be followed at once by a jump; each pair is one instruction. A
/// separator and a label give nothing. Nothing else starts an instruction.
pub open spec fn step(bindings: Map<Seq<char>, u16>, tokens: Seq<TokenView>, i: int) -> Step
    recommends
        0 <= i < tokens.len(),
{
    match tokens[i] {
        TokenView::AddressSymbol(name) => if bindings.contains_key(name) {
            Step::Emit { expression: ExpressionView::Address(bindings[name]), width: 1 }
        } else {
            Step::Reject { error: ParseError::UnresolvedSymbol { index: i as usize } }
        },
        TokenView::AddressLiteral(address) => Step::Emit {
            expression: ExpressionView::Address(address),
            width: 1,
        },
        TokenView::Destination(destination) => match follower(tokens, i) {
            Some(TokenView::Computation(computation)) => Step::Emit {
                expression: ExpressionView::Compute { destination, computation },
                width: 2,
            },
            _ => Step::Reject { error: ParseError::GrammarViolation { index: i as usize } },
        },
        TokenView::Computation(computation) => match follower(tokens, i) {
            Some(TokenView::Jump(jump)) => Step::Emit {
                expression: ExpressionView::ComputeJump { computation, jump },
                width: 2,
            },
            _ => Step::Reject { error: ParseError::GrammarViolation { index: i as usize } },
        },
        TokenView::InstructionEnd => Step::Skip,
        TokenView::LabelDeclaration(_, _) => Step::Skip,
        TokenView::DeclaredSymbol(_) => Step::Reject {
            error: ParseError::GrammarViolation { index: i as usize },
        },
        TokenView::Jump(_) => Step::Reject {
            error: ParseError::GrammarViolation { index: i as usize },
        },
    }
}

/// `done` in front of what `rest` holds; a failure stays as it is.
pub open spec fn emitted_before(done: Seq<ExpressionView>, rest: Outcome) -> Outcome {
    match rest {
        Ok(expressions) => Ok(done + expressions),
        Err(error) => Err(error),
    }
}

/// The outcome of the assembly pass on the tokens from index `i` on: the
/// expressions of the instructions in the order of their tokens, or the first
/// failure.
pub open spec fn assemble_from(
    bindings: Map<Seq<char>, u16>,
    tokens: Seq<TokenView>,
    i: int,
) -> Outcome
    decreases tokens.len() - i,
{
    if i < 0 || i >= tokens.len() {
        Ok(Seq::empty())
    } else {
        match step(bindings, tokens, i) {
            Step::Emit { expression, width } => emitted_before(
                seq![expression],
                assemble_from(bindings, tokens, i + width),
            ),
            Step::Skip => assemble_from(bindings, tokens, i + 1),
            Step::Reject { error } => Err(error),
        }
    }
}

/// The outcome of the assembly pass on the whole of `tokens`.
pub open spec fn assemble(bindings: Map<Seq<char>, u16>, tokens: Seq<TokenView>) -> Outcome {
    assemble_from(bindings, tokens, 0)
}

/// Each instruction gives one expression: an address instruction is one
/// token, a compute instruction is a destination and its computation, or a
/// computation and its jump.
pub proof fn lemma_one_instruction(
    bindings: Map<Seq<char>, u16>,
    name: Seq<char>,
    address: u16,
    destination: Seq<char>,
    computation: Seq<char>,
    jump: Seq<char>,
)
    ensures
        assemble(bindings, seq![TokenView::AddressLiteral(address)]) == Outcome::Ok(
            seq![ExpressionView::Address(address)],
        ),
        bindings.contains_key(name) ==> assemble(bindings, seq![TokenView::AddressSymbol(name)])
            == Outcome::Ok(seq![ExpressionView::Address(bindings[name])]),
        assemble(
            bindings,
            seq![TokenView::Destination(destination), TokenView::Computation(computation)],
        ) == Outcome::Ok(seq![ExpressionView::Compute { destination, computation }]),
        assemble(bindings, seq![TokenView::Computation(computation), TokenView::Jump(jump)])
            == Outcome::Ok(seq![ExpressionView::ComputeJump { computation, jump }]),
{
    reveal_with_fuel(assemble_from, 2);
    let nothing = Seq::<ExpressionView>::empty();
    let literal = seq![TokenView::AddressLiteral(address)];
    assert(literal[0] == TokenView::AddressLiteral(address));
    let loaded = seq![ExpressionView::Address(address)];
    assert(loaded + nothing =~= loaded);
    if bindings.contains_key(name) {
        let symbol = seq![TokenView::AddressSymbol(name)];
        assert(symbol[0] == TokenView::AddressSymbol(name));
        let resolved = seq![ExpressionView::Address(bindings[name])];
        assert(resolved + nothing =~= resolved);
    }
    let store = seq![TokenView::Destination(destination), TokenView::Computation(computation)];
    assert(store[0] == TokenView::Destination(destination));
    assert(store[1] == TokenView::Computation(computation));
    let stored = seq![ExpressionView::Compute { destination, computation }];
    assert(stored + nothing =~= stored);
    let branch = seq![TokenView::Computation(computation), TokenView::Jump(jump)];
    assert(branch[0] == TokenView::Computation(computation));
    assert(branch[1] == TokenView::Jump(jump));
    let branched = seq![ExpressionView::ComputeJump { computation, jump }];
    assert(branched + nothing =~= branched);
}

/// Whether the grammar passes over `token` without emitting anything for it.
pub open spec fn emits_nothing(token: TokenView) -> bool {
    token is InstructionEnd || token is LabelDeclaration
}

/// A step that is not rejected in `first` is the same step with `second` behind it.
proof fn lemma_step_with_suffix(
    bindings: Map<Seq<char>, u16>,
    first: Seq<TokenView>,
    second: Seq<TokenView>,
    i: int,
)
    requires
        0 <= i < first.len(),
        !(step(bindings, first, i) is Reject),
    ensures
        step(bindings, first + second, i) == step(bindings, first, i),
{
    assert((first + second)[i] == first[i]);
    if i + 1 < first.len() {
        assert((first + second)[i + 1] == first[i + 1]);
    }
}

/// The step at index `j` of `second` is the step at that token behind `first`,
/// but for the index that a rejection reports.
proof fn lemma_step_with_prefix(
    bindings: Map<Seq<char>, u16>,
    first: Seq<TokenView>,
    second: Seq<TokenView>,
    j: int,
)
    requires
        0 <= j < second.len(),
    ensures
        step(bindings, second, j) is Reject ==> step(bindings, first + second, first.len() + j)
            is Reject,
        !(step(bindings, second, j) is Reject) ==> step(bindings, first + second, first.len() + j)
            == step(bindings, second, j),
{
    assert((first + second)[first.len() + j] == second[j]);
    if j + 1 < second.len() {
        assert((first + second)[first.len() + j + 1] == second[j + 1]);
    }
}

/// Where `first` assembles from index `i` on, the stream with `second` behind
/// it gives the same expressions up to the end of `first`.
proof fn lemma_assemble_prefix(
    bindings: Map<Seq<char>, u16>,
    first: Seq<TokenView>,
    second: Seq<TokenView>,
    i: int,
)
    requires
        0 <= i <= first.len(),
        assemble_from(bindings, first, i) is Ok,
    ensures
        assemble_from(bindings, first + second, i) == emitted_before(
            assemble_from(bindings, first, i)->Ok_0,
            assemble_from(bindings, first + second, first.len() as int),
        ),
    decreases first.len() - i,
{
    let whole = first + second;
    let rest = assemble_from(bindings, whole, first.len() as int);
    if i == first.len() {
        if let Ok(expressions) = rest {
            assert(Seq::<ExpressionView>::empty() + expressions =~= expressions);
        }
    } else {
        lemma_step_with_suffix(bindings, first, second, i);
        match step(bindings, first, i) {
            Step::Emit { expression, width } => {
                lemma_assemble_prefix(bindings, first, second, i + width);
                let tail = assemble_from(bindings, first, i + width)->Ok_0;
                if let Ok(expressions) = rest {
                    assert(seq![expression] + (tail + expressions) =~= (seq![expression] + tail)
                        + expressions);
                }
            },
            Step::Skip => {
                lemma_assemble_prefix(bindings, first, second, i + 1);
            },
            Step::Reject { .. } => {},
        }
    }
}

/// Behind `first`, `second` gives from index `j` on the expressions it gives
/// alone, and fails where it fails alone.
proof fn lemma_assemble_suffix(
    bindings: Map<Seq<char>, u16>,
    first: Seq<TokenView>,
    second: Seq<TokenView>,
    j: int,
)
    requires
        0 <= j <= second.len(),
    ensures
        match assemble_from(bindings, second, j) {
            Ok(expressions) => assemble_from(bindings, first + second, first.len() + j)
                == Outcome::Ok(expressions),
            Err(_) => assemble_from(bindings, first + second, first.len() + j) is Err,
        },
    decreases second.len() - j,
{
    if j < second.len() {
        lemma_step_with_prefix(bindings, first, second, j);
        match step(bindings, second, j) {
            Step::Emit { expression, width } => {
                lemma_assemble_suffix(bindings, first, second, j + width);
            },
            Step::Skip => {
                lemma_assemble_suffix(bindings, first, second, j + 1);
            },
            Step::Reject { .. } => {},
        }
    }
}

/// Expressions come out in the order of the tokens they come from: where
/// `first` assembles, the stream `first + second` gives the expressions of
/// `first` and then those of `second`, and fails if `second` fails.
pub proof fn lemma_assemble_concat(
    bindings: Map<Seq<char>, u16>,
    first: Seq<TokenView>,
    second: Seq<TokenView>,
)
    requires
        assemble(bindings, first) is Ok,
    ensures
        match assemble(bindings, second) {
            Ok(expressions) => assemble(bindings, first + second) == Outcome::Ok(
                assemble(bindings, first)->Ok_0 + expressions,
            ),
            Err(_) => assemble(bindings, first + second) is Err,
        },
{
    lemma_assemble_prefix(bindings, first, second, 0);
    lemma_assemble_suffix(bindings, first, second, 0);
}

/// The pass cannot get past a symbol that is not bound.
proof fn lemma_unbound_blocks(
    bindings: Map<Seq<char>, u16>,
    tokens: Seq<TokenView>,
    i: int,
    j: int,
)
    requires
        0 <= j <= i < tokens.len(),
        tokens[i] matches TokenView::AddressSymbol(name) && !bindings.contains_key(name),
    ensures
        assemble_from(bindings, tokens, j) is Err,
    decreases i - j,
{
    if j < i {
        match step(bindings, tokens, j) {
            Step::Emit { expression, width } => {
                lemma_unbound_blocks(bindings, tokens, i, j + width);
            },
            Step::Skip => {
                lemma_unbound_blocks(bindings, tokens, i, j + 1);
            },
            Step::Reject { .. } => {},
        }
    }
}

/// An unresolved symbol is fatal: a stream in which an address instruction
/// names a symbol that is not bound never assembles. Where the tokens before
/// that instruction assemble, the failure is this unresolved symbol.
pub proof fn lemma_unresolved_symbol(
    bindings: Map<Seq<char>, u16>,
    tokens: Seq<TokenView>,
    i: int,
)
    requires
        0 <= i < tokens.len(),
        tokens[i] matches TokenView::AddressSymbol(name) && !bindings.contains_key(name),
    ensures
        assemble(bindings, tokens) is Err,
        assemble(bindings, tokens.take(i)) is Ok ==> assemble(bindings, tokens) == Outcome::Err(
            ParseError::UnresolvedSymbol { index: i as usize },
        ),
{
    lemma_unbound_blocks(bindings, tokens, i, 0);
    if assemble(bindings, tokens.take(i)) is Ok {
        assert(tokens.take(i) + tokens.skip(i) =~= tokens);
        lemma_assemble_prefix(bindings, tokens.take(i), tokens.skip(i), 0);
    }
}

/// From any index on, a run of labels and separators gives nothing.
proof fn lemma_nothing_from(bindings: Map<Seq<char>, u16>, gap: Seq<TokenView>, i: int)
    requires
        forall|k: int| 0 <= k < gap.len() ==> emits_nothing(#[trigger] gap[k]),
    ensures
        assemble_from(bindings, gap, i) == Outcome::Ok(Seq::empty()),
    decreases gap.len() - i,
{
    if 0 <= i < gap.len() {
        assert(emits_nothing(gap[i]));
        lemma_nothing_from(bindings, gap, i + 1);
    }
}

/// Labels and separators give no expression: a run of them assembles to the
/// empty sequence.
pub proof fn lemma_assemble_nothing(bindings: Map<Seq<char>, u16>, gap: Seq<TokenView>)
    requires
        forall|k: int| 0 <= k < gap.len() ==> emits_nothing(#[trigger] gap[k]),
    ensures
        assemble(bindings, gap) == Outcome::Ok(Seq::empty()),
{
    lemma_nothing_from(bindings, gap, 0);
}

/// Labels and separators between two instructions add no expression and leave
/// the order of the others as it is: with any run of them between `first` and
/// `second`, the stream gives the expressions of `first` and then those of
/// `second`.
pub proof fn lemma_order_preserved(
    bindings: Map<Seq<char>, u16>,
    first: Seq<TokenView>,
    gap: Seq<TokenView>,
    second: Seq<TokenView>,
)
    requires
        assemble(bindings, first) is Ok,
        assemble(bindings, second) is Ok,
        forall|k: int| 0 <= k < gap.len() ==> emits_nothing(#[trigger] gap[k]),
    ensures
        assemble(bindings, first + gap + second) == Outcome::Ok(
            assemble(bindings, first)->Ok_0 + assemble(bindings, second)->Ok_0,
        ),
{
    let before = assemble(bindings, first)->Ok_0;
    let after = assemble(bindings, second)->Ok_0;
    lemma_assemble_nothing(bindings, gap);
    lemma_assemble_concat(bindings, first, gap);
    lemma_assemble_concat(bindings, first + gap, second);
    assert(before + Seq::<ExpressionView>::empty() + after =~= before + after);
}

} // verus!
