//! Parsing: building an abstract syntax tree from a token sequence by
//! precedence climbing.

use vstd::prelude::*;
use crate::lexer::{Op, Operator, SpecToken, Token, spec_priority, tokens_view};

verus! {

broadcast use vstd::seq::axiom_seq_index_decreases, vstd::seq::axiom_seq_subrange_decreases, vstd::std_specs::vec::axiom_vec_index_decreases;

/// A node of the abstract syntax tree.
///
/// The parser builds only `Id`, `Lit` and `BinOp` nodes today; the other
/// variants complete the tree vocabulary for later language growth and no
/// parsing rule produces them yet. Every non-leaf node owns its children
/// outright, and a finished tree is never mutated.
#[derive(Debug, PartialEq)]
pub enum AST {
    Id(String),
    Lit(String),
    BinOp { op: Op, left: Box<AST>, right: Box<AST> },
    UnOp { op: Op, right: Box<AST> },
    IfClause { condition: Box<AST>, if_body: Box<AST>, else_body: Option<Box<AST>> },
    Function { id: Box<AST>, body: Box<AST> },
    Call { id: Box<AST>, args: Vec<Box<AST>> },
}

/// The mathematical shadow of an [`AST`]: the same shape with text as
/// character sequences and child lists as sequences.
pub enum SpecAst {
    Id(Seq<char>),
    Lit(Seq<char>),
    BinOp { op: Op, left: Box<SpecAst>, right: Box<SpecAst> },
    UnOp { op: Op, right: Box<SpecAst> },
    IfClause { condition: Box<SpecAst>, if_body: Box<SpecAst>, else_body: Option<Box<SpecAst>> },
    Function { id: Box<SpecAst>, body: Box<SpecAst> },
    Call { id: Box<SpecAst>, args: Seq<SpecAst> },
}

/// The shadow of a list of owned subtrees, element by element.
pub open spec fn view_ast_list(l: Seq<Box<AST>>) -> Seq<SpecAst>
    decreases l,
{
    if l.len() == 0 {
        Seq::empty()
    } else {
        seq![(*l[0]).view()] + view_ast_list(l.drop_first())
    }
}

impl View for AST {
    type V = SpecAst;

    open spec fn view(&self) -> SpecAst
        decreases self,
    {
        match self {
            AST::Id(s) => SpecAst::Id(s@),
            AST::Lit(s) => SpecAst::Lit(s@),
            AST::BinOp { op, left, right } => SpecAst::BinOp {
                op: *op,
                left: Box::new((**left)@),
                right: Box::new((**right)@),
            },
            AST::UnOp { op, right } => SpecAst::UnOp { op: *op, right: Box::new((**right)@) },
            AST::IfClause { condition, if_body, else_body } => SpecAst::IfClause {
                condition: Box::new((**condition)@),
                if_body: Box::new((**if_body)@),
                else_body: match else_body {
                    Some(e) => Some(Box::new((**e)@)),
                    None => None,
                },
            },
            AST::Function { id, body } => SpecAst::Function {
                id: Box::new((**id)@),
                body: Box::new((**body)@),
            },
            AST::Call { id, args } => SpecAst::Call {
                id: Box::new((**id)@),
                args: view_ast_list(args@),
            },
        }
    }
}

/// Why parsing failed.
///
/// `ExpectedOperand` reports a position where an operand was due but the
/// input ended or held a token that is neither identifier, literal nor
/// opening bracket. `ExpectedOperator` reports a token after an operand
/// that is no operator.
#[derive(Debug, PartialEq, Eq, Copy, Clone)]
pub enum ParseError {
    ExpectedOperand,
    ExpectedOperator,
}

/// Whether the parser looks at a token at all: comments and the two-space
/// marker are dropped from the stream before parsing.
pub open spec fn is_significant(t: SpecToken) -> bool {
    !(t is Comm || t is Tab)
}

/// The tokens of `ts` from `i` on that the parser looks at, in order.
pub open spec fn spec_strip_from(ts: Seq<SpecToken>, i: int) -> Seq<SpecToken>
    decreases ts.len() - i,
{
    if i < 0 || i >= ts.len() {
        Seq::empty()
    } else if is_significant(ts[i]) {
        seq![ts[i]] + spec_strip_from(ts, i + 1)
    } else {
        spec_strip_from(ts, i + 1)
    }
}

/// The meaning of parsing one operand at position `i`: an identifier or a
/// literal becomes a leaf, an opening bracket opens a full binary
/// expression, and anything else — or the end of the input — is a failure.
///
/// `fuel` only bounds the depth of the definition's recursion; every level
/// consumes at least one token, so any fuel above the number of tokens left
/// is enough for the result never to reach the exhausted case.
pub open spec fn spec_parse_operand(v: Seq<SpecToken>, i: int, fuel: nat) -> Result<
    (SpecAst, int),
    ParseError,
>
    decreases fuel,
{
    if fuel == 0 {
        arbitrary()
    } else if i < 0 || i >= v.len() {
        Err(ParseError::ExpectedOperand)
    } else {
        match v[i] {
            SpecToken::Id(s) => Ok((SpecAst::Id(s), i + 1)),
            SpecToken::Lit(s) => Ok((SpecAst::Lit(s), i + 1)),
            SpecToken::LeftBracket => match spec_parse_operand(v, i + 1, (fuel - 1) as nat) {
                Ok((left, j)) => spec_parse_bin_op(v, left, j, (fuel - 1) as nat),
                Err(e) => Err(e),
            },
            _ => Err(ParseError::ExpectedOperand),
        }
    }
}

/// The meaning of parsing a binary expression whose left operand `left` is
/// already built: the token at `i` must be an operator; one operand is
/// parsed as its right-hand side; a following operator of strictly higher
/// priority first builds the tighter-bound subtree on the right, one of
/// equal or lower priority chains to the left; a following closing bracket
/// ends the grouping level, and the end of the input ends the expression.
pub open spec fn spec_parse_bin_op(v: Seq<SpecToken>, left: SpecAst, i: int, fuel: nat) -> Result<
    (SpecAst, int),
    ParseError,
>
    decreases fuel,
{
    if fuel == 0 {
        arbitrary()
    } else if i < 0 || i >= v.len() {
        Err(ParseError::ExpectedOperator)
    } else {
        match v[i] {
            SpecToken::Op(op) => match spec_parse_operand(v, i + 1, (fuel - 1) as nat) {
                Err(e) => Err(e),
                Ok((right, j)) => {
                    if 0 <= j < v.len() {
                        match v[j] {
                            SpecToken::Op(next_op) => {
                                if spec_priority(op) < spec_priority(next_op) {
                                    match spec_parse_bin_op(v, right, j, (fuel - 1) as nat) {
                                        Err(e) => Err(e),
                                        Ok((right2, k)) => spec_parse_continue(
                                            v,
                                            SpecAst::BinOp {
                                                op,
                                                left: Box::new(left),
                                                right: Box::new(right2),
                                            },
                                            k,
                                            (fuel - 1) as nat,
                                        ),
                                    }
                                } else {
                                    spec_parse_continue(
                                        v,
                                        SpecAst::BinOp {
                                            op,
                                            left: Box::new(left),
                                            right: Box::new(right),
                                        },
                                        j,
                                        (fuel - 1) as nat,
                                    )
                                }
                            },
                            SpecToken::RightBracket => Ok(
                                (
                                    SpecAst::BinOp {
                                        op,
                                        left: Box::new(left),
                                        right: Box::new(right),
                                    },
                                    j + 1,
                                ),
                            ),
                            _ => Ok(
                                (
                                    SpecAst::BinOp {
                                        op,
                                        left: Box::new(left),
                                        right: Box::new(right),
                                    },
                                    j,
                                ),
                            ),
                        }
                    } else {
                        Ok(
                            (
                                SpecAst::BinOp { op, left: Box::new(left), right: Box::new(right) },
                                j,
                            ),
                        )
                    }
                },
            },
            _ => Err(ParseError::ExpectedOperator),
        }
    }
}

/// What follows a finished binary node: a closing bracket ends this
/// grouping level, the end of the input ends the expression, and any other
/// token continues the chain with the node as the new left operand.
pub open spec fn spec_parse_continue(v: Seq<SpecToken>, left: SpecAst, i: int, fuel: nat) -> Result<
    (SpecAst, int),
    ParseError,
>
    decreases fuel,
{
    if fuel == 0 {
        arbitrary()
    } else if 0 <= i < v.len() {
        if v[i] is RightBracket {
            Ok((left, i + 1))
        } else {
            spec_parse_bin_op(v, left, i, (fuel - 1) as nat)
        }
    } else {
        Ok((left, i))
    }
}

/// The meaning of parsing a whole token stream: comments and two-space
/// markers are dropped; one operand is parsed; if it exhausts the stream it
/// is the tree, and otherwise a binary expression is parsed around it. A
/// token left over after the expression ends is ignored, as the scan-ahead
/// stops at it.
pub open spec fn spec_create_ast(ts: Seq<SpecToken>) -> Result<SpecAst, ParseError> {
    let v = spec_strip_from(ts, 0);
    let fuel = (v.len() + 1) as nat;
    match spec_parse_operand(v, 0, fuel) {
        Err(e) => Err(e),
        Ok((left, i)) => {
            if i >= v.len() {
                Ok(left)
            } else {
                match spec_parse_bin_op(v, left, i, fuel) {
                    Err(e) => Err(e),
                    Ok((ast, j)) => Ok(ast),
                }
            }
        },
    }
}

/// The view of what [`create_ast`] returns.
pub open spec fn ast_result_view(r: Result<AST, ParseError>) -> Result<SpecAst, ParseError> {
    match r {
        Ok(a) => Ok(a@),
        Err(e) => Err(e),
    }
}

/// Every parsing level consumes at least one token, so the exact fuel does
/// not matter once it exceeds the number of tokens left: any two such
/// fuels give one and the same operand parse, and a successful parse moves
/// the position strictly forward and never past the end.
pub proof fn lemma_parse_operand_fuel(v: Seq<SpecToken>, i: int, f1: nat, f2: nat)
    requires
        0 <= i,
        f1 >= v.len() - i + 1,
        f1 >= 1,
        f2 >= v.len() - i + 1,
        f2 >= 1,
    ensures
        spec_parse_operand(v, i, f1) == spec_parse_operand(v, i, f2),
        spec_parse_operand(v, i, f1) matches Ok((a, j)) ==> i < j <= v.len(),
    decreases f1 + f2, 0int,
{
    if i < v.len() && v[i] is LeftBracket {
        lemma_parse_operand_fuel(v, i + 1, (f1 - 1) as nat, (f2 - 1) as nat);
        if let Ok((left, j)) = spec_parse_operand(v, i + 1, (f1 - 1) as nat) {
            lemma_parse_bin_op_fuel(v, left, j, (f1 - 1) as nat, (f2 - 1) as nat);
        }
    }
}

/// The companion of [`lemma_parse_operand_fuel`] for a binary expression:
/// above the number of tokens left, the fuel is immaterial, and success
/// moves the position strictly forward and never past the end.
pub proof fn lemma_parse_bin_op_fuel(v: Seq<SpecToken>, left: SpecAst, i: int, f1: nat, f2: nat)
    requires
        0 <= i,
        f1 >= v.len() - i + 1,
        f1 >= 1,
        f2 >= v.len() - i + 1,
        f2 >= 1,
    ensures
        spec_parse_bin_op(v, left, i, f1) == spec_parse_bin_op(v, left, i, f2),
        spec_parse_bin_op(v, left, i, f1) matches Ok((a, j)) ==> i < j <= v.len(),
    decreases f1 + f2, 1int,
{
    if i < v.len() && v[i] is Op {
        let op = v[i]->Op_0;
        lemma_parse_operand_fuel(v, i + 1, (f1 - 1) as nat, (f2 - 1) as nat);
        if let Ok((right, j)) = spec_parse_operand(v, i + 1, (f1 - 1) as nat) {
            if 0 <= j < v.len() && v[j] is Op {
                let next_op = v[j]->Op_0;
                if spec_priority(op) < spec_priority(next_op) {
                    lemma_parse_bin_op_fuel(v, right, j, (f1 - 1) as nat, (f2 - 1) as nat);
                    if let Ok((right2, k)) = spec_parse_bin_op(v, right, j, (f1 - 1) as nat) {
                        lemma_parse_continue_fuel(
                            v,
                            SpecAst::BinOp { op, left: Box::new(left), right: Box::new(right2) },
                            k,
                            (f1 - 1) as nat,
                            (f2 - 1) as nat,
                        );
                    }
                } else {
                    lemma_parse_continue_fuel(
                        v,
                        SpecAst::BinOp { op, left: Box::new(left), right: Box::new(right) },
                        j,
                        (f1 - 1) as nat,
                        (f2 - 1) as nat,
                    );
                }
            }
        }
    }
}

/// The companion of [`lemma_parse_operand_fuel`] for carrying a finished
/// node forward: above the number of tokens left plus one, the fuel is
/// immaterial, and the position never moves backward nor past the end.
pub proof fn lemma_parse_continue_fuel(v: Seq<SpecToken>, left: SpecAst, i: int, f1: nat, f2: nat)
    requires
        0 <= i <= v.len(),
        f1 >= v.len() - i + 2,
        f2 >= v.len() - i + 2,
    ensures
        spec_parse_continue(v, left, i, f1) == spec_parse_continue(v, left, i, f2),
        spec_parse_continue(v, left, i, f1) matches Ok((a, j)) ==> i <= j <= v.len(),
    decreases f1 + f2, 2int,
{
    if i < v.len() && !(v[i] is RightBracket) {
        lemma_parse_bin_op_fuel(v, left, i, (f1 - 1) as nat, (f2 - 1) as nat);
    }
}

/// A stream holding nothing but one identifier or one numeric literal
/// parses to that single leaf, a node with no children.
pub proof fn lemma_single_leaf(t: SpecToken)
    requires
        t is Id || t is Lit,
    ensures
        t matches SpecToken::Id(name) ==> spec_create_ast(seq![t]) == Ok::<SpecAst, ParseError>(
            SpecAst::Id(name),
        ),
        t matches SpecToken::Lit(text) ==> spec_create_ast(seq![t]) == Ok::<SpecAst, ParseError>(
            SpecAst::Lit(text),
        ),
{
    assert(spec_strip_from(seq![t], 1) =~= Seq::<SpecToken>::empty());
    assert(spec_strip_from(seq![t], 0) =~= seq![t]);
    assert(seq![t][0] == t);
}

/// Parses exactly one operand at position `i`, as [`spec_parse_operand`]
/// says: a leaf for an identifier or literal, a bracketed binary expression
/// for an opening bracket, and the operand failure otherwise.
fn parse_next_operand(v: &Vec<Token>, i: usize, Ghost(fuel): Ghost<nat>) -> (r: Result<
    (AST, usize),
    ParseError,
>)
    requires
        fuel >= 1,
        fuel >= v@.len() - i + 1,
    ensures
        r matches Ok((a, j)) ==> spec_parse_operand(tokens_view(v@), i as int, fuel) == Ok::<
            (SpecAst, int),
            ParseError,
        >((a@, j as int)) && i < j <= v@.len(),
        r matches Err(e) ==> spec_parse_operand(tokens_view(v@), i as int, fuel) == Err::<
            (SpecAst, int),
            ParseError,
        >(e),
    decreases v@.len() - i, 0int,
{
    if i >= v.len() {
        return Err(ParseError::ExpectedOperand);
    }
    match &v[i] {
        Token::Id(s) => Ok((AST::Id(s.clone()), i + 1)),
        Token::Lit(s) => Ok((AST::Lit(s.clone()), i + 1)),
        Token::LeftBracket => match parse_next_operand(v, i + 1, Ghost((fuel - 1) as nat)) {
            Ok((left, j)) => parse_bin_op(v, left, j, Ghost((fuel - 1) as nat)),
            Err(e) => Err(e),
        },
        _ => Err(ParseError::ExpectedOperand),
    }
}

/// Parses a binary expression around the already-built left operand, as
/// [`spec_parse_bin_op`] says: an operator, its right operand, then either
/// a tighter-binding chain on the right, a left-leaning continuation, the
/// end of the grouping level, or the end of the expression.
fn parse_bin_op(v: &Vec<Token>, left: AST, i: usize, Ghost(fuel): Ghost<nat>) -> (r: Result<
    (AST, usize),
    ParseError,
>)
    requires
        fuel >= 1,
        fuel >= v@.len() - i + 1,
    ensures
        r matches Ok((a, j)) ==> spec_parse_bin_op(tokens_view(v@), left@, i as int, fuel) == Ok::<
            (SpecAst, int),
            ParseError,
        >((a@, j as int)) && i < j <= v@.len(),
        r matches Err(e) ==> spec_parse_bin_op(tokens_view(v@), left@, i as int, fuel) == Err::<
            (SpecAst, int),
            ParseError,
        >(e),
    decreases v@.len() - i, 1int,
{
    if i >= v.len() {
        return Err(ParseError::ExpectedOperator);
    }
    let op: Op = match &v[i] {
        Token::Op(x) => *x,
        _ => {
            return Err(ParseError::ExpectedOperator);
        },
    };
    let (right, j) = match parse_next_operand(v, i + 1, Ghost((fuel - 1) as nat)) {
        Ok(p) => p,
        Err(e) => {
            return Err(e);
        },
    };
    if j < v.len() {
        match &v[j] {
            Token::Op(x) => {
                let next_op: Op = *x;
                if op.priority() < next_op.priority() {
                    match parse_bin_op(v, right, j, Ghost((fuel - 1) as nat)) {
                        Ok((right2, k)) => {
                            let node = AST::BinOp {
                                op,
                                left: Box::new(left),
                                right: Box::new(right2),
                            };
                            parse_continue(v, node, k, Ghost((fuel - 1) as nat))
                        },
                        Err(e) => Err(e),
                    }
                } else {
                    let node = AST::BinOp { op, left: Box::new(left), right: Box::new(right) };
                    parse_continue(v, node, j, Ghost((fuel - 1) as nat))
                }
            },
            Token::RightBracket => Ok(
                (AST::BinOp { op, left: Box::new(left), right: Box::new(right) }, j + 1),
            ),
            _ => Ok((AST::BinOp { op, left: Box::new(left), right: Box::new(right) }, j)),
        }
    } else {
        Ok((AST::BinOp { op, left: Box::new(left), right: Box::new(right) }, j))
    }
}

/// Carries a finished binary node past what follows it, as
/// [`spec_parse_continue`] says: a closing bracket ends the grouping level,
/// the end of the input ends the expression, and any other token continues
/// the chain with the node as the new left operand.
fn parse_continue(v: &Vec<Token>, left: AST, i: usize, Ghost(fuel): Ghost<nat>) -> (r: Result<
    (AST, usize),
    ParseError,
>)
    requires
        fuel >= 1,
        fuel >= v@.len() - i + 2,
        i <= v@.len(),
    ensures
        r matches Ok((a, j)) ==> spec_parse_continue(tokens_view(v@), left@, i as int, fuel)
            == Ok::<(SpecAst, int), ParseError>((a@, j as int)) && i <= j <= v@.len(),
        r matches Err(e) ==> spec_parse_continue(tokens_view(v@), left@, i as int, fuel) == Err::<
            (SpecAst, int),
            ParseError,
        >(e),
    decreases v@.len() - i, 2int,
{
    proof {
        assert(tokens_view(v@).len() == v@.len());
        if i < v@.len() {
            assert(tokens_view(v@)[i as int] == v@[i as int]@);
        }
    }
    if i < v.len() {
        let is_close = match &v[i] {
            Token::RightBracket => true,
            _ => false,
        };
        if is_close {
            Ok((left, i + 1))
        } else {
            parse_bin_op(v, left, i, Ghost((fuel - 1) as nat))
        }
    } else {
        Ok((left, i))
    }
}

/// Builds the abstract syntax tree of a token stream, as
/// [`spec_create_ast`] says of the stream's view: comment and two-space
/// tokens are dropped, a lone operand is the tree itself, and otherwise the
/// stream parses as one binary expression by precedence climbing.
pub fn create_ast(tokens: Vec<Token>) -> (r: Result<AST, ParseError>)
    ensures
        ast_result_view(r) == spec_create_ast(tokens_view(tokens@)),
{
    let ghost ts = tokens_view(tokens@);
    let mut v: Vec<Token> = Vec::new();
    let mut idx: usize = 0;
    proof {
        assert(tokens_view(v@) =~= Seq::<SpecToken>::empty());
        assert(Seq::<SpecToken>::empty() + spec_strip_from(ts, 0) =~= spec_strip_from(ts, 0));
    }
    while idx < tokens.len()
        invariant
            idx <= tokens@.len(),
            ts == tokens_view(tokens@),
            tokens_view(v@) + spec_strip_from(ts, idx as int) == spec_strip_from(ts, 0),
        decreases tokens@.len() - idx,
    {
        let keep = match &tokens[idx] {
            Token::Comm(_) => false,
            Token::Tab => false,
            _ => true,
        };
        let ghost old_view = tokens_view(v@);
        if keep {
            let t = tokens[idx].clone();
            v.push(t);
            proof {
                assert(tokens_view(v@) =~= old_view.push(ts[idx as int]));
                assert(old_view.push(ts[idx as int]) + spec_strip_from(ts, idx + 1) =~= old_view
                    + (seq![ts[idx as int]] + spec_strip_from(ts, idx + 1)));
            }
        }
        idx = idx + 1;
    }
    proof {
        assert(spec_strip_from(ts, tokens@.len() as int) =~= Seq::<SpecToken>::empty());
        assert(tokens_view(v@) + Seq::<SpecToken>::empty() =~= tokens_view(v@));
    }
    let ghost fuel = (tokens_view(v@).len() + 1) as nat;
    match parse_next_operand(&v, 0, Ghost(fuel)) {
        Err(e) => Err(e),
        Ok((left, i)) => {
            if i >= v.len() {
                Ok(left)
            } else {
                match parse_bin_op(&v, left, i, Ghost(fuel)) {
                    Err(e) => Err(e),
                    Ok((ast, _)) => Ok(ast),
                }
            }
        },
    }
}

} // verus!
