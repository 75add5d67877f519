//! Compiled pattern/template operator trees, rules, and rule sets.

use vstd::prelude::*;
use crate::{Leaf, LeafModel, Ident, Punct, Literal, DelimiterKind};

verus! {

broadcast use vstd::std_specs::vec::group_vec_axioms;

/// The fragment sub-grammar a metavariable is constrained by.
#[derive(Clone, Copy, PartialEq, Eq, Structural, Debug)]
pub enum MetaVarKind {
    Ident,
    Ty,
    Tt,
    Vis,
    Pat,
    Path,
    Literal,
    Expr,
    Lifetime,
    Block,
    Item,
    Meta,
}

/// The repetition operator of a `Repeat` node.
#[derive(Clone, Copy, PartialEq, Eq, Structural, Debug)]
pub enum RepeatKind {
    ZeroOrMore,
    OneOrMore,
    ZeroOrOne,
}

/// The separator of a repetition: a literal, an identifier, or a short
/// sequence of punctuation tokens.
pub enum Separator {
    Literal(Literal),
    Ident(Ident),
    Puncts(Vec<Punct>),
}

/// A compiled pattern/template node.
pub enum Op {
    Leaf(Leaf),
    Var { name: String, kind: Option<MetaVarKind> },
    Subtree { tokens: Vec<Op>, delimiter: Option<DelimiterKind> },
    Repeat { tokens: Vec<Op>, kind: RepeatKind, separator: Option<Separator> },
}

/// One pattern -> template arm.
pub struct Rule {
    pub lhs: Vec<Op>,
    pub rhs: Vec<Op>,
}

/// An ordered rule set; declaration order decides dispatch.
pub struct MacroRules {
    pub rules: Vec<Rule>,
}

/// Mathematical model of a separator.
#[verifier::ext_equal]
pub enum SepModel {
    Lit { text: Seq<char> },
    Id { text: Seq<char> },
    Puncts { chs: Seq<Punct> },
}

/// Mathematical model of a compiled operator node.
#[verifier::ext_equal]
pub enum OpModel {
    Leaf(LeafModel),
    Var { name: Seq<char>, kind: Option<MetaVarKind> },
    Sub { tokens: Seq<OpModel>, delimiter: Option<DelimiterKind> },
    Repeat { tokens: Seq<OpModel>, rkind: RepeatKind, sep: Option<SepModel> },
}

/// Mathematical model of a rule.
#[verifier::ext_equal]
pub struct RuleModel {
    pub lhs: Seq<OpModel>,
    pub rhs: Seq<OpModel>,
}

impl Separator {
    pub open spec fn model(self) -> SepModel {
        match self {
            Separator::Literal(l) => SepModel::Lit { text: l.text@ },
            Separator::Ident(i) => SepModel::Id { text: i.text@ },
            Separator::Puncts(ps) => SepModel::Puncts { chs: ps@ },
        }
    }
}

impl Op {
    pub open spec fn model(self) -> OpModel
        decreases self,
    {
        match self {
            Op::Leaf(l) => OpModel::Leaf(l.model()),
            Op::Var { name, kind } => OpModel::Var { name: name@, kind },
            Op::Subtree { tokens, delimiter } => OpModel::Sub {
                tokens: op_models_of(tokens@),
                delimiter,
            },
            Op::Repeat { tokens, kind, separator } => OpModel::Repeat {
                tokens: op_models_of(tokens@),
                rkind: kind,
                sep: match separator {
                    Some(s) => Some(s.model()),
                    None => None,
                },
            },
        }
    }
}

/// The models of a sequence of operator nodes, in order.
pub open spec fn op_models_of(ops: Seq<Op>) -> Seq<OpModel>
    decreases ops,
{
    if ops.len() == 0 {
        Seq::empty()
    } else {
        seq![ops[0].model()] + op_models_of(ops.drop_first())
    }
}

/// `op_models_of` is the pointwise model of its argument.
pub broadcast proof fn lemma_op_models_of(ops: Seq<Op>)
    ensures
        (#[trigger] op_models_of(ops)).len() == ops.len(),
        forall|i: int| 0 <= i < ops.len() ==> op_models_of(ops)[i] == ops[i].model(),
    decreases ops,
{
    if ops.len() > 0 {
        lemma_op_models_of(ops.drop_first());
    }
}

impl Rule {
    pub open spec fn model(self) -> RuleModel {
        RuleModel { lhs: op_models_of(self.lhs@), rhs: op_models_of(self.rhs@) }
    }
}

/// The models of a sequence of rules, in order.
pub open spec fn rule_models_of(rs: Seq<Rule>) -> Seq<RuleModel> {
    Seq::new(rs.len(), |i: int| rs[i].model())
}

impl MacroRules {
    pub open spec fn model(self) -> Seq<RuleModel> {
        rule_models_of(self.rules@)
    }
}

/// `a - b`, floored at zero.
pub open spec fn natsub(a: int, b: int) -> nat {
    if a >= b {
        (a - b) as nat
    } else {
        0
    }
}

/// The combined size of the operator nodes `ops[oi..]`; the termination
/// measure of the matcher and the expander.
pub open spec fn ops_size_from(ops: Seq<OpModel>, oi: int) -> nat
    decreases ops, natsub(ops.len() as int, oi),
{
    if oi < 0 || oi >= ops.len() {
        0
    } else {
        (match ops[oi] {
            OpModel::Sub { tokens, .. } => 2 + ops_size_from(tokens, 0),
            OpModel::Repeat { tokens, .. } => 3 + ops_size_from(tokens, 0),
            _ => 1nat,
        }) + ops_size_from(ops, oi + 1)
    }
}

/// The metavariable names occurring in `ops[oi..]`, in order, descending
/// into subtrees and repetitions.
pub open spec fn var_names_from(ops: Seq<OpModel>, oi: int) -> Seq<Seq<char>>
    decreases ops, natsub(ops.len() as int, oi),
{
    if oi < 0 || oi >= ops.len() {
        Seq::empty()
    } else {
        (match ops[oi] {
            OpModel::Var { name, .. } => seq![name],
            OpModel::Sub { tokens, .. } => var_names_from(tokens, 0),
            OpModel::Repeat { tokens, .. } => var_names_from(tokens, 0),
            _ => Seq::empty(),
        }) + var_names_from(ops, oi + 1)
    }
}

} // verus!
