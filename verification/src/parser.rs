//! The pattern compiler: turns a written pattern/template token tree into a
//! sequence of operator nodes, and a whole macro definition into a rule set.

use vstd::prelude::*;
use crate::{
    DelimiterKind, Ident, Leaf, LeafModel, Literal, Punct, Subtree, TokenTree, TtModel, models_of,
};
use crate::ops::{
    MacroRules, MetaVarKind, natsub, Op, op_models_of, OpModel, RepeatKind, Rule, rule_models_of,
    RuleModel, SepModel, Separator,
};

verus! {

broadcast use vstd::std_specs::vec::group_vec_axioms, crate::lemma_models_of,
    crate::ops::lemma_op_models_of;

/// Why compiling a macro definition failed. Any of these aborts the whole
/// rule set: no partial rule set is ever produced.
#[derive(Clone, Copy, PartialEq, Eq, Structural, Debug)]
pub enum ParseError {
    /// A metavariable was declared with a kind name that is not part of the
    /// fragment grammar.
    UnknownMetaVarKind,
    /// A repetition group without a repetition operator, or with a malformed
    /// separator.
    InvalidRepeat,
    /// The definition does not have the `(pattern) => {template};` arm shape,
    /// or a `$` sigil is not followed by a metavariable or a group.
    MalformedDefinition,
}

/// The punctuation character of a leaf, if the tree is one.
pub open spec fn as_punct_ch(t: TtModel) -> Option<char> {
    match t {
        TtModel::Leaf(LeafModel::Punct { ch, .. }) => Some(ch),
        _ => None,
    }
}

/// The metavariable kind a kind name denotes, if any.
pub open spec fn kind_model(text: Seq<char>) -> Option<MetaVarKind> {
    if text == "ident"@ {
        Some(MetaVarKind::Ident)
    } else if text == "ty"@ {
        Some(MetaVarKind::Ty)
    } else if text == "tt"@ {
        Some(MetaVarKind::Tt)
    } else if text == "vis"@ {
        Some(MetaVarKind::Vis)
    } else if text == "pat"@ {
        Some(MetaVarKind::Pat)
    } else if text == "path"@ {
        Some(MetaVarKind::Path)
    } else if text == "literal"@ {
        Some(MetaVarKind::Literal)
    } else if text == "expr"@ {
        Some(MetaVarKind::Expr)
    } else if text == "lifetime"@ {
        Some(MetaVarKind::Lifetime)
    } else if text == "block"@ {
        Some(MetaVarKind::Block)
    } else if text == "item"@ {
        Some(MetaVarKind::Item)
    } else if text == "meta"@ {
        Some(MetaVarKind::Meta)
    } else {
        None
    }
}

/// Whether a separator being accumulated has seen at least one token.
pub open spec fn has_sep(acc: SepModel) -> bool {
    match acc {
        SepModel::Puncts { chs } => chs.len() > 0,
        _ => true,
    }
}

/// The accumulated separator, or `None` when no separator token preceded
/// the repetition operator.
pub open spec fn sep_done(acc: SepModel) -> Option<SepModel> {
    if has_sep(acc) {
        Some(acc)
    } else {
        None
    }
}

/// Reads the separator and repetition operator that follow a `$(...)` group:
/// at most one identifier or literal, or up to three punctuation characters,
/// ended by `*`, `+` or `?`. Returns the separator, the repetition kind, and
/// the position just past the operator.
pub open spec fn parse_repeat_from(input: Seq<TtModel>, pos: int, acc: SepModel) -> Result<
    (Option<SepModel>, RepeatKind, int),
    ParseError,
>
    decreases natsub(input.len() as int, pos),
{
    if pos < 0 || pos >= input.len() {
        Err(ParseError::InvalidRepeat)
    } else {
        match input[pos] {
            TtModel::Leaf(LeafModel::Ident { text, .. }) => if has_sep(acc) {
                Err(ParseError::InvalidRepeat)
            } else {
                parse_repeat_from(input, pos + 1, SepModel::Id { text })
            },
            TtModel::Leaf(LeafModel::Literal { text, .. }) => if has_sep(acc) {
                Err(ParseError::InvalidRepeat)
            } else {
                parse_repeat_from(input, pos + 1, SepModel::Lit { text })
            },
            TtModel::Leaf(LeafModel::Punct { ch, spacing, id }) => if ch == '*' {
                Ok((sep_done(acc), RepeatKind::ZeroOrMore, pos + 1))
            } else if ch == '+' {
                Ok((sep_done(acc), RepeatKind::OneOrMore, pos + 1))
            } else if ch == '?' {
                Ok((sep_done(acc), RepeatKind::ZeroOrOne, pos + 1))
            } else {
                match acc {
                    SepModel::Puncts { chs } => if chs.len() < 3 {
                        parse_repeat_from(
                            input,
                            pos + 1,
                            SepModel::Puncts { chs: chs.push(Punct { ch, spacing, id }) },
                        )
                    } else {
                        Err(ParseError::InvalidRepeat)
                    },
                    _ => Err(ParseError::InvalidRepeat),
                }
            },
            TtModel::Subtree { .. } => Err(ParseError::InvalidRepeat),
        }
    }
}

/// Prepends a compiled node to the rest of a compilation, keeping the first
/// error.
pub open spec fn cons_op(op: OpModel, rest: Result<Seq<OpModel>, ParseError>) -> Result<
    Seq<OpModel>,
    ParseError,
> {
    match rest {
        Ok(s) => Ok(seq![op] + s),
        Err(e) => Err(e),
    }
}

/// Compiles the written pattern/template `input[pos..]` into operator nodes:
/// `$name` (optionally `:kind`) becomes `Var`, `$(...)` with its suffix
/// becomes `Repeat`, a delimited group becomes `Sub`, anything else `Leaf`.
pub open spec fn compile_from(input: Seq<TtModel>, pos: int) -> Result<Seq<OpModel>, ParseError>
    decreases input, natsub(input.len() as int, pos), 1int,
{
    if pos < 0 || pos >= input.len() {
        Ok(Seq::empty())
    } else if as_punct_ch(input[pos]) == Some('$') {
        compile_dollar(input, pos)
    } else {
        match input[pos] {
            TtModel::Leaf(lm) => cons_op(OpModel::Leaf(lm), compile_from(input, pos + 1)),
            TtModel::Subtree { delimiter, children } => match compile_from(children, 0) {
                Err(e) => Err(e),
                Ok(inner) => cons_op(
                    OpModel::Sub { tokens: inner, delimiter },
                    compile_from(input, pos + 1),
                ),
            },
        }
    }
}

/// Compiles the `$`-introduced node at `input[pos]` (a metavariable or a
/// repetition group) and the rest of the sequence after it.
pub open spec fn compile_dollar(input: Seq<TtModel>, pos: int) -> Result<Seq<OpModel>, ParseError>
    decreases input, natsub(input.len() as int, pos), 0int,
{
    if pos < 0 || pos + 1 >= input.len() {
        Err(ParseError::MalformedDefinition)
    } else {
        match input[pos + 1] {
            TtModel::Leaf(LeafModel::Ident { text: name, .. }) => if pos + 2 < input.len()
                && as_punct_ch(input[pos + 2]) == Some(':') {
                if pos + 3 < input.len() {
                    match input[pos + 3] {
                        TtModel::Leaf(LeafModel::Ident { text: ktext, .. }) => {
                            match kind_model(ktext) {
                                Some(k) => cons_op(
                                    OpModel::Var { name, kind: Some(k) },
                                    compile_from(input, pos + 4),
                                ),
                                None => Err(ParseError::UnknownMetaVarKind),
                            }
                        },
                        _ => Err(ParseError::UnknownMetaVarKind),
                    }
                } else {
                    Err(ParseError::UnknownMetaVarKind)
                }
            } else {
                cons_op(OpModel::Var { name, kind: None }, compile_from(input, pos + 2))
            },
            TtModel::Subtree { delimiter: Some(DelimiterKind::Parenthesis), children } => {
                match compile_from(children, 0) {
                    Err(e) => Err(e),
                    Ok(inner) => match parse_repeat_from(
                        input,
                        pos + 2,
                        SepModel::Puncts { chs: Seq::empty() },
                    ) {
                        Err(e) => Err(e),
                        Ok((sep, rkind, npos)) => {
                            let cont: int = if npos > pos + 2 {
                                npos
                            } else {
                                input.len() as int
                            };
                            cons_op(
                                OpModel::Repeat { tokens: inner, rkind, sep },
                                compile_from(input, cont),
                            )
                        },
                    },
                }
            },
            _ => Err(ParseError::MalformedDefinition),
        }
    }
}

/// Parses a macro definition body: a sequence of `(pattern) => {template}`
/// arms separated by `;`, with an optional trailing `;`.
pub open spec fn parse_rules_from(input: Seq<TtModel>, pos: int) -> Result<
    Seq<RuleModel>,
    ParseError,
>
    decreases natsub(input.len() as int, pos),
{
    if pos < 0 {
        Err(ParseError::MalformedDefinition)
    } else if pos >= input.len() {
        Ok(Seq::empty())
    } else if pos + 3 >= input.len() {
        Err(ParseError::MalformedDefinition)
    } else {
        match (input[pos], input[pos + 3]) {
            (
                TtModel::Subtree { children: lc, .. },
                TtModel::Subtree { children: rc, .. },
            ) => if as_punct_ch(input[pos + 1]) == Some('=') && as_punct_ch(input[pos + 2])
                == Some('>') {
                match compile_from(lc, 0) {
                    Err(e) => Err(e),
                    Ok(lhs) => match compile_from(rc, 0) {
                        Err(e) => Err(e),
                        Ok(rhs) => {
                            let rule = RuleModel { lhs, rhs };
                            if pos + 4 >= input.len() {
                                Ok(seq![rule])
                            } else if as_punct_ch(input[pos + 4]) == Some(';') {
                                match parse_rules_from(input, pos + 5) {
                                    Err(e) => Err(e),
                                    Ok(rest) => Ok(seq![rule] + rest),
                                }
                            } else {
                                Err(ParseError::MalformedDefinition)
                            }
                        },
                    },
                }
            } else {
                Err(ParseError::MalformedDefinition)
            },
            _ => Err(ParseError::MalformedDefinition),
        }
    }
}

/// The compiled rule set of a whole macro definition body.
pub open spec fn compile_model(def: TtModel) -> Result<Seq<RuleModel>, ParseError> {
    match def {
        TtModel::Subtree { children, .. } => parse_rules_from(children, 0),
        TtModel::Leaf(_) => Err(ParseError::MalformedDefinition),
    }
}

/// The model of an optional separator.
pub open spec fn opt_sep_model(s: Option<Separator>) -> Option<SepModel> {
    match s {
        Some(x) => Some(x.model()),
        None => None,
    }
}

/// Whether an executable repeat-suffix result agrees with the model one.
pub open spec fn repeat_result_matches(
    r: Result<(Option<Separator>, RepeatKind, usize), ParseError>,
    m: Result<(Option<SepModel>, RepeatKind, int), ParseError>,
) -> bool {
    match (r, m) {
        (Ok((s, k, p)), Ok((sm, km, pm))) => opt_sep_model(s) == sm && k == km && p as int == pm,
        (Err(e), Err(em)) => e == em,
        _ => false,
    }
}

/// Whether an executable compilation result agrees with the model one.
pub open spec fn ops_result_matches(
    r: Result<Vec<Op>, ParseError>,
    m: Result<Seq<OpModel>, ParseError>,
) -> bool {
    match (r, m) {
        (Ok(v), Ok(s)) => op_models_of(v@) == s,
        (Err(e), Err(em)) => e == em,
        _ => false,
    }
}

/// Whether an executable rule-set result agrees with the model one.
pub open spec fn rules_result_matches(
    r: Result<MacroRules, ParseError>,
    m: Result<Seq<RuleModel>, ParseError>,
) -> bool {
    match (r, m) {
        (Ok(mr), Ok(s)) => mr.model() == s,
        (Err(e), Err(em)) => e == em,
        _ => false,
    }
}

/// Whether the tree is a punctuation leaf with this character.
fn is_punct_ch(t: &TokenTree, c: char) -> (r: bool)
    ensures
        r == (as_punct_ch(t.model()) == Some(c)),
{
    match t {
        TokenTree::Leaf(Leaf::Punct(p)) => p.ch == c,
        _ => false,
    }
}

/// The metavariable kind a written kind name denotes, if any.
fn kind_of(text: &String) -> (r: Option<MetaVarKind>)
    ensures
        r == kind_model(text@),
{
    if text.eq(&("ident".to_owned())) {
        Some(MetaVarKind::Ident)
    } else if text.eq(&("ty".to_owned())) {
        Some(MetaVarKind::Ty)
    } else if text.eq(&("tt".to_owned())) {
        Some(MetaVarKind::Tt)
    } else if text.eq(&("vis".to_owned())) {
        Some(MetaVarKind::Vis)
    } else if text.eq(&("pat".to_owned())) {
        Some(MetaVarKind::Pat)
    } else if text.eq(&("path".to_owned())) {
        Some(MetaVarKind::Path)
    } else if text.eq(&("literal".to_owned())) {
        Some(MetaVarKind::Literal)
    } else if text.eq(&("expr".to_owned())) {
        Some(MetaVarKind::Expr)
    } else if text.eq(&("lifetime".to_owned())) {
        Some(MetaVarKind::Lifetime)
    } else if text.eq(&("block".to_owned())) {
        Some(MetaVarKind::Block)
    } else if text.eq(&("item".to_owned())) {
        Some(MetaVarKind::Item)
    } else if text.eq(&("meta".to_owned())) {
        Some(MetaVarKind::Meta)
    } else {
        None
    }
}

/// Whether the separator being accumulated has seen at least one token.
fn has_sep_x(acc: &Separator) -> (r: bool)
    ensures
        r == has_sep(acc.model()),
{
    match acc {
        Separator::Puncts(ps) => ps.len() > 0,
        _ => true,
    }
}

/// The accumulated separator, or `None` when it is still empty.
fn sep_done_x(acc: Separator) -> (r: Option<Separator>)
    ensures
        opt_sep_model(r) == sep_done(acc.model()),
{
    if has_sep_x(&acc) {
        Some(acc)
    } else {
        None
    }
}

/// Reads the separator and repetition operator after a `$(...)` group.
/// Mirrors `parse_repeat_from`.
fn parse_repeat(input: &Vec<TokenTree>, pos: usize, acc: Separator) -> (r: Result<
    (Option<Separator>, RepeatKind, usize),
    ParseError,
>)
    ensures
        repeat_result_matches(r, parse_repeat_from(models_of(input@), pos as int, acc.model())),
    decreases natsub(input@.len() as int, pos as int),
{
    if pos >= input.len() {
        return Err(ParseError::InvalidRepeat);
    }
    match &input[pos] {
        TokenTree::Leaf(Leaf::Ident(idt)) => {
            if has_sep_x(&acc) {
                Err(ParseError::InvalidRepeat)
            } else {
                parse_repeat(
                    input,
                    pos + 1,
                    Separator::Ident(Ident { text: idt.text.clone(), id: idt.id }),
                )
            }
        },
        TokenTree::Leaf(Leaf::Literal(l)) => {
            if has_sep_x(&acc) {
                Err(ParseError::InvalidRepeat)
            } else {
                parse_repeat(
                    input,
                    pos + 1,
                    Separator::Literal(Literal { text: l.text.clone(), id: l.id }),
                )
            }
        },
        TokenTree::Leaf(Leaf::Punct(p)) => {
            if p.ch == '*' {
                Ok((sep_done_x(acc), RepeatKind::ZeroOrMore, pos + 1))
            } else if p.ch == '+' {
                Ok((sep_done_x(acc), RepeatKind::OneOrMore, pos + 1))
            } else if p.ch == '?' {
                Ok((sep_done_x(acc), RepeatKind::ZeroOrOne, pos + 1))
            } else {
                match acc {
                    Separator::Puncts(ps) => {
                        if ps.len() < 3 {
                            let mut ps = ps;
                            ps.push(Punct { ch: p.ch, spacing: p.spacing, id: p.id });
                            parse_repeat(input, pos + 1, Separator::Puncts(ps))
                        } else {
                            Err(ParseError::InvalidRepeat)
                        }
                    },
                    _ => Err(ParseError::InvalidRepeat),
                }
            }
        },
        TokenTree::Subtree(_) => Err(ParseError::InvalidRepeat),
    }
}

/// Puts a compiled node in front of the already-compiled rest.
fn cons_op_x(op: Op, rest: Vec<Op>) -> (r: Vec<Op>)
    ensures
        op_models_of(r@) == seq![op.model()] + op_models_of(rest@),
{
    let mut rest = rest;
    let ghost oldv = rest@;
    rest.insert(0, op);
    proof {
        assert(rest@ =~= seq![op] + oldv);
        assert(op_models_of(rest@) =~= seq![op.model()] + op_models_of(oldv));
    }
    rest
}

/// Compiles `input[pos..]` into operator nodes. Mirrors `compile_from`.
pub fn compile_ops(input: &Vec<TokenTree>, pos: usize) -> (r: Result<Vec<Op>, ParseError>)
    ensures
        ops_result_matches(r, compile_from(models_of(input@), pos as int)),
    decreases input@, natsub(input@.len() as int, pos as int), 1int,
{
    if pos >= input.len() {
        return Ok(Vec::new());
    }
    if is_punct_ch(&input[pos], '$') {
        compile_dollar_x(input, pos)
    } else {
        match &input[pos] {
            TokenTree::Leaf(l) => {
                let op = Op::Leaf(l.copy());
                match compile_ops(input, pos + 1) {
                    Err(e) => Err(e),
                    Ok(rest) => Ok(cons_op_x(op, rest)),
                }
            },
            TokenTree::Subtree(s) => {
                proof {
                    vstd::std_specs::vec::axiom_vec_decreases_to_view(*input);
                    vstd::seq::axiom_seq_index_decreases(input@, pos as int);
                }
                match compile_ops(&s.token_trees, 0) {
                    Err(e) => Err(e),
                    Ok(inner) => {
                        let op = Op::Subtree { tokens: inner, delimiter: s.delimiter };
                        match compile_ops(input, pos + 1) {
                            Err(e) => Err(e),
                            Ok(rest) => Ok(cons_op_x(op, rest)),
                        }
                    },
                }
            },
        }
    }
}

/// Compiles the `$`-introduced node at `input[pos]` and the rest after it.
/// Mirrors `compile_dollar`.
fn compile_dollar_x(input: &Vec<TokenTree>, pos: usize) -> (r: Result<Vec<Op>, ParseError>)
    requires
        pos < input@.len(),
    ensures
        ops_result_matches(r, compile_dollar(models_of(input@), pos as int)),
    decreases input@, natsub(input@.len() as int, pos as int), 0int,
{
    if pos >= input.len() - 1 {
        return Err(ParseError::MalformedDefinition);
    }
    match &input[pos + 1] {
        TokenTree::Leaf(Leaf::Ident(nm)) => {
            let has_colon = pos + 2 < input.len() && is_punct_ch(&input[pos + 2], ':');
            if has_colon {
                if pos + 3 < input.len() {
                    match &input[pos + 3] {
                        TokenTree::Leaf(Leaf::Ident(kid)) => {
                            match kind_of(&kid.text) {
                                Some(k) => {
                                    let op = Op::Var { name: nm.text.clone(), kind: Some(k) };
                                    match compile_ops(input, pos + 4) {
                                        Err(e) => Err(e),
                                        Ok(rest) => Ok(cons_op_x(op, rest)),
                                    }
                                },
                                None => Err(ParseError::UnknownMetaVarKind),
                            }
                        },
                        _ => Err(ParseError::UnknownMetaVarKind),
                    }
                } else {
                    Err(ParseError::UnknownMetaVarKind)
                }
            } else {
                let op = Op::Var { name: nm.text.clone(), kind: None };
                match compile_ops(input, pos + 2) {
                    Err(e) => Err(e),
                    Ok(rest) => Ok(cons_op_x(op, rest)),
                }
            }
        },
        TokenTree::Subtree(s) => {
            let is_paren = match s.delimiter {
                Some(DelimiterKind::Parenthesis) => true,
                _ => false,
            };
            if is_paren {
                proof {
                    vstd::std_specs::vec::axiom_vec_decreases_to_view(*input);
                    vstd::seq::axiom_seq_index_decreases(input@, pos as int + 1);
                }
                let acc0 = Separator::Puncts(Vec::new());
                proof {
                    assert(acc0.model() =~= SepModel::Puncts { chs: Seq::<Punct>::empty() });
                }
                match compile_ops(&s.token_trees, 0) {
                    Err(e) => Err(e),
                    Ok(inner) => {
                        match parse_repeat(input, pos + 2, acc0) {
                            Err(e) => Err(e),
                            Ok((sep, rkind, npos)) => {
                                let cont: usize = if npos > pos + 2 {
                                    npos
                                } else {
                                    input.len()
                                };
                                let op = Op::Repeat { tokens: inner, kind: rkind, separator: sep };
                                match compile_ops(input, cont) {
                                    Err(e) => Err(e),
                                    Ok(rest) => Ok(cons_op_x(op, rest)),
                                }
                            },
                        }
                    },
                }
            } else {
                Err(ParseError::MalformedDefinition)
            }
        },
        _ => Err(ParseError::MalformedDefinition),
    }
}

/// Puts a compiled rule in front of the already-compiled rest.
fn cons_rule_x(rule: Rule, rest: Vec<Rule>) -> (r: Vec<Rule>)
    ensures
        rule_models_of(r@) == seq![rule.model()] + rule_models_of(rest@),
{
    let mut rest = rest;
    let ghost oldv = rest@;
    rest.insert(0, rule);
    proof {
        assert(rest@ =~= seq![rule] + oldv);
        assert(rule_models_of(rest@) =~= seq![rule.model()] + rule_models_of(oldv));
    }
    rest
}

/// Parses the arms of a macro definition body. Mirrors `parse_rules_from`.
fn parse_rules(input: &Vec<TokenTree>, pos: usize) -> (r: Result<Vec<Rule>, ParseError>)
    ensures
        (match (r, parse_rules_from(models_of(input@), pos as int)) {
            (Ok(v), Ok(s)) => rule_models_of(v@) == s,
            (Err(e), Err(em)) => e == em,
            _ => false,
        }),
    decreases natsub(input@.len() as int, pos as int),
{
    if pos >= input.len() {
        return Ok(Vec::new());
    }
    if input.len() - pos < 4 {
        return Err(ParseError::MalformedDefinition);
    }
    match (&input[pos], &input[pos + 3]) {
        (TokenTree::Subtree(ls), TokenTree::Subtree(rsub)) => {
            if is_punct_ch(&input[pos + 1], '=') && is_punct_ch(&input[pos + 2], '>') {
                match compile_ops(&ls.token_trees, 0) {
                    Err(e) => Err(e),
                    Ok(lhs) => match compile_ops(&rsub.token_trees, 0) {
                        Err(e) => Err(e),
                        Ok(rhs) => {
                            let rule = Rule { lhs, rhs };
                            if pos + 4 >= input.len() {
                                let mut v: Vec<Rule> = Vec::new();
                                v.push(rule);
                                proof {
                                    assert(rule_models_of(v@) =~= seq![v@[0].model()]);
                                }
                                Ok(v)
                            } else if is_punct_ch(&input[pos + 4], ';') {
                                match parse_rules(input, pos + 5) {
                                    Err(e) => Err(e),
                                    Ok(rest) => Ok(cons_rule_x(rule, rest)),
                                }
                            } else {
                                Err(ParseError::MalformedDefinition)
                            }
                        },
                    },
                }
            } else {
                Err(ParseError::MalformedDefinition)
            }
        },
        _ => Err(ParseError::MalformedDefinition),
    }
}

impl MacroRules {
    /// Compiles a whole macro definition body into an ordered rule set.
    /// Any error leaves no rule set behind.
    pub fn parse(definition: &Subtree) -> (r: Result<MacroRules, ParseError>)
        ensures
            rules_result_matches(r, compile_model(definition.model())),
    {
        match parse_rules(&definition.token_trees, 0) {
            Ok(rules) => Ok(MacroRules { rules }),
            Err(e) => Err(e),
        }
    }
}

} // verus!
