//! Deterministic invocation fixtures: for every rule of a compiled rule
//! set, invocations whose token shape follows the rule's pattern, generated
//! from a fixed pseudo-random sequence. They drive regression and benchmark
//! runs of the engine.

use vstd::prelude::*;
use crate::{
    DelimiterKind, Ident, Leaf, LeafModel, Literal, models_of, Punct, Spacing, Subtree, TokenTree,
    TtModel,
};
use crate::ops::{
    MacroRules, MetaVarKind, natsub, Op, op_models_of, OpModel, ops_size_from, RepeatKind, Rule,
    rule_models_of, RuleModel, SepModel, Separator,
};
use crate::parser::opt_sep_model;

verus! {

broadcast use vstd::std_specs::vec::group_vec_axioms, crate::lemma_models_of,
    crate::ops::lemma_op_models_of;

/// The provenance identifier of generated tokens that belong to no source
/// position.
pub const UNSPECIFIED_ID: u32 = 0xffff_ffff;

/// One step of the linear congruential sequence behind the fixtures.
pub open spec fn lcg(s: u64) -> u64 {
    (((s as int) * 1664525 + 1013904223) % 0x1_0000_0000_0000_0000) as u64
}

/// A generated identifier token.
pub open spec fn fix_ident(text: Seq<char>) -> TtModel {
    TtModel::Leaf(LeafModel::Ident { text, id: UNSPECIFIED_ID })
}

/// A generated empty delimited subtree.
pub open spec fn fix_sub(kind: DelimiterKind) -> TtModel {
    TtModel::Subtree { delimiter: Some(kind), children: Seq::empty() }
}

/// The tokens standing in for one metavariable of this kind: a fixed
/// specimen of the fragment grammar the matcher accepts for it.
pub open spec fn var_fixture(kind: Option<MetaVarKind>) -> Seq<TtModel> {
    match kind {
        None => Seq::empty(),
        Some(k) => match k {
            MetaVarKind::Ident | MetaVarKind::Tt | MetaVarKind::Pat | MetaVarKind::Path
                | MetaVarKind::Expr => seq![fix_ident("foo"@)],
            MetaVarKind::Ty => seq![fix_ident("Foo"@)],
            MetaVarKind::Vis => seq![fix_ident("pub"@)],
            MetaVarKind::Literal => seq![
                TtModel::Leaf(LeafModel::Literal { text: "1"@, id: UNSPECIFIED_ID }),
            ],
            MetaVarKind::Lifetime => seq![
                TtModel::Leaf(
                    LeafModel::Punct { ch: '\'', spacing: Spacing::Alone, id: UNSPECIFIED_ID },
                ),
                fix_ident("a"@),
            ],
            MetaVarKind::Block => seq![fix_sub(DelimiterKind::Brace)],
            MetaVarKind::Item => seq![
                fix_ident("fn"@),
                fix_ident("foo"@),
                fix_sub(DelimiterKind::Parenthesis),
                fix_sub(DelimiterKind::Brace),
            ],
            MetaVarKind::Meta => seq![fix_ident("foo"@), fix_sub(DelimiterKind::Parenthesis)],
        },
    }
}

/// One generated punctuation token per separator character.
pub open spec fn punct_fixtures(chs: Seq<Punct>) -> Seq<TtModel>
    decreases chs,
{
    if chs.len() == 0 {
        Seq::empty()
    } else {
        seq![
            TtModel::Leaf(
                LeafModel::Punct { ch: chs[0].ch, spacing: chs[0].spacing, id: UNSPECIFIED_ID },
            ),
        ] + punct_fixtures(chs.drop_first())
    }
}

/// `punct_fixtures` is the pointwise image of its argument.
pub proof fn lemma_punct_fixtures(chs: Seq<Punct>)
    ensures
        punct_fixtures(chs).len() == chs.len(),
        forall|j: int|
            0 <= j < chs.len() ==> punct_fixtures(chs)[j] == TtModel::Leaf(
                LeafModel::Punct { ch: chs[j].ch, spacing: chs[j].spacing, id: UNSPECIFIED_ID },
            ),
    decreases chs,
{
    if chs.len() > 0 {
        lemma_punct_fixtures(chs.drop_first());
    }
}

/// The tokens standing in for one separator occurrence; generated tokens
/// carry the unspecified provenance identifier.
pub open spec fn sep_fixture(s: SepModel) -> Seq<TtModel> {
    match s {
        SepModel::Lit { text } => seq![
            TtModel::Leaf(LeafModel::Literal { text, id: UNSPECIFIED_ID }),
        ],
        SepModel::Id { text } => seq![TtModel::Leaf(LeafModel::Ident { text, id: UNSPECIFIED_ID })],
        SepModel::Puncts { chs } => punct_fixtures(chs),
    }
}

/// The fixture tokens for the pattern nodes `ops[oi..]`, and the seed
/// afterwards: a literal pattern leaf is copied verbatim, a metavariable
/// becomes its specimen, a repetition is unrolled a pseudo-random number of
/// times with the separator between iterations.
pub open spec fn gen_ops(ops: Seq<OpModel>, oi: int, seed: u64) -> (Seq<TtModel>, u64)
    decreases ops_size_from(ops, oi), 0nat, 1int,
{
    if oi < 0 || oi >= ops.len() {
        (Seq::empty(), seed)
    } else {
        let (head, s1): (Seq<TtModel>, u64) = match ops[oi] {
            OpModel::Leaf(lm) => (seq![TtModel::Leaf(lm)], seed),
            OpModel::Var { kind, .. } => (var_fixture(kind), seed),
            OpModel::Sub { tokens, delimiter } => {
                let (inner, s2) = gen_ops(tokens, 0, seed);
                (seq![TtModel::Subtree { delimiter, children: inner }], s2)
            },
            OpModel::Repeat { tokens, rkind, sep } => {
                let s2 = lcg(seed);
                let cnt: int = match rkind {
                    RepeatKind::ZeroOrMore => (s2 as int) % 10,
                    RepeatKind::OneOrMore => 1 + (s2 as int) % 10,
                    RepeatKind::ZeroOrOne => (s2 as int) % 2,
                };
                gen_repeat(tokens, sep, 0, cnt, s2)
            },
        };
        let (rest, s3) = gen_ops(ops, oi + 1, s1);
        (head + rest, s3)
    }
}

/// The fixture tokens for iterations `i..cnt` of a repetition, the
/// separator between iterations and never after the last.
pub open spec fn gen_repeat(
    tokens: Seq<OpModel>,
    sep: Option<SepModel>,
    i: int,
    cnt: int,
    seed: u64,
) -> (Seq<TtModel>, u64)
    decreases ops_size_from(tokens, 0) + 1, natsub(cnt, i), 0int,
{
    if i >= cnt {
        (Seq::empty(), seed)
    } else {
        let (one, s1) = gen_ops(tokens, 0, seed);
        let sep_trees: Seq<TtModel> = if i + 1 != cnt {
            match sep {
                Some(s) => sep_fixture(s),
                None => Seq::empty(),
            }
        } else {
            Seq::empty()
        };
        let (rest, s2) = gen_repeat(tokens, sep, i + 1, cnt, s1);
        (one + sep_trees + rest, s2)
    }
}

/// The named fixture invocations of the rules `rs[ri..]`: two per rule, in
/// declaration order, each an undelimited subtree shaped by the rule's
/// pattern.
pub open spec fn fixtures_for_rules(name: Seq<char>, rs: Seq<RuleModel>, ri: int, seed: u64) -> (
    Seq<(Seq<char>, TtModel)>,
    u64,
)
    decreases natsub(rs.len() as int, ri),
{
    if ri < 0 || ri >= rs.len() {
        (Seq::empty(), seed)
    } else {
        let (t1, s1) = gen_ops(rs[ri].lhs, 0, seed);
        let (t2, s2) = gen_ops(rs[ri].lhs, 0, s1);
        let (rest, s3) = fixtures_for_rules(name, rs, ri + 1, s2);
        (
            seq![
                (name, TtModel::Subtree { delimiter: None, children: t1 }),
                (name, TtModel::Subtree { delimiter: None, children: t2 }),
            ] + rest,
            s3,
        )
    }
}

/// The fixture invocations of the named rule sets `pairs[pi..]`, in order.
pub open spec fn fixtures_model(
    pairs: Seq<(Seq<char>, Seq<RuleModel>)>,
    pi: int,
    seed: u64,
) -> (Seq<(Seq<char>, TtModel)>, u64)
    decreases natsub(pairs.len() as int, pi),
{
    if pi < 0 || pi >= pairs.len() {
        (Seq::empty(), seed)
    } else {
        let (head, s1) = fixtures_for_rules(pairs[pi].0, pairs[pi].1, 0, seed);
        let (rest, s2) = fixtures_model(pairs, pi + 1, s1);
        (head + rest, s2)
    }
}

/// The model of a sequence of named rule sets.
pub open spec fn rules_pairs_model(v: Seq<(String, MacroRules)>) -> Seq<
    (Seq<char>, Seq<RuleModel>),
> {
    Seq::new(v.len(), |i: int| (v[i].0@, v[i].1.model()))
}

/// The model of a sequence of named invocations.
pub open spec fn fix_pairs_model(v: Seq<(String, Subtree)>) -> Seq<(Seq<char>, TtModel)> {
    Seq::new(v.len(), |i: int| (v[i].0@, v[i].1.model()))
}


/// One step of the fixture sequence. Mirrors `lcg`.
fn lcg_x(s: u64) -> (r: u64)
    ensures
        r == lcg(s),
{
    let wide: u128 = (s as u128) * 1664525 + 1013904223;
    (wide % 0x1_0000_0000_0000_0000u128) as u64
}

/// A generated identifier token.
fn make_ident(text: &str) -> (r: TokenTree)
    ensures
        r.model() == fix_ident(text@),
{
    TokenTree::Leaf(Leaf::Ident(Ident { text: text.to_owned(), id: UNSPECIFIED_ID }))
}

/// A generated empty delimited subtree.
fn make_sub(kind: DelimiterKind) -> (r: TokenTree)
    ensures
        r.model() == fix_sub(kind),
{
    let r = TokenTree::Subtree(Subtree { delimiter: Some(kind), token_trees: Vec::new() });
    proof {
        assert(models_of(Seq::<TokenTree>::empty()) =~= Seq::<TtModel>::empty());
    }
    r
}

/// The specimen tokens of one metavariable. Mirrors `var_fixture`.
fn var_fixture_x(kind: Option<MetaVarKind>) -> (r: Vec<TokenTree>)
    ensures
        models_of(r@) == var_fixture(kind),
{
    let mut v: Vec<TokenTree> = Vec::new();
    match kind {
        None => {},
        Some(MetaVarKind::Ident) | Some(MetaVarKind::Tt) | Some(MetaVarKind::Pat) | Some(
            MetaVarKind::Path,
        ) | Some(MetaVarKind::Expr) => {
            v.push(make_ident("foo"));
        },
        Some(MetaVarKind::Ty) => {
            v.push(make_ident("Foo"));
        },
        Some(MetaVarKind::Vis) => {
            v.push(make_ident("pub"));
        },
        Some(MetaVarKind::Literal) => {
            v.push(TokenTree::Leaf(Leaf::Literal(Literal {
                text: "1".to_owned(),
                id: UNSPECIFIED_ID,
            })));
        },
        Some(MetaVarKind::Lifetime) => {
            v.push(TokenTree::Leaf(Leaf::Punct(Punct {
                ch: '\'',
                spacing: Spacing::Alone,
                id: UNSPECIFIED_ID,
            })));
            v.push(make_ident("a"));
        },
        Some(MetaVarKind::Block) => {
            v.push(make_sub(DelimiterKind::Brace));
        },
        Some(MetaVarKind::Item) => {
            v.push(make_ident("fn"));
            v.push(make_ident("foo"));
            v.push(make_sub(DelimiterKind::Parenthesis));
            v.push(make_sub(DelimiterKind::Brace));
        },
        Some(MetaVarKind::Meta) => {
            v.push(make_ident("foo"));
            v.push(make_sub(DelimiterKind::Parenthesis));
        },
    }
    proof {
        assert(models_of(v@) =~= var_fixture(kind));
    }
    v
}

/// The tokens of one separator occurrence. Mirrors `sep_fixture`.
fn sep_fixture_x(sep: &Separator) -> (r: Vec<TokenTree>)
    ensures
        models_of(r@) == sep_fixture(sep.model()),
{
    let mut v: Vec<TokenTree> = Vec::new();
    match sep {
        Separator::Literal(l) => {
            v.push(TokenTree::Leaf(Leaf::Literal(Literal {
                text: l.text.clone(),
                id: UNSPECIFIED_ID,
            })));
        },
        Separator::Ident(i) => {
            v.push(TokenTree::Leaf(Leaf::Ident(Ident {
                text: i.text.clone(),
                id: UNSPECIFIED_ID,
            })));
        },
        Separator::Puncts(ps) => {
            proof {
                lemma_punct_fixtures(ps@);
                assert(sep_fixture(sep.model()).len() == ps@.len());
            }
            let mut j: usize = 0;
            #[verifier::loop_isolation(false)]
            while j < ps.len()
                invariant
                    j <= ps@.len(),
                    v@.len() == j,
                    forall|k: int|
                        0 <= k < j ==> v@[k].model() == sep_fixture(sep.model())[k],
                decreases ps@.len() - j,
            {
                v.push(TokenTree::Leaf(Leaf::Punct(Punct {
                    ch: ps[j].ch,
                    spacing: ps[j].spacing,
                    id: UNSPECIFIED_ID,
                })));
                proof {
                    assert(v@[j as int].model() == sep_fixture(sep.model())[j as int]);
                }
                j = j + 1;
            }
        },
    }
    proof {
        assert(models_of(v@) =~= sep_fixture(sep.model()));
    }
    v
}

/// The fixture tokens for `ops[oi..]`. Mirrors `gen_ops`.
fn gen_ops_x(ops: &Vec<Op>, oi: usize, seed: u64) -> (r: (Vec<TokenTree>, u64))
    ensures
        ({
            let m = gen_ops(op_models_of(ops@), oi as int, seed);
            models_of(r.0@) == m.0 && r.1 == m.1
        }),
    decreases ops_size_from(op_models_of(ops@), oi as int), 0nat, 1int,
{
    if oi >= ops.len() {
        let v: Vec<TokenTree> = Vec::new();
        proof {
            assert(models_of(v@) =~= Seq::<TtModel>::empty());
        }
        return (v, seed);
    }
    let (head, s1): (Vec<TokenTree>, u64) = match &ops[oi] {
        Op::Leaf(l) => {
            let mut v: Vec<TokenTree> = Vec::new();
            v.push(TokenTree::Leaf(l.copy()));
            proof {
                assert(models_of(v@) =~= seq![v@[0].model()]);
            }
            (v, seed)
        },
        Op::Var { kind, .. } => (var_fixture_x(*kind), seed),
        Op::Subtree { tokens, delimiter } => {
            proof {
                assert(op_models_of(ops@)[oi as int] == ops@[oi as int].model());
            }
            let (inner, s2) = gen_ops_x(tokens, 0, seed);
            let mut v: Vec<TokenTree> = Vec::new();
            v.push(TokenTree::Subtree(Subtree { delimiter: *delimiter, token_trees: inner }));
            proof {
                assert(models_of(v@) =~= seq![v@[0].model()]);
            }
            (v, s2)
        },
        Op::Repeat { tokens, kind, separator } => {
            proof {
                assert(op_models_of(ops@)[oi as int] == ops@[oi as int].model());
            }
            let s2 = lcg_x(seed);
            let cnt: u64 = match kind {
                RepeatKind::ZeroOrMore => s2 % 10,
                RepeatKind::OneOrMore => 1 + s2 % 10,
                RepeatKind::ZeroOrOne => s2 % 2,
            };
            gen_repeat_x(tokens, separator, 0, cnt as usize, s2)
        },
    };
    let (rest, s3) = gen_ops_x(ops, oi + 1, s1);
    let mut head = head;
    let mut rest = rest;
    let ghost hm = models_of(head@);
    let ghost rm = models_of(rest@);
    head.append(&mut rest);
    proof {
        assert(models_of(head@) =~= hm + rm);
    }
    (head, s3)
}

/// The fixture tokens for iterations `i..cnt`. Mirrors `gen_repeat`.
fn gen_repeat_x(
    tokens: &Vec<Op>,
    sep: &Option<Separator>,
    i: usize,
    cnt: usize,
    seed: u64,
) -> (r: (Vec<TokenTree>, u64))
    ensures
        ({
            let m = gen_repeat(
                op_models_of(tokens@),
                opt_sep_model(*sep),
                i as int,
                cnt as int,
                seed,
            );
            models_of(r.0@) == m.0 && r.1 == m.1
        }),
    decreases ops_size_from(op_models_of(tokens@), 0) + 1, natsub(cnt as int, i as int), 0int,
{
    if i >= cnt {
        let v: Vec<TokenTree> = Vec::new();
        proof {
            assert(models_of(v@) =~= Seq::<TtModel>::empty());
        }
        return (v, seed);
    }
    let (one, s1) = gen_ops_x(tokens, 0, seed);
    let sep_trees: Vec<TokenTree> = if i + 1 != cnt {
        match sep {
            Some(s) => sep_fixture_x(s),
            None => {
                let v: Vec<TokenTree> = Vec::new();
                proof {
                    assert(models_of(v@) =~= Seq::<TtModel>::empty());
                }
                v
            },
        }
    } else {
        let v: Vec<TokenTree> = Vec::new();
        proof {
            assert(models_of(v@) =~= Seq::<TtModel>::empty());
        }
        v
    };
    let (rest, s2) = gen_repeat_x(tokens, sep, i + 1, cnt, s1);
    let mut one = one;
    let mut sep_trees = sep_trees;
    let mut rest = rest;
    let ghost om = models_of(one@);
    let ghost sm = models_of(sep_trees@);
    let ghost rm = models_of(rest@);
    one.append(&mut sep_trees);
    one.append(&mut rest);
    proof {
        assert(models_of(one@) =~= om + sm + rm);
    }
    (one, s2)
}

/// The named fixtures of the rules `rs[ri..]`. Mirrors
/// `fixtures_for_rules`.
fn rule_fixtures_x(name: &String, rs: &Vec<Rule>, ri: usize, seed: u64) -> (r: (
    Vec<(String, Subtree)>,
    u64,
))
    ensures
        ({
            let m = fixtures_for_rules(name@, rule_models_of(rs@), ri as int, seed);
            fix_pairs_model(r.0@) == m.0 && r.1 == m.1
        }),
    decreases natsub(rs@.len() as int, ri as int),
{
    if ri >= rs.len() {
        let v: Vec<(String, Subtree)> = Vec::new();
        proof {
            assert(fix_pairs_model(v@) =~= Seq::<(Seq<char>, TtModel)>::empty());
        }
        return (v, seed);
    }
    let (t1, s1) = gen_ops_x(&rs[ri].lhs, 0, seed);
    let (t2, s2) = gen_ops_x(&rs[ri].lhs, 0, s1);
    let (rest, s3) = rule_fixtures_x(name, rs, ri + 1, s2);
    let mut out: Vec<(String, Subtree)> = Vec::new();
    out.push((name.clone(), Subtree { delimiter: None, token_trees: t1 }));
    out.push((name.clone(), Subtree { delimiter: None, token_trees: t2 }));
    let mut rest = rest;
    let ghost twom = fix_pairs_model(out@);
    let ghost rm = fix_pairs_model(rest@);
    out.append(&mut rest);
    proof {
        assert(fix_pairs_model(out@) =~= twom + rm);
        assert(fix_pairs_model(out@) =~= fixtures_for_rules(
            name@,
            rule_models_of(rs@),
            ri as int,
            seed,
        ).0);
    }
    (out, s3)
}

/// For every rule of every named rule set, in order, two invocations whose
/// token shape follows the rule's pattern, from a fixed pseudo-random
/// sequence: the same rule sets give the same fixtures on every run.
pub fn invocation_fixtures(rules: &Vec<(String, MacroRules)>) -> (r: Vec<(String, Subtree)>)
    ensures
        fix_pairs_model(r@) == fixtures_model(rules_pairs_model(rules@), 0, 123456789u64).0,
{
    let (r, _seed) = fixtures_from(rules, 0, 123456789u64);
    r
}

/// The fixtures of the rule sets `rules[pi..]`. Mirrors `fixtures_model`.
fn fixtures_from(rules: &Vec<(String, MacroRules)>, pi: usize, seed: u64) -> (r: (
    Vec<(String, Subtree)>,
    u64,
))
    ensures
        ({
            let m = fixtures_model(rules_pairs_model(rules@), pi as int, seed);
            fix_pairs_model(r.0@) == m.0 && r.1 == m.1
        }),
    decreases natsub(rules@.len() as int, pi as int),
{
    if pi >= rules.len() {
        let v: Vec<(String, Subtree)> = Vec::new();
        proof {
            assert(fix_pairs_model(v@) =~= Seq::<(Seq<char>, TtModel)>::empty());
        }
        return (v, seed);
    }
    let (head, s1) = rule_fixtures_x(&rules[pi].0, &rules[pi].1.rules, 0, seed);
    let (rest, s2) = fixtures_from(rules, pi + 1, s1);
    let mut head = head;
    let mut rest = rest;
    let ghost hm = fix_pairs_model(head@);
    let ghost rm = fix_pairs_model(rest@);
    head.append(&mut rest);
    proof {
        assert(fix_pairs_model(head@) =~= hm + rm);
    }
    (head, s2)
}






} // verus!
