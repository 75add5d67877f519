//! The matcher: binds metavariables and repetitions of a compiled pattern
//! against an invocation's token stream.

use vstd::prelude::*;
use crate::{
    delim_eq, DelimiterKind, Leaf, leaf_match, LeafModel, models_of, Subtree, TokenTree, TtModel,
};
use crate::ops::{
    MetaVarKind, natsub, Op, op_models_of, OpModel, ops_size_from, RepeatKind, SepModel, Separator,
    var_names_from,
};
use crate::parser::{as_punct_ch, opt_sep_model};

verus! {

broadcast use vstd::std_specs::vec::group_vec_axioms, crate::lemma_models_of,
    crate::ops::lemma_op_models_of;

/// What a metavariable captured: a single fragment, or, one level per
/// enclosing repetition, an ordered sequence of captures.
pub enum Binding {
    Fragment(TokenTree),
    Nested(Vec<Binding>),
}

/// One captured metavariable.
pub struct BindingEntry {
    pub name: String,
    pub binding: Binding,
}

/// All captures of a successful match, keyed by metavariable name.
pub struct Bindings {
    pub entries: Vec<BindingEntry>,
}

/// Mathematical model of a capture.
#[verifier::ext_equal]
pub enum BindingModel {
    Frag(TtModel),
    Nested(Seq<BindingModel>),
}

/// Mathematical model of one captured metavariable.
#[verifier::ext_equal]
pub struct EntryModel {
    pub name: Seq<char>,
    pub b: BindingModel,
}

impl Binding {
    pub open spec fn model(self) -> BindingModel
        decreases self,
    {
        match self {
            Binding::Fragment(t) => BindingModel::Frag(t.model()),
            Binding::Nested(bs) => BindingModel::Nested(binding_models_of(bs@)),
        }
    }
}

/// The models of a sequence of captures, in order.
pub open spec fn binding_models_of(bs: Seq<Binding>) -> Seq<BindingModel>
    decreases bs,
{
    if bs.len() == 0 {
        Seq::empty()
    } else {
        seq![bs[0].model()] + binding_models_of(bs.drop_first())
    }
}

/// `binding_models_of` is the pointwise model of its argument.
pub broadcast proof fn lemma_binding_models_of(bs: Seq<Binding>)
    ensures
        (#[trigger] binding_models_of(bs)).len() == bs.len(),
        forall|i: int| 0 <= i < bs.len() ==> binding_models_of(bs)[i] == bs[i].model(),
    decreases bs,
{
    if bs.len() > 0 {
        lemma_binding_models_of(bs.drop_first());
    }
}

impl BindingEntry {
    pub open spec fn model(self) -> EntryModel {
        EntryModel { name: self.name@, b: self.binding.model() }
    }
}

/// The models of a sequence of capture entries, in order.
pub open spec fn entry_models_of(es: Seq<BindingEntry>) -> Seq<EntryModel> {
    Seq::new(es.len(), |i: int| es[i].model())
}

impl Bindings {
    pub open spec fn model(self) -> Seq<EntryModel> {
        entry_models_of(self.entries@)
    }
}

/// The models of per-iteration capture sets, in order.
pub open spec fn iters_models(its: Seq<Bindings>) -> Seq<Seq<EntryModel>> {
    Seq::new(its.len(), |i: int| its[i].model())
}

/// The models of a sequence of metavariable names, in order.
pub open spec fn names_model(ns: Seq<String>) -> Seq<Seq<char>> {
    Seq::new(ns.len(), |i: int| ns[i]@)
}

/// The first capture under this name in `es[i..]`, if any.
pub open spec fn lookup_from(es: Seq<EntryModel>, i: int, name: Seq<char>) -> Option<BindingModel>
    decreases natsub(es.len() as int, i),
{
    if i < 0 || i >= es.len() {
        None
    } else if es[i].name == name {
        Some(es[i].b)
    } else {
        lookup_from(es, i + 1, name)
    }
}

/// The first capture under this name, if any.
pub open spec fn lookup_entries(es: Seq<EntryModel>, name: Seq<char>) -> Option<BindingModel> {
    lookup_from(es, 0, name)
}

/// Whether a tree ends an `item` fragment: a brace-delimited subtree or a
/// `;` punctuation leaf.
pub open spec fn is_item_stop(t: TtModel) -> bool {
    match t {
        TtModel::Subtree { delimiter: Some(DelimiterKind::Brace), .. } => true,
        _ => as_punct_ch(t) == Some(';'),
    }
}

/// The position of the first `item` stop at or after `pos`, if any.
pub open spec fn item_end(input: Seq<TtModel>, pos: int) -> Option<int>
    decreases natsub(input.len() as int, pos),
{
    if pos < 0 || pos >= input.len() {
        None
    } else if is_item_stop(input[pos]) {
        Some(pos)
    } else {
        item_end(input, pos + 1)
    }
}

/// The reduced fragment recognizer: the capture and the input position just
/// past it, for a metavariable of this kind at `input[pos..]`, or `None`
/// when no fragment boundary is found.
///
/// The conservative boundaries: `ident`, `literal` and an unconstrained
/// metavariable take one leaf/tree of the right class; `tt`, `expr`, `pat`,
/// `path`, `ty` and `vis` take one token or one balanced subtree; `lifetime`
/// takes a `'` punctuation and an identifier; `block` takes a brace-delimited
/// subtree; `item` takes everything up to and including the first brace
/// subtree or `;`; `meta` takes an identifier and, when one follows, a
/// parenthesized subtree. Multi-token captures are wrapped in an
/// undelimited subtree.
pub open spec fn frag_take(kind: Option<MetaVarKind>, input: Seq<TtModel>, pos: int) -> Option<
    (BindingModel, int),
> {
    if pos < 0 || pos >= input.len() {
        None
    } else {
        match kind {
            None => Some((BindingModel::Frag(input[pos]), pos + 1)),
            Some(k) => match k {
                MetaVarKind::Tt | MetaVarKind::Expr | MetaVarKind::Pat | MetaVarKind::Path
                    | MetaVarKind::Ty | MetaVarKind::Vis => Some(
                    (BindingModel::Frag(input[pos]), pos + 1),
                ),
                MetaVarKind::Ident => match input[pos] {
                    TtModel::Leaf(LeafModel::Ident { .. }) => Some(
                        (BindingModel::Frag(input[pos]), pos + 1),
                    ),
                    _ => None,
                },
                MetaVarKind::Literal => match input[pos] {
                    TtModel::Leaf(LeafModel::Literal { .. }) => Some(
                        (BindingModel::Frag(input[pos]), pos + 1),
                    ),
                    _ => None,
                },
                MetaVarKind::Lifetime => if pos + 1 < input.len() && as_punct_ch(input[pos])
                    == Some('\'') && (input[pos + 1] matches TtModel::Leaf(
                    LeafModel::Ident { .. },
                )) {
                    Some(
                        (
                            BindingModel::Frag(
                                TtModel::Subtree {
                                    delimiter: None,
                                    children: seq![input[pos], input[pos + 1]],
                                },
                            ),
                            pos + 2,
                        ),
                    )
                } else {
                    None
                },
                MetaVarKind::Block => match input[pos] {
                    TtModel::Subtree { delimiter: Some(DelimiterKind::Brace), .. } => Some(
                        (BindingModel::Frag(input[pos]), pos + 1),
                    ),
                    _ => None,
                },
                MetaVarKind::Item => match item_end(input, pos) {
                    None => None,
                    Some(k) => if k == pos {
                        Some((BindingModel::Frag(input[pos]), pos + 1))
                    } else {
                        Some(
                            (
                                BindingModel::Frag(
                                    TtModel::Subtree {
                                        delimiter: None,
                                        children: input.subrange(pos, k + 1),
                                    },
                                ),
                                k + 1,
                            ),
                        )
                    },
                },
                MetaVarKind::Meta => match input[pos] {
                    TtModel::Leaf(LeafModel::Ident { .. }) => if pos + 1 < input.len() && (
                    input[pos + 1] matches TtModel::Subtree {
                        delimiter: Some(DelimiterKind::Parenthesis),
                        ..
                    }) {
                        Some(
                            (
                                BindingModel::Frag(
                                    TtModel::Subtree {
                                        delimiter: None,
                                        children: seq![input[pos], input[pos + 1]],
                                    },
                                ),
                                pos + 2,
                            ),
                        )
                    } else {
                        Some((BindingModel::Frag(input[pos]), pos + 1))
                    },
                    _ => None,
                },
            },
        }
    }
}

/// Whether the punctuation character `c` stands at `input[i]`.
pub open spec fn punct_at(input: Seq<TtModel>, i: int, c: char) -> bool {
    as_punct_ch(input[i]) == Some(c)
}

/// The position just past one occurrence of the separator at `input[pos..]`,
/// or `None` when the separator is not there.
pub open spec fn sep_end(sep: SepModel, input: Seq<TtModel>, pos: int) -> Option<int> {
    match sep {
        SepModel::Lit { text } => if 0 <= pos < input.len() && (match input[pos] {
            TtModel::Leaf(LeafModel::Literal { text: t2, .. }) => t2 == text,
            _ => false,
        }) {
            Some(pos + 1)
        } else {
            None
        },
        SepModel::Id { text } => if 0 <= pos < input.len() && (match input[pos] {
            TtModel::Leaf(LeafModel::Ident { text: t2, .. }) => t2 == text,
            _ => false,
        }) {
            Some(pos + 1)
        } else {
            None
        },
        SepModel::Puncts { chs } => if 0 <= pos && pos + chs.len() <= input.len() && (forall|
            j: int,
        |
            0 <= j < chs.len() ==> punct_at(input, pos + j, chs[j].ch)) {
            Some(pos + chs.len())
        } else {
            None
        },
    }
}

/// The per-iteration captures under one name, one element per iteration; an
/// iteration without the name contributes an empty nested capture.
pub open spec fn col(iters: Seq<Seq<EntryModel>>, name: Seq<char>) -> Seq<BindingModel> {
    Seq::new(
        iters.len(),
        |i: int|
            match lookup_entries(iters[i], name) {
                Some(b) => b,
                None => BindingModel::Nested(Seq::empty()),
            },
    )
}

/// The captures of a whole repetition: each inner metavariable name bound to
/// the sequence of its per-iteration captures.
pub open spec fn nested_entries(names: Seq<Seq<char>>, iters: Seq<Seq<EntryModel>>) -> Seq<
    EntryModel,
> {
    Seq::new(
        names.len(),
        |k: int| EntryModel { name: names[k], b: BindingModel::Nested(col(iters, names[k])) },
    )
}

/// Matches the operator nodes `ops[oi..]` against `input[pos..]`: the
/// captures, in pattern order, and the input position just past what was
/// consumed. `None` is a match failure. The caller decides whether the
/// input had to be exhausted.
pub open spec fn match_seq(ops: Seq<OpModel>, oi: int, input: Seq<TtModel>, pos: int) -> Option<
    (Seq<EntryModel>, int),
>
    decreases ops_size_from(ops, oi), natsub(input.len() as int, pos), 1int,
{
    if oi < 0 {
        None
    } else if oi >= ops.len() {
        Some((Seq::empty(), pos))
    } else {
        match ops[oi] {
            OpModel::Leaf(lm) => {
                if 0 <= pos && pos < input.len() && (match input[pos] {
                    TtModel::Leaf(l2) => leaf_match(lm, l2),
                    _ => false,
                }) {
                    match_seq(ops, oi + 1, input, pos + 1)
                } else {
                    None
                }
            },
            OpModel::Var { name, kind } => {
                match frag_take(kind, input, pos) {
                    None => None,
                    Some((b, end)) => match match_seq(ops, oi + 1, input, end) {
                        None => None,
                        Some((es, fin)) => Some((seq![EntryModel { name, b }] + es, fin)),
                    },
                }
            },
            OpModel::Sub { tokens, delimiter } => {
                if 0 <= pos && pos < input.len() {
                    match input[pos] {
                        TtModel::Subtree { delimiter: d2, children } => {
                            if delimiter == d2 {
                                match match_seq(tokens, 0, children, 0) {
                                    None => None,
                                    Some((inner_es, inner_end)) => if inner_end
                                        == children.len() {
                                        match match_seq(ops, oi + 1, input, pos + 1) {
                                            None => None,
                                            Some((es, fin)) => Some((inner_es + es, fin)),
                                        }
                                    } else {
                                        None
                                    },
                                }
                            } else {
                                None
                            }
                        },
                        _ => None,
                    }
                } else {
                    None
                }
            },
            OpModel::Repeat { tokens, rkind, sep } => {
                let (iters, rend) = match_repeat(
                    tokens,
                    sep,
                    input,
                    pos,
                    true,
                    rkind == RepeatKind::ZeroOrOne,
                );
                if rkind == RepeatKind::OneOrMore && iters.len() == 0 {
                    None
                } else {
                    let nested = nested_entries(var_names_from(tokens, 0), iters);
                    match match_seq(ops, oi + 1, input, rend) {
                        None => None,
                        Some((es, fin)) => Some((nested + es, fin)),
                    }
                }
            },
        }
    }
}

/// Greedily matches successive iterations of a repetition's inner sequence,
/// a separator occurrence before every iteration but the first: the
/// per-iteration captures and the position just past the last iteration.
/// It stops at the first iteration that does not match (or does not make
/// progress), and after one iteration when `once` is set.
pub open spec fn match_repeat(
    inner: Seq<OpModel>,
    sep: Option<SepModel>,
    input: Seq<TtModel>,
    pos: int,
    first: bool,
    once: bool,
) -> (Seq<Seq<EntryModel>>, int)
    decreases ops_size_from(inner, 0) + 1, natsub(input.len() as int, pos), 0int,
{
    let p1opt: Option<int> = if first {
        Some(pos)
    } else {
        match sep {
            None => Some(pos),
            Some(s) => sep_end(s, input, pos),
        }
    };
    match p1opt {
        None => (Seq::empty(), pos),
        Some(p1) => match match_seq(inner, 0, input, p1) {
            None => (Seq::empty(), pos),
            Some((es, end)) => {
                if end <= pos || end > input.len() {
                    (Seq::empty(), pos)
                } else if once {
                    (seq![es], end)
                } else {
                    let (rest, fin) = match_repeat(inner, sep, input, end, false, once);
                    (seq![es] + rest, fin)
                }
            },
        },
    }
}

/// Matches a whole pattern against a whole invocation token stream: the
/// pattern must consume the input exactly.
pub open spec fn match_rule(lhs: Seq<OpModel>, input: Seq<TtModel>) -> Option<Seq<EntryModel>> {
    match match_seq(lhs, 0, input, 0) {
        Some((es, end)) => if end == input.len() {
            Some(es)
        } else {
            None
        },
        None => None,
    }
}

impl Binding {
    /// An identical capture.
    pub fn copy(&self) -> (r: Binding)
        ensures
            r.model() == self.model(),
        decreases self,
    {
        match self {
            Binding::Fragment(t) => Binding::Fragment(t.copy()),
            Binding::Nested(bs) => {
                let mut out: Vec<Binding> = Vec::new();
                let n = bs.len();
                let mut i: usize = 0;
                #[verifier::loop_isolation(false)]
                while i < n
                    invariant
                        i <= n,
                        out@.len() == i,
                        forall|j: int| 0 <= j < i ==> out@[j].model() == bs@[j].model(),
                    decreases n - i,
                {
                    proof {
                        vstd::std_specs::vec::axiom_vec_decreases_to_view(*bs);
                        vstd::seq::axiom_seq_index_decreases(bs@, i as int);
                    }
                    out.push(bs[i].copy());
                    i = i + 1;
                }
                proof {
                    broadcast use lemma_binding_models_of;

                    assert(binding_models_of(out@) =~= binding_models_of(bs@));
                }
                Binding::Nested(out)
            },
        }
    }
}

/// Whether an executable fragment capture agrees with the model one.
pub open spec fn frag_matches(r: Option<(Binding, usize)>, m: Option<(BindingModel, int)>) -> bool {
    match (r, m) {
        (Some((b, e)), Some((bm, em))) => b.model() == bm && e as int == em,
        (None, None) => true,
        _ => false,
    }
}

/// Whether the tree ends an `item` fragment.
fn is_item_stop_x(t: &TokenTree) -> (r: bool)
    ensures
        r == is_item_stop(t.model()),
{
    match t {
        TokenTree::Subtree(s) => match s.delimiter {
            Some(DelimiterKind::Brace) => true,
            _ => false,
        },
        TokenTree::Leaf(Leaf::Punct(p)) => p.ch == ';',
        _ => false,
    }
}

/// The position of the first `item` stop at or after `pos`. Mirrors
/// `item_end`.
fn item_end_x(input: &Vec<TokenTree>, pos: usize) -> (r: Option<usize>)
    ensures
        (match (r, item_end(models_of(input@), pos as int)) {
            (Some(k), Some(km)) => k as int == km && pos <= k < input@.len(),
            (None, None) => true,
            _ => false,
        }),
    decreases natsub(input@.len() as int, pos as int),
{
    if pos >= input.len() {
        None
    } else if is_item_stop_x(&input[pos]) {
        Some(pos)
    } else {
        item_end_x(input, pos + 1)
    }
}

/// An undelimited subtree holding copies of `input[from..to]`.
fn copy_range_subtree(input: &Vec<TokenTree>, from: usize, to: usize) -> (r: TokenTree)
    requires
        from <= to <= input@.len(),
    ensures
        r.model() == (TtModel::Subtree {
            delimiter: None,
            children: models_of(input@).subrange(from as int, to as int),
        }),
{
    let mut children: Vec<TokenTree> = Vec::new();
    let mut i = from;
    #[verifier::loop_isolation(false)]
    while i < to
        invariant
            from <= i <= to,
            children@.len() == i - from,
            forall|j: int| 0 <= j < i - from ==> children@[j].model() == input@[from + j].model(),
        decreases to - i,
    {
        children.push(input[i].copy());
        i = i + 1;
    }
    proof {
        assert(models_of(children@) =~= models_of(input@).subrange(from as int, to as int));
    }
    TokenTree::Subtree(Subtree { delimiter: None, token_trees: children })
}

/// The reduced fragment recognizer. Mirrors `frag_take`.
fn frag_take_x(kind: Option<MetaVarKind>, input: &Vec<TokenTree>, pos: usize) -> (r: Option<
    (Binding, usize),
>)
    ensures
        frag_matches(r, frag_take(kind, models_of(input@), pos as int)),
{
    if pos >= input.len() {
        return None;
    }
    match kind {
        None | Some(MetaVarKind::Tt) | Some(MetaVarKind::Expr) | Some(MetaVarKind::Pat) | Some(
            MetaVarKind::Path,
        ) | Some(MetaVarKind::Ty) | Some(MetaVarKind::Vis) => Some(
            (Binding::Fragment(input[pos].copy()), pos + 1),
        ),
        Some(MetaVarKind::Ident) => match &input[pos] {
            TokenTree::Leaf(Leaf::Ident(_)) => Some(
                (Binding::Fragment(input[pos].copy()), pos + 1),
            ),
            _ => None,
        },
        Some(MetaVarKind::Literal) => match &input[pos] {
            TokenTree::Leaf(Leaf::Literal(_)) => Some(
                (Binding::Fragment(input[pos].copy()), pos + 1),
            ),
            _ => None,
        },
        Some(MetaVarKind::Lifetime) => {
            let tick = match &input[pos] {
                TokenTree::Leaf(Leaf::Punct(p)) => p.ch == '\'',
                _ => false,
            };
            let id_next = pos + 1 < input.len() && (match &input[pos + 1] {
                TokenTree::Leaf(Leaf::Ident(_)) => true,
                _ => false,
            });
            if tick && id_next {
                let frag = copy_range_subtree(input, pos, pos + 2);
                proof {
                    assert(models_of(input@).subrange(pos as int, pos as int + 2)
                        =~= seq![models_of(input@)[pos as int], models_of(input@)[pos as int + 1]]);
                }
                Some((Binding::Fragment(frag), pos + 2))
            } else {
                None
            }
        },
        Some(MetaVarKind::Block) => match &input[pos] {
            TokenTree::Subtree(s) => match s.delimiter {
                Some(DelimiterKind::Brace) => Some(
                    (Binding::Fragment(input[pos].copy()), pos + 1),
                ),
                _ => None,
            },
            _ => None,
        },
        Some(MetaVarKind::Item) => match item_end_x(input, pos) {
            None => None,
            Some(k) => {
                if k == pos {
                    Some((Binding::Fragment(input[pos].copy()), pos + 1))
                } else {
                    Some((Binding::Fragment(copy_range_subtree(input, pos, k + 1)), k + 1))
                }
            },
        },
        Some(MetaVarKind::Meta) => match &input[pos] {
            TokenTree::Leaf(Leaf::Ident(_)) => {
                let paren_next = pos + 1 < input.len() && (match &input[pos + 1] {
                    TokenTree::Subtree(s) => match s.delimiter {
                        Some(DelimiterKind::Parenthesis) => true,
                        _ => false,
                    },
                    _ => false,
                });
                if paren_next {
                    let frag = copy_range_subtree(input, pos, pos + 2);
                    proof {
                        assert(models_of(input@).subrange(pos as int, pos as int + 2)
                            =~= seq![
                            models_of(input@)[pos as int],
                            models_of(input@)[pos as int + 1],
                        ]);
                    }
                    Some((Binding::Fragment(frag), pos + 2))
                } else {
                    Some((Binding::Fragment(input[pos].copy()), pos + 1))
                }
            },
            _ => None,
        },
    }
}

/// The position just past one separator occurrence. Mirrors `sep_end`.
fn sep_end_x(sep: &Separator, input: &Vec<TokenTree>, pos: usize) -> (r: Option<usize>)
    ensures
        (match (r, sep_end(sep.model(), models_of(input@), pos as int)) {
            (Some(p), Some(pm)) => p as int == pm,
            (None, None) => true,
            _ => false,
        }),
{
    match sep {
        Separator::Literal(l) => {
            if pos < input.len() {
                let hit = match &input[pos] {
                    TokenTree::Leaf(Leaf::Literal(l2)) => l2.text.eq(&l.text),
                    _ => false,
                };
                if hit {
                    Some(pos + 1)
                } else {
                    None
                }
            } else {
                None
            }
        },
        Separator::Ident(idt) => {
            if pos < input.len() {
                let hit = match &input[pos] {
                    TokenTree::Leaf(Leaf::Ident(i2)) => i2.text.eq(&idt.text),
                    _ => false,
                };
                if hit {
                    Some(pos + 1)
                } else {
                    None
                }
            } else {
                None
            }
        },
        Separator::Puncts(ps) => {
            if pos <= input.len() && ps.len() <= input.len() - pos {
                let mut j: usize = 0;
                #[verifier::loop_isolation(false)]
                while j < ps.len()
                    invariant
                        j <= ps@.len(),
                        pos + ps@.len() <= input@.len(),
                        forall|i: int|
                            0 <= i < j ==> punct_at(
                                models_of(input@),
                                pos + i,
                                sep.model()->Puncts_chs[i].ch,
                            ),
                    decreases ps@.len() - j,
                {
                    let ok = match &input[pos + j] {
                        TokenTree::Leaf(Leaf::Punct(p2)) => p2.ch == ps[j].ch,
                        _ => false,
                    };
                    if !ok {
                        proof {
                            assert(!punct_at(
                                models_of(input@),
                                pos + j,
                                sep.model()->Puncts_chs[j as int].ch,
                            ));
                        }
                        return None;
                    }
                    j = j + 1;
                }
                Some(pos + ps.len())
            } else {
                None
            }
        },
    }
}

/// The first capture under this name in `entries[i..]`. Mirrors
/// `lookup_from`.
pub(crate) fn lookup_from_x<'a>(entries: &'a Vec<BindingEntry>, i: usize, name: &String) -> (r:
    Option<&'a Binding>)
    ensures
        (match (r, lookup_from(entry_models_of(entries@), i as int, name@)) {
            (Some(b), Some(bm)) => b.model() == bm,
            (None, None) => true,
            _ => false,
        }),
    decreases natsub(entries@.len() as int, i as int),
{
    if i >= entries.len() {
        None
    } else if entries[i].name.eq(name) {
        Some(&entries[i].binding)
    } else {
        lookup_from_x(entries, i + 1, name)
    }
}

/// The per-iteration captures under one name. Mirrors `col`.
fn col_x(iters: &Vec<Bindings>, name: &String) -> (r: Vec<Binding>)
    ensures
        binding_models_of(r@) == col(iters_models(iters@), name@),
{
    let mut out: Vec<Binding> = Vec::new();
    let mut i: usize = 0;
    #[verifier::loop_isolation(false)]
    while i < iters.len()
        invariant
            i <= iters@.len(),
            out@.len() == i,
            forall|j: int| 0 <= j < i ==> out@[j].model() == col(iters_models(iters@), name@)[j],
        decreases iters@.len() - i,
    {
        match lookup_from_x(&iters[i].entries, 0, name) {
            Some(b) => out.push(b.copy()),
            None => out.push(Binding::Nested(Vec::new())),
        }
        proof {
            broadcast use lemma_binding_models_of;

            assert(binding_models_of(Seq::<Binding>::empty()) =~= Seq::<BindingModel>::empty());
        }
        i = i + 1;
    }
    proof {
        broadcast use lemma_binding_models_of;

        assert(binding_models_of(out@) =~= col(iters_models(iters@), name@));
    }
    out
}

/// The captures of a whole repetition. Mirrors `nested_entries`.
fn build_nested(names: &Vec<String>, iters: &Vec<Bindings>) -> (r: Vec<BindingEntry>)
    ensures
        entry_models_of(r@) == nested_entries(names_model(names@), iters_models(iters@)),
{
    let mut out: Vec<BindingEntry> = Vec::new();
    let mut k: usize = 0;
    #[verifier::loop_isolation(false)]
    while k < names.len()
        invariant
            k <= names@.len(),
            out@.len() == k,
            forall|j: int|
                0 <= j < k ==> out@[j].model() == nested_entries(
                    names_model(names@),
                    iters_models(iters@),
                )[j],
        decreases names@.len() - k,
    {
        let b = Binding::Nested(col_x(iters, &names[k]));
        proof {
            assert(b.model() == BindingModel::Nested(col(
                iters_models(iters@),
                names_model(names@)[k as int],
            )));
        }
        out.push(BindingEntry { name: names[k].clone(), binding: b });
        proof {
            assert(out@[k as int].model() == nested_entries(
                names_model(names@),
                iters_models(iters@),
            )[k as int]);
        }
        k = k + 1;
    }
    proof {
        assert(entry_models_of(out@) =~= nested_entries(names_model(names@), iters_models(iters@)));
    }
    out
}

/// The metavariable names of `ops[oi..]`, in order. Mirrors
/// `var_names_from`.
pub fn var_names_x(ops: &Vec<Op>, oi: usize) -> (r: Vec<String>)
    ensures
        names_model(r@) == var_names_from(op_models_of(ops@), oi as int),
    decreases ops_size_from(op_models_of(ops@), oi as int),
{
    if oi >= ops.len() {
        let r: Vec<String> = Vec::new();
        proof {
            assert(names_model(r@) =~= var_names_from(op_models_of(ops@), oi as int));
        }
        return r;
    }
    let mut head: Vec<String> = match &ops[oi] {
        Op::Var { name, .. } => {
            let mut v: Vec<String> = Vec::new();
            v.push(name.clone());
            v
        },
        Op::Subtree { tokens, .. } => {
            proof {
                vstd::seq::axiom_seq_index_decreases(op_models_of(ops@), oi as int);
                assert(op_models_of(ops@)[oi as int] == ops@[oi as int].model());
            }
            var_names_x(tokens, 0)
        },
        Op::Repeat { tokens, .. } => {
            proof {
                vstd::seq::axiom_seq_index_decreases(op_models_of(ops@), oi as int);
                assert(op_models_of(ops@)[oi as int] == ops@[oi as int].model());
            }
            var_names_x(tokens, 0)
        },
        Op::Leaf(_) => Vec::new(),
    };
    let ghost head_m = names_model(head@);
    let mut rest = var_names_x(ops, oi + 1);
    let ghost rest_m = names_model(rest@);
    head.append(&mut rest);
    proof {
        assert(names_model(head@) =~= head_m + rest_m);
        assert(names_model(head@) =~= var_names_from(op_models_of(ops@), oi as int));
    }
    head
}

/// Whether an executable match result agrees with the model one.
pub open spec fn seq_matches(r: Option<(Bindings, usize)>, m: Option<(Seq<EntryModel>, int)>) -> bool {
    match (r, m) {
        (Some((b, p)), Some((es, pm))) => b.model() == es && p as int == pm,
        (None, None) => true,
        _ => false,
    }
}

/// Puts the entries of `a` in front of those of `rest`.
fn concat_entries(a: Vec<BindingEntry>, rest: Bindings) -> (r: Bindings)
    ensures
        r.model() == entry_models_of(a@) + rest.model(),
{
    let mut a = a;
    let mut rest = rest;
    let ghost am = entry_models_of(a@);
    let ghost rm = rest.model();
    a.append(&mut rest.entries);
    proof {
        assert(entry_models_of(a@) =~= am + rm);
    }
    Bindings { entries: a }
}

/// Matches `ops[oi..]` against `input[pos..]`. Mirrors `match_seq`.
pub fn match_seq_x(ops: &Vec<Op>, oi: usize, input: &Vec<TokenTree>, pos: usize) -> (r: Option<
    (Bindings, usize),
>)
    ensures
        seq_matches(r, match_seq(op_models_of(ops@), oi as int, models_of(input@), pos as int)),
    decreases ops_size_from(op_models_of(ops@), oi as int),
        natsub(input@.len() as int, pos as int), 1int,
{
    if oi >= ops.len() {
        let empty = Bindings { entries: Vec::new() };
        proof {
            assert(empty.model() =~= Seq::<EntryModel>::empty());
        }
        return Some((empty, pos));
    }
    match &ops[oi] {
        Op::Leaf(l) => {
            if pos < input.len() {
                let hit = match &input[pos] {
                    TokenTree::Leaf(l2) => l.matches(l2),
                    _ => false,
                };
                if hit {
                    match_seq_x(ops, oi + 1, input, pos + 1)
                } else {
                    None
                }
            } else {
                None
            }
        },
        Op::Var { name, kind } => {
            match frag_take_x(*kind, input, pos) {
                None => None,
                Some((b, end)) => match match_seq_x(ops, oi + 1, input, end) {
                    None => None,
                    Some((rest, fin)) => {
                        let mut rest = rest;
                        let ghost rm = rest.model();
                        rest.entries.insert(0, BindingEntry { name: name.clone(), binding: b });
                        proof {
                            assert(rest.model() =~= seq![
                                EntryModel {
                                    name: name@,
                                    b: rest.entries@[0].binding.model(),
                                },
                            ] + rm);
                        }
                        Some((rest, fin))
                    },
                },
            }
        },
        Op::Subtree { tokens, delimiter } => {
            if pos < input.len() {
                match &input[pos] {
                    TokenTree::Subtree(s2) => {
                        if delim_eq(delimiter, &s2.delimiter) {
                            proof {
                                assert(op_models_of(ops@)[oi as int] == ops@[oi as int].model());
                            }
                            match match_seq_x(tokens, 0, &s2.token_trees, 0) {
                                None => None,
                                Some((inner_b, inner_end)) => {
                                    if inner_end == s2.token_trees.len() {
                                        match match_seq_x(ops, oi + 1, input, pos + 1) {
                                            None => None,
                                            Some((rest, fin)) => Some(
                                                (concat_entries(inner_b.entries, rest), fin),
                                            ),
                                        }
                                    } else {
                                        None
                                    }
                                },
                            }
                        } else {
                            None
                        }
                    },
                    _ => None,
                }
            } else {
                None
            }
        },
        Op::Repeat { tokens, kind, separator } => {
            let once = match kind {
                RepeatKind::ZeroOrOne => true,
                _ => false,
            };
            proof {
                assert(op_models_of(ops@)[oi as int] == ops@[oi as int].model());
            }
            let (iters, rend) = match_repeat_x(tokens, separator, input, pos, true, once);
            let fail = match kind {
                RepeatKind::OneOrMore => iters.len() == 0,
                _ => false,
            };
            if fail {
                None
            } else {
                let names = var_names_x(tokens, 0);
                let nested = build_nested(&names, &iters);
                match match_seq_x(ops, oi + 1, input, rend) {
                    None => None,
                    Some((rest, fin)) => Some((concat_entries(nested, rest), fin)),
                }
            }
        },
    }
}

/// Greedy repetition matching. Mirrors `match_repeat`.
fn match_repeat_x(
    inner: &Vec<Op>,
    sep: &Option<Separator>,
    input: &Vec<TokenTree>,
    pos: usize,
    first: bool,
    once: bool,
) -> (r: (Vec<Bindings>, usize))
    ensures
        ({
            let m = match_repeat(
                op_models_of(inner@),
                opt_sep_model(*sep),
                models_of(input@),
                pos as int,
                first,
                once,
            );
            iters_models(r.0@) == m.0 && r.1 as int == m.1
        }),
    decreases ops_size_from(op_models_of(inner@), 0) + 1,
        natsub(input@.len() as int, pos as int), 0int,
{
    let p1opt: Option<usize> = if first {
        Some(pos)
    } else {
        match sep {
            None => Some(pos),
            Some(s) => sep_end_x(s, input, pos),
        }
    };
    match p1opt {
        None => {
            let out: Vec<Bindings> = Vec::new();
            proof {
                assert(iters_models(out@) =~= Seq::<Seq<EntryModel>>::empty());
            }
            (out, pos)
        },
        Some(p1) => {
            match match_seq_x(inner, 0, input, p1) {
                None => {
                    let out: Vec<Bindings> = Vec::new();
                    proof {
                        assert(iters_models(out@) =~= Seq::<Seq<EntryModel>>::empty());
                    }
                    (out, pos)
                },
                Some((es, end)) => {
                    if end <= pos || end > input.len() {
                        let out: Vec<Bindings> = Vec::new();
                        proof {
                            assert(iters_models(out@) =~= Seq::<Seq<EntryModel>>::empty());
                        }
                        (out, pos)
                    } else if once {
                        let ghost esm = es.model();
                        let mut out: Vec<Bindings> = Vec::new();
                        out.push(es);
                        proof {
                            assert(iters_models(out@) =~= seq![esm]);
                        }
                        (out, end)
                    } else {
                        let ghost esm = es.model();
                        let (rest, fin) = match_repeat_x(inner, sep, input, end, false, once);
                        let ghost restm = iters_models(rest@);
                        let mut rest = rest;
                        rest.insert(0, es);
                        proof {
                            assert(iters_models(rest@) =~= seq![esm] + restm);
                        }
                        (rest, fin)
                    }
                },
            }
        },
    }
}

/// Matches a whole pattern against a whole token stream. Mirrors
/// `match_rule`.
pub fn match_rule_x(lhs: &Vec<Op>, input: &Vec<TokenTree>) -> (r: Option<Bindings>)
    ensures
        (match (r, match_rule(op_models_of(lhs@), models_of(input@))) {
            (Some(b), Some(es)) => b.model() == es,
            (None, None) => true,
            _ => false,
        }),
{
    match match_seq_x(lhs, 0, input, 0) {
        Some((b, end)) => {
            if end == input.len() {
                Some(b)
            } else {
                None
            }
        },
        None => None,
    }
}


/// The number of input tokens consumed by the inner matches of a
/// repetition (the separators excluded), following exactly the iterations
/// `match_repeat` makes.
pub open spec fn repeat_inner_consumed(
    inner: Seq<OpModel>,
    sep: Option<SepModel>,
    input: Seq<TtModel>,
    pos: int,
    first: bool,
    once: bool,
) -> int
    decreases ops_size_from(inner, 0) + 1, natsub(input.len() as int, pos), 0int,
{
    let p1opt: Option<int> = if first {
        Some(pos)
    } else {
        match sep {
            None => Some(pos),
            Some(s) => sep_end(s, input, pos),
        }
    };
    match p1opt {
        None => 0,
        Some(p1) => match match_seq(inner, 0, input, p1) {
            None => 0,
            Some((es, end)) => {
                if end <= pos || end > input.len() {
                    0
                } else if once {
                    end - p1
                } else {
                    (end - p1) + repeat_inner_consumed(inner, sep, input, end, false, once)
                }
            },
        },
    }
}

/// The number of input tokens one occurrence of a separator takes.
pub open spec fn sep_token_len(s: SepModel) -> int {
    match s {
        SepModel::Lit { .. } => 1,
        SepModel::Id { .. } => 1,
        SepModel::Puncts { chs } => chs.len() as int,
    }
}

/// Separator exactness: when a repetition with a separator matches `k`
/// iterations, the input consumed is exactly the tokens of the `k` inner
/// matches plus `k - 1` separator occurrences — one between each pair of
/// adjacent iterations and none after the last (matching ends at the last
/// inner match).
pub proof fn lemma_separator_exactness(
    inner: Seq<OpModel>,
    s: SepModel,
    input: Seq<TtModel>,
    pos: int,
    first: bool,
    once: bool,
)
    ensures
        ({
            let (iters, end) = match_repeat(inner, Some(s), input, pos, first, once);
            let k = iters.len() as int;
            end - pos == repeat_inner_consumed(inner, Some(s), input, pos, first, once) + (
            if first {
                natsub(k, 1) as int
            } else {
                k
            }) * sep_token_len(s)
        }),
    decreases natsub(input.len() as int, pos),
{
    assert(0 * sep_token_len(s) == 0) by (nonlinear_arith);
    assert(1 * sep_token_len(s) == sep_token_len(s)) by (nonlinear_arith);
    let p1opt: Option<int> = if first {
        Some(pos)
    } else {
        sep_end(s, input, pos)
    };
    match p1opt {
        None => {},
        Some(p1) => {
            if !first {
                assert(p1 - pos == sep_token_len(s));
            }
            match match_seq(inner, 0, input, p1) {
                None => {},
                Some((es, end)) => {
                    if end <= pos || end > input.len() {
                    } else if once {
                    } else {
                        lemma_separator_exactness(inner, s, input, end, false, once);
                        let (iters2, end2) = match_repeat(inner, Some(s), input, end, false, once);
                        let k2 = iters2.len() as int;
                        let slen = sep_token_len(s);
                        assert((k2 + 1) * slen == k2 * slen + slen) by (nonlinear_arith);
                        assert(natsub(k2 + 1, 1) as int == k2);
                    }
                },
            }
        },
    }
}

/// Repetition lower and upper bounds: a `ZeroOrOne` repetition never
/// captures more than one iteration.
pub proof fn lemma_zero_or_one_bound(
    inner: Seq<OpModel>,
    sep: Option<SepModel>,
    input: Seq<TtModel>,
    pos: int,
    first: bool,
)
    ensures
        match_repeat(inner, sep, input, pos, first, true).0.len() <= 1,
{
}

/// Repetition lower bound: when a pattern whose node `ops[oi]` is a
/// `OneOrMore` repetition matches, at least one iteration was captured.
pub proof fn lemma_one_or_more_bound(
    ops: Seq<OpModel>,
    oi: int,
    input: Seq<TtModel>,
    pos: int,
    tokens: Seq<OpModel>,
    sep: Option<SepModel>,
)
    requires
        0 <= oi < ops.len(),
        ops[oi] == (OpModel::Repeat { tokens, rkind: RepeatKind::OneOrMore, sep }),
        match_seq(ops, oi, input, pos) is Some,
    ensures
        match_repeat(tokens, sep, input, pos, true, false).0.len() >= 1,
{
}

/// Repetition bounds for `ZeroOrMore`: no count constrains the match — it
/// succeeds exactly when the rest of the pattern matches after the greedy
/// iterations, whatever their number (zero included).
pub proof fn lemma_zero_or_more_unbounded(
    ops: Seq<OpModel>,
    oi: int,
    input: Seq<TtModel>,
    pos: int,
    tokens: Seq<OpModel>,
    sep: Option<SepModel>,
)
    requires
        0 <= oi < ops.len(),
        ops[oi] == (OpModel::Repeat { tokens, rkind: RepeatKind::ZeroOrMore, sep }),
    ensures
        (match_seq(ops, oi, input, pos) is Some) == (match_seq(
            ops,
            oi + 1,
            input,
            match_repeat(tokens, sep, input, pos, true, false).1,
        ) is Some),
{
}


/// Membership survives concatenation.
pub proof fn lemma_contains_append<A>(a: Seq<A>, b: Seq<A>, x: A)
    requires
        a.contains(x) || b.contains(x),
    ensures
        (a + b).contains(x),
{
    if a.contains(x) {
        let i = choose|i: int| 0 <= i < a.len() && a[i] == x;
        assert((a + b)[i] == x);
    } else {
        let i = choose|i: int| 0 <= i < b.len() && b[i] == x;
        assert((a + b)[a.len() + i] == x);
    }
}

/// A name no entry bears is never found.
pub proof fn lemma_lookup_absent(es: Seq<EntryModel>, i: int, name: Seq<char>)
    requires
        forall|k: int| 0 <= k < es.len() ==> (#[trigger] es[k].name) != name,
    ensures
        lookup_from(es, i, name) is None,
    decreases natsub(es.len() as int, i),
{
    if 0 <= i < es.len() {
        lemma_lookup_absent(es, i + 1, name);
    }
}

/// The matcher binds only names the pattern declares: every capture of a
/// successful match bears a metavariable name occurring in `ops[oi..]`.
pub proof fn lemma_match_binds_pattern_vars(
    ops: Seq<OpModel>,
    oi: int,
    input: Seq<TtModel>,
    pos: int,
)
    ensures
        (match match_seq(ops, oi, input, pos) {
            Some((es, end)) => forall|k: int|
                0 <= k < es.len() ==> var_names_from(ops, oi).contains(#[trigger] es[k].name),
            None => true,
        }),
    decreases ops_size_from(ops, oi), natsub(input.len() as int, pos), 1int,
{
    if oi < 0 || oi >= ops.len() {
    } else {
        let names = var_names_from(ops, oi);
        let tail_names = var_names_from(ops, oi + 1);
        match ops[oi] {
            OpModel::Leaf(lm) => {
                if 0 <= pos && pos < input.len() && (match input[pos] {
                    TtModel::Leaf(l2) => leaf_match(lm, l2),
                    _ => false,
                }) {
                    lemma_match_binds_pattern_vars(ops, oi + 1, input, pos + 1);
                    match match_seq(ops, oi + 1, input, pos + 1) {
                        Some((es, _end)) => {
                            assert forall|k: int| 0 <= k < es.len() implies names.contains(
                                #[trigger] es[k].name,
                            ) by {
                                lemma_contains_append(
                                    Seq::<Seq<char>>::empty(),
                                    tail_names,
                                    es[k].name,
                                );
                            }
                        },
                        None => {},
                    }
                }
            },
            OpModel::Var { name, kind } => {
                match frag_take(kind, input, pos) {
                    None => {},
                    Some((b, end)) => {
                        lemma_match_binds_pattern_vars(ops, oi + 1, input, end);
                        match match_seq(ops, oi + 1, input, end) {
                            None => {},
                            Some((es2, _fin)) => {
                                let es = seq![EntryModel { name, b }] + es2;
                                assert forall|k: int| 0 <= k < es.len() implies names.contains(
                                    #[trigger] es[k].name,
                                ) by {
                                    if k == 0 {
                                        assert(seq![name].contains(es[0].name)) by {
                                            assert(seq![name][0] == name);
                                        }
                                        lemma_contains_append(seq![name], tail_names, es[k].name);
                                    } else {
                                        assert(es[k] == es2[k - 1]);
                                        lemma_contains_append(seq![name], tail_names, es[k].name);
                                    }
                                }
                            },
                        }
                    },
                }
            },
            OpModel::Sub { tokens, delimiter } => {
                let head_names = var_names_from(tokens, 0);
                if 0 <= pos && pos < input.len() {
                    match input[pos] {
                        TtModel::Subtree { delimiter: d2, children } => {
                            if delimiter == d2 {
                                lemma_match_binds_pattern_vars(tokens, 0, children, 0);
                                match match_seq(tokens, 0, children, 0) {
                                    None => {},
                                    Some((inner_es, inner_end)) => {
                                        if inner_end == children.len() {
                                            lemma_match_binds_pattern_vars(
                                                ops,
                                                oi + 1,
                                                input,
                                                pos + 1,
                                            );
                                            match match_seq(ops, oi + 1, input, pos + 1) {
                                                None => {},
                                                Some((es2, _fin)) => {
                                                    let es = inner_es + es2;
                                                    assert forall|k: int|
                                                        0 <= k < es.len() implies names.contains(
                                                        #[trigger] es[k].name,
                                                    ) by {
                                                        if k < inner_es.len() {
                                                            assert(es[k] == inner_es[k]);
                                                        } else {
                                                            let k2 = k - inner_es.len();
                                                            assert(es[k] == es2[k2]);
                                                        }
                                                        lemma_contains_append(
                                                            head_names,
                                                            tail_names,
                                                            es[k].name,
                                                        );
                                                    }
                                                },
                                            }
                                        }
                                    },
                                }
                            }
                        },
                        _ => {},
                    }
                }
            },
            OpModel::Repeat { tokens, rkind, sep } => {
                let head_names = var_names_from(tokens, 0);
                let (iters, rend) = match_repeat(
                    tokens,
                    sep,
                    input,
                    pos,
                    true,
                    rkind == RepeatKind::ZeroOrOne,
                );
                if rkind == RepeatKind::OneOrMore && iters.len() == 0 {
                } else {
                    let nested = nested_entries(head_names, iters);
                    lemma_match_binds_pattern_vars(ops, oi + 1, input, rend);
                    match match_seq(ops, oi + 1, input, rend) {
                        None => {},
                        Some((es2, _fin)) => {
                            let es = nested + es2;
                            assert forall|k: int| 0 <= k < es.len() implies names.contains(
                                #[trigger] es[k].name,
                            ) by {
                                if k < nested.len() {
                                    assert(es[k] == nested[k]);
                                    assert(nested[k].name == head_names[k]);
                                    assert(head_names.contains(es[k].name)) by {
                                        assert(head_names[k] == es[k].name);
                                    }
                                } else {
                                    assert(es[k] == es2[k - nested.len()]);
                                }
                                lemma_contains_append(head_names, tail_names, es[k].name);
                            }
                        },
                    }
                }
            },
        }
    }
}

} // verus!
