//! The expander: produces the output token stream of a rule's template from
//! the captures of a successful match; and the dispatcher, which tries the
//! rules in declaration order.

use vstd::prelude::*;
use crate::{Ident, Leaf, LeafModel, Literal, models_of, Punct, Subtree, TokenTree, TtModel};
use crate::matcher::{
    Binding, BindingModel, Bindings, EntryModel, lookup_entries, lookup_from_x, match_rule,
    match_rule_x, names_model, var_names_x,
};
use crate::ops::{
    MacroRules, natsub, Op, op_models_of, OpModel, ops_size_from, Rule, rule_models_of, RuleModel,
    SepModel, Separator, var_names_from,
};
use crate::parser::opt_sep_model;

verus! {

broadcast use vstd::std_specs::vec::group_vec_axioms, crate::lemma_models_of,
    crate::ops::lemma_op_models_of;

/// Why an invocation could not be (fully) expanded.
#[derive(Clone, Copy, PartialEq, Eq, Structural, Debug)]
pub enum ExpandError {
    /// No rule's pattern matched the invocation.
    NoMatchingRule,
    /// The template uses a metavariable that holds no capture — one the
    /// pattern never declares, an iteration index beyond the captured
    /// count, or a repetition referencing no bound metavariable to drive
    /// its count.
    UnboundVariable,
    /// The metavariables under one template repetition disagree on the
    /// iteration count.
    RepetitionCountMismatch,
    /// The template uses a metavariable at a repetition depth different
    /// from the one it was captured at — shallower or deeper.
    RepetitionDepthMismatch,
}

/// What `expand` hands back: the output is always populated — possibly
/// partially, or empty — so batch callers can proceed, and `err` says
/// whether expansion fully succeeded.
pub struct ExpandResult {
    pub value: Subtree,
    pub err: Option<ExpandError>,
}

/// Mathematical model of an expansion result.
#[verifier::ext_equal]
pub struct ExpandResultModel {
    pub value: TtModel,
    pub err: Option<ExpandError>,
}

impl ExpandResult {
    pub open spec fn model(self) -> ExpandResultModel {
        ExpandResultModel { value: self.value.model(), err: self.err }
    }
}

/// The next value of the fresh-identifier counter.
pub open spec fn bump(c: u32) -> u32 {
    if c == 0xffff_ffffu32 {
        0u32
    } else {
        (c + 1) as u32
    }
}

/// The capture a binding holds at the repetition indices `nesting`: a
/// nested capture is indexed one level per repetition. A metavariable must
/// stand in the template at exactly the repetition depth it was captured
/// at: a single fragment met with indices remaining (used deeper than
/// captured) and a nested capture met with none left (used shallower) are
/// both depth mismatches, never a silent default. An index beyond the
/// captured count leaves the variable unbound there.
pub open spec fn resolve_binding(b: BindingModel, nesting: Seq<int>) -> Result<
    TtModel,
    ExpandError,
>
    decreases nesting.len(),
{
    match b {
        BindingModel::Frag(t) => if nesting.len() == 0 {
            Ok(t)
        } else {
            Err(ExpandError::RepetitionDepthMismatch)
        },
        BindingModel::Nested(bs) => if nesting.len() == 0 {
            Err(ExpandError::RepetitionDepthMismatch)
        } else if 0 <= nesting[0] < bs.len() {
            resolve_binding(bs[nesting[0]], nesting.drop_first())
        } else {
            Err(ExpandError::UnboundVariable)
        },
    }
}

/// The capture a metavariable name holds at the current repetition indices.
pub open spec fn resolve(es: Seq<EntryModel>, name: Seq<char>, nesting: Seq<int>) -> Result<
    TtModel,
    ExpandError,
> {
    match lookup_entries(es, name) {
        None => Err(ExpandError::UnboundVariable),
        Some(b) => resolve_binding(b, nesting),
    }
}

/// A captured fragment spliced into the output: an undelimited subtree
/// contributes its children, anything else itself.
pub open spec fn splice(t: TtModel) -> Seq<TtModel> {
    match t {
        TtModel::Subtree { delimiter: None, children } => children,
        _ => seq![t],
    }
}

/// The iteration count a binding offers at the repetition indices, if it is
/// nested there.
pub open spec fn nested_len_at(b: BindingModel, nesting: Seq<int>) -> Option<int>
    decreases nesting.len(),
{
    match b {
        BindingModel::Frag(_) => None,
        BindingModel::Nested(bs) => if nesting.len() == 0 {
            Some(bs.len() as int)
        } else if 0 <= nesting[0] < bs.len() {
            nested_len_at(bs[nesting[0]], nesting.drop_first())
        } else {
            None
        },
    }
}

/// The iteration counts offered by the names `names[ni..]`, in order.
pub open spec fn counts_from(
    es: Seq<EntryModel>,
    names: Seq<Seq<char>>,
    ni: int,
    nesting: Seq<int>,
) -> Seq<int>
    decreases natsub(names.len() as int, ni),
{
    if ni < 0 || ni >= names.len() {
        Seq::empty()
    } else {
        let rest = counts_from(es, names, ni + 1, nesting);
        match lookup_entries(es, names[ni]) {
            None => rest,
            Some(b) => match nested_len_at(b, nesting) {
                None => rest,
                Some(n) => seq![n] + rest,
            },
        }
    }
}

/// Whether any of the names `names[ni..]` holds no capture at all.
pub open spec fn has_unbound(es: Seq<EntryModel>, names: Seq<Seq<char>>, ni: int) -> bool
    decreases natsub(names.len() as int, ni),
{
    if ni < 0 || ni >= names.len() {
        false
    } else {
        lookup_entries(es, names[ni]) is None || has_unbound(es, names, ni + 1)
    }
}

/// The iteration count of a repetition, determined from the metavariables
/// referenced under it — never a silent default. A repetition referencing
/// no metavariable at all, or referencing a name that holds no capture, is
/// `UnboundVariable`: nothing bound can drive its count. Names all bound
/// but only at other repetition depths are `RepetitionDepthMismatch`.
/// Bound names disagreeing on their count are `RepetitionCountMismatch`.
pub open spec fn repeat_count(
    es: Seq<EntryModel>,
    names: Seq<Seq<char>>,
    nesting: Seq<int>,
) -> Result<int, ExpandError> {
    if names.len() == 0 || has_unbound(es, names, 0) {
        Err(ExpandError::UnboundVariable)
    } else {
        let cs = counts_from(es, names, 0, nesting);
        if cs.len() == 0 {
            Err(ExpandError::RepetitionDepthMismatch)
        } else if forall|i: int| 0 <= i < cs.len() ==> #[trigger] cs[i] == cs[0] {
            Ok(cs[0])
        } else {
            Err(ExpandError::RepetitionCountMismatch)
        }
    }
}

/// The leaf with its provenance identifier replaced by a fresh one.
pub open spec fn relabel(l: LeafModel, c: u32) -> LeafModel {
    match l {
        LeafModel::Ident { text, .. } => LeafModel::Ident { text, id: c },
        LeafModel::Punct { ch, spacing, .. } => LeafModel::Punct { ch, spacing, id: c },
        LeafModel::Literal { text, .. } => LeafModel::Literal { text, id: c },
    }
}

/// The tokens emitted for the punctuation characters `chs[j..]` of a
/// separator, with fresh identifiers, and the counter afterwards.
pub open spec fn emit_sep_puncts(chs: Seq<Punct>, j: int, c: u32) -> (Seq<TtModel>, u32)
    decreases natsub(chs.len() as int, j),
{
    if j < 0 || j >= chs.len() {
        (Seq::empty(), c)
    } else {
        let (rest, c2) = emit_sep_puncts(chs, j + 1, bump(c));
        (
            seq![
                TtModel::Leaf(LeafModel::Punct { ch: chs[j].ch, spacing: chs[j].spacing, id: c }),
            ] + rest,
            c2,
        )
    }
}

/// The tokens emitted for one separator occurrence, with fresh identifiers.
pub open spec fn emit_sep(sep: SepModel, c: u32) -> (Seq<TtModel>, u32) {
    match sep {
        SepModel::Lit { text } => (seq![TtModel::Leaf(LeafModel::Literal { text, id: c })], bump(c)),
        SepModel::Id { text } => (seq![TtModel::Leaf(LeafModel::Ident { text, id: c })], bump(c)),
        SepModel::Puncts { chs } => emit_sep_puncts(chs, 0, c),
    }
}

/// The first error, if any.
pub open spec fn comb(a: Option<ExpandError>, b: Option<ExpandError>) -> Option<ExpandError> {
    match a {
        Some(_) => a,
        None => b,
    }
}

/// Expands the template nodes `ops[oi..]` under the captures `es` at
/// repetition indices `nesting`, with `c` the fresh-identifier counter:
/// the emitted tokens, the first error met (expansion is best-effort: a
/// failed metavariable or repetition emits nothing and expansion goes on),
/// and the counter afterwards.
pub open spec fn expand_seq(
    ops: Seq<OpModel>,
    oi: int,
    es: Seq<EntryModel>,
    nesting: Seq<int>,
    c: u32,
) -> (Seq<TtModel>, Option<ExpandError>, u32)
    decreases ops_size_from(ops, oi), 0nat, 1int,
{
    if oi < 0 || oi >= ops.len() {
        (Seq::empty(), None, c)
    } else {
        let (head, e1, c1): (Seq<TtModel>, Option<ExpandError>, u32) = match ops[oi] {
            OpModel::Leaf(lm) => (seq![TtModel::Leaf(relabel(lm, c))], None, bump(c)),
            OpModel::Var { name, kind } => match resolve(es, name, nesting) {
                Ok(t) => (splice(t), None, c),
                Err(e) => (Seq::empty(), Some(e), c),
            },
            OpModel::Sub { tokens, delimiter } => {
                let (inner, e, c2) = expand_seq(tokens, 0, es, nesting, c);
                (seq![TtModel::Subtree { delimiter, children: inner }], e, c2)
            },
            OpModel::Repeat { tokens, rkind, sep } => {
                match repeat_count(es, var_names_from(tokens, 0), nesting) {
                    Err(e) => (Seq::empty(), Some(e), c),
                    Ok(n) => expand_repeat(tokens, sep, es, nesting, 0, n, c),
                }
            },
        };
        let (rest, e2, c3) = expand_seq(ops, oi + 1, es, nesting, c1);
        (head + rest, comb(e1, e2), c3)
    }
}

/// Expands iterations `i..n` of a repetition, the separator emitted between
/// iterations and never after the last.
pub open spec fn expand_repeat(
    tokens: Seq<OpModel>,
    sep: Option<SepModel>,
    es: Seq<EntryModel>,
    nesting: Seq<int>,
    i: int,
    n: int,
    c: u32,
) -> (Seq<TtModel>, Option<ExpandError>, u32)
    decreases ops_size_from(tokens, 0) + 1, natsub(n, i), 0int,
{
    if i >= n {
        (Seq::empty(), None, c)
    } else {
        let (one, e1, c1) = expand_seq(tokens, 0, es, nesting.push(i), c);
        let (sep_trees, c2): (Seq<TtModel>, u32) = if i + 1 < n {
            match sep {
                Some(s) => emit_sep(s, c1),
                None => (Seq::empty(), c1),
            }
        } else {
            (Seq::empty(), c1)
        };
        let (rest, e2, c3) = expand_repeat(tokens, sep, es, nesting, i + 1, n, c2);
        (one + sep_trees + rest, comb(e1, e2), c3)
    }
}

/// The first rule whose pattern matches the whole input, with its captures.
pub open spec fn first_match(rules: Seq<RuleModel>, ri: int, input: Seq<TtModel>) -> Option<
    (int, Seq<EntryModel>),
>
    decreases natsub(rules.len() as int, ri),
{
    if ri < 0 || ri >= rules.len() {
        None
    } else {
        match match_rule(rules[ri].lhs, input) {
            Some(es) => Some((ri, es)),
            None => first_match(rules, ri + 1, input),
        }
    }
}

/// The model of a repetition-index stack.
pub open spec fn nesting_model(ns: Seq<usize>) -> Seq<int> {
    Seq::new(ns.len(), |i: int| ns[i] as int)
}

/// The model of a sequence of counts.
pub open spec fn usizes_model(v: Seq<usize>) -> Seq<int> {
    Seq::new(v.len(), |i: int| v[i] as int)
}

/// The provenance identifier of a leaf.
pub open spec fn leaf_id(l: LeafModel) -> u32 {
    match l {
        LeafModel::Ident { id, .. } => id,
        LeafModel::Punct { id, .. } => id,
        LeafModel::Literal { id, .. } => id,
    }
}

/// The largest provenance identifier on any leaf of `ts[i..]` (zero when
/// there is none).
pub open spec fn max_id_from(ts: Seq<TtModel>, i: int) -> u32
    decreases ts, natsub(ts.len() as int, i),
{
    if i < 0 || i >= ts.len() {
        0
    } else {
        let own: u32 = match ts[i] {
            TtModel::Leaf(l) => leaf_id(l),
            TtModel::Subtree { children, .. } => max_id_from(children, 0),
        };
        let rest = max_id_from(ts, i + 1);
        if own > rest {
            own
        } else {
            rest
        }
    }
}

/// Expanding an invocation against an ordered rule set: the first matching
/// rule's template, expanded under its captures; `NoMatchingRule` with an
/// empty output when no rule matches. Fresh identifiers for emitted leaves
/// start one past the largest invocation-site identifier, so a
/// macro-generated leaf never bears the identifier of an invocation token
/// (unless an invocation token already bears the largest representable
/// identifier, when the counter wraps to zero).
pub open spec fn expand_model(rules: Seq<RuleModel>, inv: TtModel) -> ExpandResultModel {
    let children = match inv {
        TtModel::Subtree { children, .. } => children,
        _ => Seq::empty(),
    };
    match first_match(rules, 0, children) {
        None => ExpandResultModel {
            value: TtModel::Subtree { delimiter: None, children: Seq::empty() },
            err: Some(ExpandError::NoMatchingRule),
        },
        Some((ri, es)) => {
            let c0 = bump(max_id_from(children, 0));
            let (trees, e, _) = expand_seq(rules[ri].rhs, 0, es, Seq::empty(), c0);
            ExpandResultModel {
                value: TtModel::Subtree { delimiter: None, children: trees },
                err: e,
            }
        },
    }
}

/// The next fresh-identifier counter value.
fn bump_x(c: u32) -> (r: u32)
    ensures
        r == bump(c),
{
    if c == 0xffff_ffffu32 {
        0
    } else {
        c + 1
    }
}

/// An identical index stack.
fn copy_usizes(v: &Vec<usize>) -> (r: Vec<usize>)
    ensures
        r@ == v@,
{
    let mut out: Vec<usize> = Vec::new();
    let mut i: usize = 0;
    #[verifier::loop_isolation(false)]
    while i < v.len()
        invariant
            i <= v@.len(),
            out@ == v@.subrange(0, i as int),
        decreases v@.len() - i,
    {
        out.push(v[i]);
        i = i + 1;
    }
    proof {
        assert(out@ =~= v@);
    }
    out
}

/// Identical copies of a whole token-tree sequence.
fn copy_trees(ts: &Vec<TokenTree>) -> (r: Vec<TokenTree>)
    ensures
        models_of(r@) == models_of(ts@),
{
    let mut out: Vec<TokenTree> = Vec::new();
    let mut i: usize = 0;
    #[verifier::loop_isolation(false)]
    while i < ts.len()
        invariant
            i <= ts@.len(),
            out@.len() == i,
            forall|j: int| 0 <= j < i ==> out@[j].model() == ts@[j].model(),
        decreases ts@.len() - i,
    {
        out.push(ts[i].copy());
        i = i + 1;
    }
    proof {
        assert(models_of(out@) =~= models_of(ts@));
    }
    out
}

/// Resolves a capture at the repetition indices `nesting[d..]`. Mirrors
/// `resolve_binding`.
fn resolve_binding_x<'a>(b: &'a Binding, nesting: &Vec<usize>, d: usize) -> (r: Result<
    &'a TokenTree,
    ExpandError,
>)
    requires
        d <= nesting@.len(),
    ensures
        (match (r, resolve_binding(b.model(), nesting_model(nesting@).skip(d as int))) {
            (Ok(t), Ok(tm)) => t.model() == tm,
            (Err(e), Err(em)) => e == em,
            _ => false,
        }),
    decreases natsub(nesting@.len() as int, d as int),
{
    match b {
        Binding::Fragment(t) => {
            if d >= nesting.len() {
                Ok(t)
            } else {
                Err(ExpandError::RepetitionDepthMismatch)
            }
        },
        Binding::Nested(bs) => {
            proof {
                crate::matcher::lemma_binding_models_of(bs@);
            }
            if d >= nesting.len() {
                Err(ExpandError::RepetitionDepthMismatch)
            } else {
                let idx = nesting[d];
                proof {
                    assert(nesting_model(nesting@).skip(d as int)[0] == nesting@[d as int] as int);
                }
                if idx < bs.len() {
                    proof {
                        assert(nesting_model(nesting@).skip(d as int).drop_first()
                            =~= nesting_model(nesting@).skip(d as int + 1));
                    }
                    resolve_binding_x(&bs[idx], nesting, d + 1)
                } else {
                    Err(ExpandError::UnboundVariable)
                }
            }
        },
    }
}

/// Resolves a metavariable name at the current repetition indices. Mirrors
/// `resolve`.
fn resolve_x<'a>(bnd: &'a Bindings, name: &String, nesting: &Vec<usize>) -> (r: Result<
    &'a TokenTree,
    ExpandError,
>)
    ensures
        (match (r, resolve(bnd.model(), name@, nesting_model(nesting@))) {
            (Ok(t), Ok(tm)) => t.model() == tm,
            (Err(e), Err(em)) => e == em,
            _ => false,
        }),
{
    match lookup_from_x(&bnd.entries, 0, name) {
        None => Err(ExpandError::UnboundVariable),
        Some(b) => {
            proof {
                assert(nesting_model(nesting@).skip(0) =~= nesting_model(nesting@));
            }
            resolve_binding_x(b, nesting, 0)
        },
    }
}

/// Splices a captured fragment into the output. Mirrors `splice`.
fn splice_x(t: &TokenTree) -> (r: Vec<TokenTree>)
    ensures
        models_of(r@) == splice(t.model()),
{
    let bare = match t {
        TokenTree::Subtree(s) => match s.delimiter {
            None => true,
            Some(_) => false,
        },
        _ => false,
    };
    match t {
        TokenTree::Subtree(s) => {
            if bare {
                copy_trees(&s.token_trees)
            } else {
                let mut v: Vec<TokenTree> = Vec::new();
                v.push(t.copy());
                proof {
                    assert(models_of(v@) =~= seq![v@[0].model()]);
                }
                v
            }
        },
        _ => {
            let mut v: Vec<TokenTree> = Vec::new();
            v.push(t.copy());
            proof {
                assert(models_of(v@) =~= seq![v@[0].model()]);
            }
            v
        },
    }
}

/// The iteration count a capture offers at the indices `nesting[d..]`.
/// Mirrors `nested_len_at`.
fn nested_len_at_x(b: &Binding, nesting: &Vec<usize>, d: usize) -> (r: Option<usize>)
    requires
        d <= nesting@.len(),
    ensures
        (match (r, nested_len_at(b.model(), nesting_model(nesting@).skip(d as int))) {
            (Some(n), Some(nm)) => n as int == nm,
            (None, None) => true,
            _ => false,
        }),
    decreases natsub(nesting@.len() as int, d as int),
{
    match b {
        Binding::Fragment(_) => None,
        Binding::Nested(bs) => {
            proof {
                crate::matcher::lemma_binding_models_of(bs@);
            }
            if d >= nesting.len() {
                Some(bs.len())
            } else {
                let idx = nesting[d];
                proof {
                    assert(nesting_model(nesting@).skip(d as int)[0] == nesting@[d as int] as int);
                }
                if idx < bs.len() {
                    proof {
                        assert(nesting_model(nesting@).skip(d as int).drop_first()
                            =~= nesting_model(nesting@).skip(d as int + 1));
                    }
                    nested_len_at_x(&bs[idx], nesting, d + 1)
                } else {
                    None
                }
            }
        },
    }
}

/// The iteration counts offered by `names[ni..]`. Mirrors `counts_from`.
fn counts_x(bnd: &Bindings, names: &Vec<String>, ni: usize, nesting: &Vec<usize>) -> (r: Vec<
    usize,
>)
    ensures
        usizes_model(r@) == counts_from(
            bnd.model(),
            names_model(names@),
            ni as int,
            nesting_model(nesting@),
        ),
    decreases natsub(names@.len() as int, ni as int),
{
    if ni >= names.len() {
        let r: Vec<usize> = Vec::new();
        proof {
            assert(usizes_model(r@) =~= Seq::<int>::empty());
        }
        return r;
    }
    let mut rest = counts_x(bnd, names, ni + 1, nesting);
    let ghost restm = usizes_model(rest@);
    match lookup_from_x(&bnd.entries, 0, &names[ni]) {
        None => rest,
        Some(b) => {
            proof {
                assert(nesting_model(nesting@).skip(0) =~= nesting_model(nesting@));
            }
            match nested_len_at_x(b, nesting, 0) {
                None => rest,
                Some(n) => {
                    rest.insert(0, n);
                    proof {
                        assert(usizes_model(rest@) =~= seq![n as int] + restm);
                    }
                    rest
                },
            }
        },
    }
}

/// Whether any of `names[ni..]` holds no capture. Mirrors `has_unbound`.
fn has_unbound_x(bnd: &Bindings, names: &Vec<String>, ni: usize) -> (r: bool)
    ensures
        r == has_unbound(bnd.model(), names_model(names@), ni as int),
    decreases natsub(names@.len() as int, ni as int),
{
    if ni >= names.len() {
        false
    } else if match lookup_from_x(&bnd.entries, 0, &names[ni]) {
        None => true,
        Some(_) => false,
    } {
        true
    } else {
        has_unbound_x(bnd, names, ni + 1)
    }
}

/// The agreed iteration count of a repetition. Mirrors `repeat_count`.
fn repeat_count_x(bnd: &Bindings, names: &Vec<String>, nesting: &Vec<usize>) -> (r: Result<
    usize,
    ExpandError,
>)
    ensures
        (match (r, repeat_count(bnd.model(), names_model(names@), nesting_model(nesting@))) {
            (Ok(n), Ok(nm)) => n as int == nm,
            (Err(e), Err(em)) => e == em,
            _ => false,
        }),
{
    if names.len() == 0 || has_unbound_x(bnd, names, 0) {
        return Err(ExpandError::UnboundVariable);
    }
    let cs = counts_x(bnd, names, 0, nesting);
    if cs.len() == 0 {
        return Err(ExpandError::RepetitionDepthMismatch);
    }
    let c0 = cs[0];
    let mut i: usize = 1;
    #[verifier::loop_isolation(false)]
    while i < cs.len()
        invariant
            1 <= i <= cs@.len(),
            forall|j: int| 0 <= j < i ==> #[trigger] usizes_model(cs@)[j] == usizes_model(cs@)[0],
            c0 == cs@[0],
        decreases cs@.len() - i,
    {
        if cs[i] != c0 {
            proof {
                assert(usizes_model(cs@)[i as int] != usizes_model(cs@)[0]);
            }
            return Err(ExpandError::RepetitionCountMismatch);
        }
        i = i + 1;
    }
    Ok(c0)
}

/// The leaf with a fresh provenance identifier. Mirrors `relabel`.
fn relabel_x(l: &Leaf, c: u32) -> (r: Leaf)
    ensures
        r.model() == relabel(l.model(), c),
{
    match l {
        Leaf::Ident(i) => Leaf::Ident(Ident { text: i.text.clone(), id: c }),
        Leaf::Punct(p) => Leaf::Punct(Punct { ch: p.ch, spacing: p.spacing, id: c }),
        Leaf::Literal(t) => Leaf::Literal(Literal { text: t.text.clone(), id: c }),
    }
}

/// The first error, if any.
fn comb_x(a: Option<ExpandError>, b: Option<ExpandError>) -> (r: Option<ExpandError>)
    ensures
        r == comb(a, b),
{
    match a {
        Some(e) => Some(e),
        None => b,
    }
}

/// Emits the punctuation characters `ps[j..]` of a separator. Mirrors
/// `emit_sep_puncts`.
fn emit_sep_puncts_x(ps: &Vec<Punct>, j: usize, c: u32) -> (r: (Vec<TokenTree>, u32))
    ensures
        ({
            let m = emit_sep_puncts(ps@, j as int, c);
            models_of(r.0@) == m.0 && r.1 == m.1
        }),
    decreases natsub(ps@.len() as int, j as int),
{
    if j >= ps.len() {
        let v: Vec<TokenTree> = Vec::new();
        proof {
            assert(models_of(v@) =~= Seq::<TtModel>::empty());
        }
        return (v, c);
    }
    let (rest, c2) = emit_sep_puncts_x(ps, j + 1, bump_x(c));
    let mut rest = rest;
    let ghost restm = models_of(rest@);
    rest.insert(0, TokenTree::Leaf(Leaf::Punct(Punct { ch: ps[j].ch, spacing: ps[j].spacing, id: c })));
    proof {
        assert(models_of(rest@) =~= seq![rest@[0].model()] + restm);
    }
    (rest, c2)
}

/// Emits one separator occurrence with fresh identifiers. Mirrors
/// `emit_sep`.
fn emit_sep_x(sep: &Separator, c: u32) -> (r: (Vec<TokenTree>, u32))
    ensures
        ({
            let m = emit_sep(sep.model(), c);
            models_of(r.0@) == m.0 && r.1 == m.1
        }),
{
    match sep {
        Separator::Literal(l) => {
            let mut v: Vec<TokenTree> = Vec::new();
            v.push(TokenTree::Leaf(Leaf::Literal(Literal { text: l.text.clone(), id: c })));
            proof {
                assert(models_of(v@) =~= seq![v@[0].model()]);
            }
            (v, bump_x(c))
        },
        Separator::Ident(i) => {
            let mut v: Vec<TokenTree> = Vec::new();
            v.push(TokenTree::Leaf(Leaf::Ident(Ident { text: i.text.clone(), id: c })));
            proof {
                assert(models_of(v@) =~= seq![v@[0].model()]);
            }
            (v, bump_x(c))
        },
        Separator::Puncts(ps) => emit_sep_puncts_x(ps, 0, c),
    }
}

/// Expands the template nodes `ops[oi..]`. Mirrors `expand_seq`.
pub fn expand_seq_x(
    ops: &Vec<Op>,
    oi: usize,
    bnd: &Bindings,
    nesting: &Vec<usize>,
    c: u32,
) -> (r: (Vec<TokenTree>, Option<ExpandError>, u32))
    ensures
        ({
            let m = expand_seq(
                op_models_of(ops@),
                oi as int,
                bnd.model(),
                nesting_model(nesting@),
                c,
            );
            models_of(r.0@) == m.0 && r.1 == m.1 && r.2 == m.2
        }),
    decreases ops_size_from(op_models_of(ops@), oi as int), 0nat, 1int,
{
    if oi >= ops.len() {
        let out: Vec<TokenTree> = Vec::new();
        proof {
            assert(models_of(out@) =~= Seq::<TtModel>::empty());
        }
        return (out, None, c);
    }
    let (head, e1, c1): (Vec<TokenTree>, Option<ExpandError>, u32) = match &ops[oi] {
        Op::Leaf(l) => {
            let mut v: Vec<TokenTree> = Vec::new();
            v.push(TokenTree::Leaf(relabel_x(l, c)));
            proof {
                assert(models_of(v@) =~= seq![v@[0].model()]);
            }
            (v, None, bump_x(c))
        },
        Op::Var { name, .. } => {
            match resolve_x(bnd, name, nesting) {
                Ok(t) => {
                    let v = splice_x(t);
                    (v, None, c)
                },
                Err(e) => {
                    let v: Vec<TokenTree> = Vec::new();
                    proof {
                        assert(models_of(v@) =~= Seq::<TtModel>::empty());
                    }
                    (v, Some(e), c)
                },
            }
        },
        Op::Subtree { tokens, delimiter } => {
            proof {
                assert(op_models_of(ops@)[oi as int] == ops@[oi as int].model());
            }
            let (inner, e, c2) = expand_seq_x(tokens, 0, bnd, nesting, c);
            let mut v: Vec<TokenTree> = Vec::new();
            v.push(TokenTree::Subtree(Subtree { delimiter: *delimiter, token_trees: inner }));
            proof {
                assert(models_of(v@) =~= seq![v@[0].model()]);
            }
            (v, e, c2)
        },
        Op::Repeat { tokens, separator, .. } => {
            proof {
                assert(op_models_of(ops@)[oi as int] == ops@[oi as int].model());
            }
            let names = var_names_x(tokens, 0);
            match repeat_count_x(bnd, &names, nesting) {
                Err(e) => {
                    let v: Vec<TokenTree> = Vec::new();
                    proof {
                        assert(models_of(v@) =~= Seq::<TtModel>::empty());
                    }
                    (v, Some(e), c)
                },
                Ok(n) => expand_repeat_x(tokens, separator, bnd, nesting, 0, n, c),
            }
        },
    };
    let (rest, e2, c3) = expand_seq_x(ops, oi + 1, bnd, nesting, c1);
    let mut head = head;
    let mut rest = rest;
    let ghost hm = models_of(head@);
    let ghost rm = models_of(rest@);
    head.append(&mut rest);
    proof {
        assert(models_of(head@) =~= hm + rm);
    }
    (head, comb_x(e1, e2), c3)
}

/// Expands iterations `i..n` of a repetition. Mirrors `expand_repeat`.
fn expand_repeat_x(
    tokens: &Vec<Op>,
    sep: &Option<Separator>,
    bnd: &Bindings,
    nesting: &Vec<usize>,
    i: usize,
    n: usize,
    c: u32,
) -> (r: (Vec<TokenTree>, Option<ExpandError>, u32))
    ensures
        ({
            let m = expand_repeat(
                op_models_of(tokens@),
                opt_sep_model(*sep),
                bnd.model(),
                nesting_model(nesting@),
                i as int,
                n as int,
                c,
            );
            models_of(r.0@) == m.0 && r.1 == m.1 && r.2 == m.2
        }),
    decreases ops_size_from(op_models_of(tokens@), 0) + 1, natsub(n as int, i as int), 0int,
{
    if i >= n {
        let out: Vec<TokenTree> = Vec::new();
        proof {
            assert(models_of(out@) =~= Seq::<TtModel>::empty());
        }
        return (out, None, c);
    }
    let mut n2 = copy_usizes(nesting);
    n2.push(i);
    proof {
        assert(nesting_model(n2@) =~= nesting_model(nesting@).push(i as int));
    }
    let (one, e1, c1) = expand_seq_x(tokens, 0, bnd, &n2, c);
    let (sep_trees, c2): (Vec<TokenTree>, u32) = if i + 1 < n {
        match sep {
            Some(s) => emit_sep_x(s, c1),
            None => {
                let v: Vec<TokenTree> = Vec::new();
                proof {
                    assert(models_of(v@) =~= Seq::<TtModel>::empty());
                }
                (v, c1)
            },
        }
    } else {
        let v: Vec<TokenTree> = Vec::new();
        proof {
            assert(models_of(v@) =~= Seq::<TtModel>::empty());
        }
        (v, c1)
    };
    let (rest, e2, c3) = expand_repeat_x(tokens, sep, bnd, nesting, i + 1, n, c2);
    let mut one = one;
    let mut sep_trees = sep_trees;
    let mut rest = rest;
    let ghost om = models_of(one@);
    let ghost sm = models_of(sep_trees@);
    let ghost rm = models_of(rest@);
    one.append(&mut sep_trees);
    one.append(&mut rest);
    proof {
        assert(models_of(one@) =~= om + sm + rm);
    }
    (one, comb_x(e1, e2), c3)
}

/// The first rule whose pattern matches the whole input. Mirrors
/// `first_match`.
fn first_match_x(rules: &Vec<Rule>, ri: usize, input: &Vec<TokenTree>) -> (r: Option<
    (usize, Bindings),
>)
    ensures
        (match (r, first_match(rule_models_of(rules@), ri as int, models_of(input@))) {
            (Some((i, b)), Some((im, esm))) => i as int == im && b.model() == esm && i
                < rules@.len(),
            (None, None) => true,
            _ => false,
        }),
    decreases natsub(rules@.len() as int, ri as int),
{
    if ri >= rules.len() {
        None
    } else {
        match match_rule_x(&rules[ri].lhs, input) {
            Some(b) => Some((ri, b)),
            None => first_match_x(rules, ri + 1, input),
        }
    }
}

/// The largest provenance identifier in `ts[i..]`. Mirrors `max_id_from`.
fn max_id_x(ts: &Vec<TokenTree>, i: usize) -> (r: u32)
    ensures
        r == max_id_from(models_of(ts@), i as int),
    decreases ts@, natsub(ts@.len() as int, i as int),
{
    if i >= ts.len() {
        return 0;
    }
    let own: u32 = match &ts[i] {
        TokenTree::Leaf(Leaf::Ident(l)) => l.id,
        TokenTree::Leaf(Leaf::Punct(p)) => p.id,
        TokenTree::Leaf(Leaf::Literal(l)) => l.id,
        TokenTree::Subtree(s) => {
            proof {
                vstd::std_specs::vec::axiom_vec_decreases_to_view(*ts);
                vstd::seq::axiom_seq_index_decreases(ts@, i as int);
            }
            max_id_x(&s.token_trees, 0)
        },
    };
    let rest = max_id_x(ts, i + 1);
    if own > rest {
        own
    } else {
        rest
    }
}

impl MacroRules {
    /// Tries each rule's pattern in declaration order against the
    /// invocation and expands the first that matches. The output is always
    /// populated; `err` reports `NoMatchingRule` or the first expansion
    /// error. Emitted leaves draw fresh identifiers counting up from one
    /// past the largest invocation-site identifier, so they never bear the
    /// identifier of an invocation token (unless an invocation token
    /// already bears the largest representable identifier, when the
    /// counter wraps to zero).
    pub fn expand(&self, invocation: &Subtree) -> (r: ExpandResult)
        ensures
            r.model() == expand_model(self.model(), invocation.model()),
    {
        match first_match_x(&self.rules, 0, &invocation.token_trees) {
            None => {
                let r = ExpandResult {
                    value: Subtree { delimiter: None, token_trees: Vec::new() },
                    err: Some(ExpandError::NoMatchingRule),
                };
                proof {
                    assert(models_of(r.value.token_trees@) =~= Seq::<TtModel>::empty());
                }
                r
            },
            Some((ri, bnd)) => {
                let empty_nesting: Vec<usize> = Vec::new();
                proof {
                    assert(nesting_model(empty_nesting@) =~= Seq::<int>::empty());
                }
                let c0 = bump_x(max_id_x(&invocation.token_trees, 0));
                let (trees, e, _c) = expand_seq_x(&self.rules[ri].rhs, 0, &bnd, &empty_nesting, c0);
                ExpandResult { value: Subtree { delimiter: None, token_trees: trees }, err: e }
            },
        }
    }
}


/// Determinism: expansion is a pure function of the rule set and the
/// invocation — two results of expanding the same invocation against the
/// same rules are identical, output value and error status both.
pub proof fn lemma_expand_deterministic(
    rules: MacroRules,
    invocation: Subtree,
    r1: ExpandResult,
    r2: ExpandResult,
)
    requires
        r1.model() == expand_model(rules.model(), invocation.model()),
        r2.model() == expand_model(rules.model(), invocation.model()),
    ensures
        r1.model() == r2.model(),
{
}

/// No-match failure: when no rule's pattern matches the invocation, the
/// dispatcher reports `NoMatchingRule` and an empty output value — and it
/// reports `NoMatchingRule` in no other case.
pub proof fn lemma_no_matching_rule(rules: Seq<RuleModel>, inv: TtModel)
    ensures
        ({
            let children = match inv {
                TtModel::Subtree { children, .. } => children,
                _ => Seq::<TtModel>::empty(),
            };
            &&& (first_match(rules, 0, children) is None <==> expand_model(rules, inv).err
                == Some(ExpandError::NoMatchingRule))
            &&& (first_match(rules, 0, children) is None ==> expand_model(rules, inv).value
                == (TtModel::Subtree { delimiter: None, children: Seq::<TtModel>::empty() }))
        }),
{
    let children = match inv {
        TtModel::Subtree { children, .. } => children,
        _ => Seq::<TtModel>::empty(),
    };
    match first_match(rules, 0, children) {
        None => {},
        Some((ri, es)) => {
            lemma_expand_seq_no_nomatch(
                rules[ri].rhs,
                0,
                es,
                Seq::empty(),
                bump(max_id_from(children, 0)),
            );
        },
    }
}

/// Expanding a template never reports `NoMatchingRule`: that error belongs
/// to the dispatcher alone, so the two failure kinds stay distinct.
pub proof fn lemma_expand_seq_no_nomatch(
    ops: Seq<OpModel>,
    oi: int,
    es: Seq<EntryModel>,
    nesting: Seq<int>,
    c: u32,
)
    ensures
        expand_seq(ops, oi, es, nesting, c).1 != Some(ExpandError::NoMatchingRule),
    decreases ops_size_from(ops, oi), 0nat, 1int,
{
    if oi < 0 || oi >= ops.len() {
    } else {
        match ops[oi] {
            OpModel::Leaf(_) => {},
            OpModel::Var { name, kind } => {
                lemma_resolve_no_nomatch(es, name, nesting);
            },
            OpModel::Sub { tokens, .. } => {
                lemma_expand_seq_no_nomatch(tokens, 0, es, nesting, c);
            },
            OpModel::Repeat { tokens, rkind, sep } => {
                match repeat_count(es, var_names_from(tokens, 0), nesting) {
                    Err(_) => {},
                    Ok(n) => {
                        lemma_expand_repeat_no_nomatch(tokens, sep, es, nesting, 0, n, c);
                    },
                }
            },
        }
        let c1 = expand_seq_head_counter(ops, oi, es, nesting, c);
        lemma_expand_seq_no_nomatch(ops, oi + 1, es, nesting, c1);
    }
}

/// The counter after the node `ops[oi]` alone, as `expand_seq` computes it.
pub open spec fn expand_seq_head_counter(
    ops: Seq<OpModel>,
    oi: int,
    es: Seq<EntryModel>,
    nesting: Seq<int>,
    c: u32,
) -> u32 {
    match ops[oi] {
        OpModel::Leaf(_) => bump(c),
        OpModel::Var { .. } => c,
        OpModel::Sub { tokens, .. } => expand_seq(tokens, 0, es, nesting, c).2,
        OpModel::Repeat { tokens, rkind, sep } => match repeat_count(
            es,
            var_names_from(tokens, 0),
            nesting,
        ) {
            Err(_) => c,
            Ok(n) => expand_repeat(tokens, sep, es, nesting, 0, n, c).2,
        },
    }
}

/// Resolving a metavariable never reports `NoMatchingRule`.
pub proof fn lemma_resolve_no_nomatch(es: Seq<EntryModel>, name: Seq<char>, nesting: Seq<int>)
    ensures
        resolve(es, name, nesting) != Err::<TtModel, ExpandError>(ExpandError::NoMatchingRule),
{
    match lookup_entries(es, name) {
        None => {},
        Some(b) => {
            lemma_resolve_binding_no_nomatch(b, nesting);
        },
    }
}

/// Resolving a capture never reports `NoMatchingRule`.
pub proof fn lemma_resolve_binding_no_nomatch(b: BindingModel, nesting: Seq<int>)
    ensures
        resolve_binding(b, nesting) != Err::<TtModel, ExpandError>(ExpandError::NoMatchingRule),
    decreases nesting.len(),
{
    match b {
        BindingModel::Frag(_) => {},
        BindingModel::Nested(bs) => {
            if nesting.len() > 0 && 0 <= nesting[0] < bs.len() {
                lemma_resolve_binding_no_nomatch(bs[nesting[0]], nesting.drop_first());
            }
        },
    }
}

/// Repetition expansion never reports `NoMatchingRule`.
pub proof fn lemma_expand_repeat_no_nomatch(
    tokens: Seq<OpModel>,
    sep: Option<SepModel>,
    es: Seq<EntryModel>,
    nesting: Seq<int>,
    i: int,
    n: int,
    c: u32,
)
    ensures
        expand_repeat(tokens, sep, es, nesting, i, n, c).1 != Some(ExpandError::NoMatchingRule),
    decreases ops_size_from(tokens, 0) + 1, natsub(n, i), 0int,
{
    if i >= n {
    } else {
        let (one, e1, c1) = expand_seq(tokens, 0, es, nesting.push(i), c);
        lemma_expand_seq_no_nomatch(tokens, 0, es, nesting.push(i), c);
        let c2: u32 = if i + 1 < n {
            match sep {
                Some(s) => emit_sep(s, c1).1,
                None => c1,
            }
        } else {
            c1
        };
        lemma_expand_repeat_no_nomatch(tokens, sep, es, nesting, i + 1, n, c2);
    }
}


/// Unbound template variable: a metavariable name the pattern never
/// declares holds no capture after any successful match of that pattern,
/// so the expander's lookup of it fails with `UnboundVariable`, at every
/// repetition depth.
pub proof fn lemma_unbound_variable(
    lhs: Seq<OpModel>,
    input: Seq<TtModel>,
    name: Seq<char>,
    nesting: Seq<int>,
)
    requires
        !var_names_from(lhs, 0).contains(name),
    ensures
        (match match_rule(lhs, input) {
            Some(es) => resolve(es, name, nesting) == Err::<TtModel, ExpandError>(
                ExpandError::UnboundVariable,
            ),
            None => true,
        }),
{
    crate::matcher::lemma_match_binds_pattern_vars(lhs, 0, input, 0);
    match match_rule(lhs, input) {
        Some(es) => {
            assert forall|k: int| 0 <= k < es.len() implies (#[trigger] es[k].name) != name by {
                assert(var_names_from(lhs, 0).contains(es[k].name));
            }
            crate::matcher::lemma_lookup_absent(es, 0, name);
        },
        None => {},
    }
}


/// A name among `names[ni..]` that holds no capture makes the whole list
/// have an unbound name.
pub proof fn lemma_has_unbound_from(
    es: Seq<EntryModel>,
    names: Seq<Seq<char>>,
    ni: int,
    k: int,
)
    requires
        0 <= ni <= k < names.len(),
        lookup_entries(es, names[k]) is None,
    ensures
        has_unbound(es, names, ni),
    decreases k - ni,
{
    if ni < k {
        lemma_has_unbound_from(es, names, ni + 1, k);
    }
}

/// Unbound template variable inside a repetition: when the names a
/// template repetition references include one the pattern never declares,
/// determining that repetition's count fails with `UnboundVariable` after
/// every successful match of the pattern — never a silent zero-iteration
/// default.
pub proof fn lemma_unbound_variable_in_repetition(
    lhs: Seq<OpModel>,
    input: Seq<TtModel>,
    names: Seq<Seq<char>>,
    name: Seq<char>,
    nesting: Seq<int>,
)
    requires
        names.contains(name),
        !var_names_from(lhs, 0).contains(name),
    ensures
        (match match_rule(lhs, input) {
            Some(es) => repeat_count(es, names, nesting) == Err::<int, ExpandError>(
                ExpandError::UnboundVariable,
            ),
            None => true,
        }),
{
    crate::matcher::lemma_match_binds_pattern_vars(lhs, 0, input, 0);
    match match_rule(lhs, input) {
        Some(es) => {
            assert forall|k: int| 0 <= k < es.len() implies (#[trigger] es[k].name) != name by {
                assert(var_names_from(lhs, 0).contains(es[k].name));
            }
            crate::matcher::lemma_lookup_absent(es, 0, name);
            let i = choose|i: int| 0 <= i < names.len() && names[i] == name;
            lemma_has_unbound_from(es, names, 0, i);
        },
        None => {},
    }
}

/// Equal-depth invariant, deeper direction: a metavariable captured
/// outside any repetition (a single fragment) but used under one resolves
/// to `RepetitionDepthMismatch` — an explicit error, not a constant splice.
pub proof fn lemma_depth_mismatch_used_deeper(
    es: Seq<EntryModel>,
    name: Seq<char>,
    nesting: Seq<int>,
)
    requires
        nesting.len() > 0,
        lookup_entries(es, name) matches Some(BindingModel::Frag(_)),
    ensures
        resolve(es, name, nesting) == Err::<TtModel, ExpandError>(
            ExpandError::RepetitionDepthMismatch,
        ),
{
}

} // verus!
