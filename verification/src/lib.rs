//! A macro-by-example engine: declarative pattern -> template rules over
//! token trees, with first-match-wins dispatch, repetition matching and
//! template re-expansion.

use vstd::prelude::*;

pub mod expander;
pub mod fixtures;
pub mod matcher;
pub mod ops;
pub mod parser;

verus! {

broadcast use vstd::std_specs::vec::group_vec_axioms;

/// Whether a punctuation token is joined to the next token or stands alone.
#[derive(Clone, Copy, PartialEq, Eq, Structural, Debug)]
pub enum Spacing {
    Alone,
    Joint,
}

/// The delimiter wrapping a subtree.
#[derive(Clone, Copy, PartialEq, Eq, Structural, Debug)]
pub enum DelimiterKind {
    Parenthesis,
    Brace,
    Bracket,
}

/// An identifier token; `id` is the opaque provenance handle.
#[derive(Debug)]
pub struct Ident {
    pub text: String,
    pub id: u32,
}

/// A single punctuation character with its spacing.
#[derive(Clone, Copy, PartialEq, Eq, Structural, Debug)]
pub struct Punct {
    pub ch: char,
    pub spacing: Spacing,
    pub id: u32,
}

/// A literal token (number, string, ...), kept as raw text.
#[derive(Debug)]
pub struct Literal {
    pub text: String,
    pub id: u32,
}

/// A leaf of a token tree.
#[derive(Debug)]
pub enum Leaf {
    Ident(Ident),
    Punct(Punct),
    Literal(Literal),
}

/// A delimited (or bare) ordered sequence of token trees.
pub struct Subtree {
    pub delimiter: Option<DelimiterKind>,
    pub token_trees: Vec<TokenTree>,
}

/// The recursive token-tree value all components operate on.
pub enum TokenTree {
    Leaf(Leaf),
    Subtree(Subtree),
}

/// Mathematical model of a leaf: text as a sequence of characters.
#[verifier::ext_equal]
pub enum LeafModel {
    Ident { text: Seq<char>, id: u32 },
    Punct { ch: char, spacing: Spacing, id: u32 },
    Literal { text: Seq<char>, id: u32 },
}

/// Mathematical model of a token tree.
#[verifier::ext_equal]
pub enum TtModel {
    Leaf(LeafModel),
    Subtree { delimiter: Option<DelimiterKind>, children: Seq<TtModel> },
}

impl Leaf {
    pub open spec fn model(self) -> LeafModel {
        match self {
            Leaf::Ident(i) => LeafModel::Ident { text: i.text@, id: i.id },
            Leaf::Punct(p) => LeafModel::Punct { ch: p.ch, spacing: p.spacing, id: p.id },
            Leaf::Literal(l) => LeafModel::Literal { text: l.text@, id: l.id },
        }
    }
}

impl TokenTree {
    pub open spec fn model(self) -> TtModel
        decreases self,
    {
        match self {
            TokenTree::Leaf(l) => TtModel::Leaf(l.model()),
            TokenTree::Subtree(s) => TtModel::Subtree {
                delimiter: s.delimiter,
                children: models_of(s.token_trees@),
            },
        }
    }
}

/// The models of a sequence of token trees, in order.
pub open spec fn models_of(ts: Seq<TokenTree>) -> Seq<TtModel>
    decreases ts,
{
    if ts.len() == 0 {
        Seq::empty()
    } else {
        seq![ts[0].model()] + models_of(ts.drop_first())
    }
}

impl Subtree {
    pub open spec fn model(self) -> TtModel {
        TokenTree::Subtree(self).model()
    }
}

/// `models_of` is the pointwise model of its argument.
pub broadcast proof fn lemma_models_of(ts: Seq<TokenTree>)
    ensures
        (#[trigger] models_of(ts)).len() == ts.len(),
        forall|i: int| 0 <= i < ts.len() ==> models_of(ts)[i] == ts[i].model(),
    decreases ts,
{
    if ts.len() > 0 {
        lemma_models_of(ts.drop_first());
    }
}

/// Structural equality of leaves, ignoring the provenance identifier and,
/// for punctuation, the spacing.
pub open spec fn leaf_match(a: LeafModel, b: LeafModel) -> bool {
    match (a, b) {
        (LeafModel::Ident { text: t1, .. }, LeafModel::Ident { text: t2, .. }) => t1 == t2,
        (LeafModel::Punct { ch: c1, .. }, LeafModel::Punct { ch: c2, .. }) => c1 == c2,
        (LeafModel::Literal { text: t1, .. }, LeafModel::Literal { text: t2, .. }) => t1 == t2,
        _ => false,
    }
}

/// Structural equality of token trees, ignoring provenance identifiers.
pub open spec fn tt_match(a: TtModel, b: TtModel) -> bool
    decreases a,
{
    match (a, b) {
        (TtModel::Leaf(l1), TtModel::Leaf(l2)) => leaf_match(l1, l2),
        (
            TtModel::Subtree { delimiter: d1, children: c1 },
            TtModel::Subtree { delimiter: d2, children: c2 },
        ) => d1 == d2 && tts_match(c1, c2),
        _ => false,
    }
}

/// Pointwise structural equality of token-tree sequences.
pub open spec fn tts_match(a: Seq<TtModel>, b: Seq<TtModel>) -> bool
    decreases a,
{
    if a.len() != b.len() {
        false
    } else if a.len() == 0 {
        true
    } else {
        tt_match(a[0], b[0]) && tts_match(a.drop_first(), b.drop_first())
    }
}

/// Whether two optional delimiters are the same.
pub fn delim_eq(a: &Option<DelimiterKind>, b: &Option<DelimiterKind>) -> (r: bool)
    ensures
        r == (*a == *b),
{
    match (a, b) {
        (None, None) => true,
        (Some(x), Some(y)) => x == y,
        _ => false,
    }
}

impl Leaf {
    /// An identical leaf (text, spacing and provenance identifier all kept).
    pub fn copy(&self) -> (r: Leaf)
        ensures
            r.model() == self.model(),
    {
        match self {
            Leaf::Ident(i) => Leaf::Ident(Ident { text: i.text.clone(), id: i.id }),
            Leaf::Punct(p) => Leaf::Punct(Punct { ch: p.ch, spacing: p.spacing, id: p.id }),
            Leaf::Literal(l) => Leaf::Literal(Literal { text: l.text.clone(), id: l.id }),
        }
    }

    /// Whether two leaves are structurally equal, identifiers aside.
    pub fn matches(&self, other: &Leaf) -> (r: bool)
        ensures
            r == leaf_match(self.model(), other.model()),
    {
        match (self, other) {
            (Leaf::Ident(a), Leaf::Ident(b)) => a.text == b.text,
            (Leaf::Punct(a), Leaf::Punct(b)) => a.ch == b.ch,
            (Leaf::Literal(a), Leaf::Literal(b)) => a.text == b.text,
            _ => false,
        }
    }
}

impl TokenTree {
    /// An identical token tree (provenance identifiers kept).
    #[verifier::loop_isolation(false)]
    pub fn copy(&self) -> (r: TokenTree)
        ensures
            r.model() == self.model(),
        decreases self,
    {
        match self {
            TokenTree::Leaf(l) => TokenTree::Leaf(l.copy()),
            TokenTree::Subtree(s) => {
                let mut children: Vec<TokenTree> = Vec::new();
                let n = s.token_trees.len();
                let mut i: usize = 0;
                while i < n
                    invariant
                        n == s.token_trees.len(),
                        i <= n,
                        children@.len() == i,
                        forall|j: int|
                            0 <= j < i ==> children@[j].model() == s.token_trees@[j].model(),
                    decreases n - i,
                {
                    proof {
                        vstd::std_specs::vec::axiom_vec_decreases_to_view(s.token_trees);
                        vstd::seq::axiom_seq_index_decreases(s.token_trees@, i as int);
                    }
                    children.push(s.token_trees[i].copy());
                    i = i + 1;
                }
                proof {
                    broadcast use lemma_models_of;

                    assert(models_of(children@) =~= models_of(s.token_trees@));
                }
                TokenTree::Subtree(Subtree { delimiter: s.delimiter, token_trees: children })
            },
        }
    }

    /// Whether two trees are structurally equal, identifiers aside.
    #[verifier::loop_isolation(false)]
    pub fn matches(&self, other: &TokenTree) -> (r: bool)
        ensures
            r == tt_match(self.model(), other.model()),
        decreases self,
    {
        match (self, other) {
            (TokenTree::Leaf(a), TokenTree::Leaf(b)) => a.matches(b),
            (TokenTree::Subtree(a), TokenTree::Subtree(b)) => {
                proof {
                    broadcast use lemma_models_of;

                    lemma_tts_match_pointwise(
                        models_of(a.token_trees@),
                        models_of(b.token_trees@),
                    );
                }
                if !delim_eq(&a.delimiter, &b.delimiter) {
                    return false;
                }
                if a.token_trees.len() != b.token_trees.len() {
                    return false;
                }
                let n = a.token_trees.len();
                let mut i: usize = 0;
                while i < n
                    invariant
                        n == a.token_trees.len(),
                        n == b.token_trees.len(),
                        i <= n,
                        self == TokenTree::Subtree(*a),
                        other == TokenTree::Subtree(*b),
                        forall|j: int|
                            0 <= j < i ==> tt_match(
                                a.token_trees@[j].model(),
                                b.token_trees@[j].model(),
                            ),
                    decreases n - i,
                {
                    if !a.token_trees[i].matches(&b.token_trees[i]) {
                        proof {
                            broadcast use lemma_models_of;

                            lemma_tts_match_pointwise(
                                models_of(a.token_trees@),
                                models_of(b.token_trees@),
                            );
                            assert(models_of(a.token_trees@)[i as int]
                                == a.token_trees@[i as int].model());
                            assert(!tt_match(
                                models_of(a.token_trees@)[i as int],
                                models_of(b.token_trees@)[i as int],
                            ));
                            assert(!tts_match(models_of(a.token_trees@), models_of(b.token_trees@)));
                        }
                        return false;
                    }
                    i = i + 1;
                }
                proof {
                    broadcast use lemma_models_of;

                    lemma_tts_match_pointwise(
                        models_of(a.token_trees@),
                        models_of(b.token_trees@),
                    );
                }
                true
            },
            _ => false,
        }
    }
}

/// `tts_match` holds exactly when the sequences agree pointwise.
pub proof fn lemma_tts_match_pointwise(a: Seq<TtModel>, b: Seq<TtModel>)
    ensures
        tts_match(a, b) == (a.len() == b.len() && forall|i: int|
            0 <= i < a.len() ==> tt_match(a[i], b[i])),
    decreases a,
{
    if a.len() == b.len() && a.len() > 0 {
        lemma_tts_match_pointwise(a.drop_first(), b.drop_first());
        if tts_match(a, b) {
            assert forall|i: int| 0 <= i < a.len() implies tt_match(a[i], b[i]) by {
                if i > 0 {
                    assert(tt_match(a.drop_first()[i - 1], b.drop_first()[i - 1]));
                }
            }
        }
        if forall|i: int| 0 <= i < a.len() ==> tt_match(a[i], b[i]) {
            assert forall|i: int| 0 <= i < a.drop_first().len() implies tt_match(
                a.drop_first()[i],
                b.drop_first()[i],
            ) by {
                assert(tt_match(a[i + 1], b[i + 1]));
            }
        }
    }
}


/// Compiles a macro definition body into an ordered rule set: the first
/// boundary function of the engine.
pub fn compile(definition: &Subtree) -> (r: Result<ops::MacroRules, parser::ParseError>)
    ensures
        parser::rules_result_matches(r, parser::compile_model(definition.model())),
{
    ops::MacroRules::parse(definition)
}

/// Expands one invocation against a compiled rule set: the second boundary
/// function of the engine. The output value is always populated, and `err`
/// reports `NoMatchingRule` or the first expansion error, if any.
pub fn expand(rules: &ops::MacroRules, invocation: &Subtree) -> (r: expander::ExpandResult)
    ensures
        r.model() == expander::expand_model(rules.model(), invocation.model()),
{
    rules.expand(invocation)
}

} // verus!
