//! End-to-end checks of the macro-by-example engine: compiling rule sets,
//! dispatching invocations, matching repetitions and expanding templates.

use mbe::expander::{ExpandError, ExpandResult};
use mbe::ops::MacroRules;
use mbe::parser::ParseError;
use mbe::{DelimiterKind, Ident, Leaf, Literal, Punct, Spacing, Subtree, TokenTree};

fn ident(s: &str) -> TokenTree {
    TokenTree::Leaf(Leaf::Ident(Ident { text: s.to_string(), id: 7 }))
}

fn punct(c: char) -> TokenTree {
    TokenTree::Leaf(Leaf::Punct(Punct { ch: c, spacing: Spacing::Alone, id: 8 }))
}

fn lit(s: &str) -> TokenTree {
    TokenTree::Leaf(Leaf::Literal(Literal { text: s.to_string(), id: 9 }))
}

fn sub(d: Option<DelimiterKind>, ts: Vec<TokenTree>) -> TokenTree {
    TokenTree::Subtree(Subtree { delimiter: d, token_trees: ts })
}

fn stream(ts: Vec<TokenTree>) -> Subtree {
    Subtree { delimiter: None, token_trees: ts }
}

/// A one-arm definition body: `( lhs ) => { rhs }`.
fn definition(lhs: Vec<TokenTree>, rhs: Vec<TokenTree>) -> Subtree {
    stream(vec![
        sub(Some(DelimiterKind::Parenthesis), lhs),
        punct('='),
        punct('>'),
        sub(Some(DelimiterKind::Brace), rhs),
    ])
}

/// A two-arm definition body, the arms separated by `;`.
fn definition2(
    lhs1: Vec<TokenTree>,
    rhs1: Vec<TokenTree>,
    lhs2: Vec<TokenTree>,
    rhs2: Vec<TokenTree>,
) -> Subtree {
    stream(vec![
        sub(Some(DelimiterKind::Parenthesis), lhs1),
        punct('='),
        punct('>'),
        sub(Some(DelimiterKind::Brace), rhs1),
        punct(';'),
        sub(Some(DelimiterKind::Parenthesis), lhs2),
        punct('='),
        punct('>'),
        sub(Some(DelimiterKind::Brace), rhs2),
    ])
}

/// `$name:kind` as written pattern tokens.
fn metavar(name: &str, kind: &str) -> Vec<TokenTree> {
    vec![punct('$'), ident(name), punct(':'), ident(kind)]
}

fn assert_output(res: ExpandResult, expected: Vec<TokenTree>, err: Option<ExpandError>) {
    assert_eq!(res.err, err);
    let got = TokenTree::Subtree(res.value);
    let want = sub(None, expected);
    assert!(got.matches(&want));
}

#[test]
fn round_trip_single_ident() {
    // ($x:ident) => { fn $x() {} } applied to `foo`
    let mut rhs = vec![ident("fn"), punct('$'), ident("x")];
    rhs.push(sub(Some(DelimiterKind::Parenthesis), vec![]));
    rhs.push(sub(Some(DelimiterKind::Brace), vec![]));
    let def = definition(metavar("x", "ident"), rhs);
    let rules = MacroRules::parse(&def).ok().unwrap();
    let res = rules.expand(&stream(vec![ident("foo")]));
    assert_output(
        res,
        vec![
            ident("fn"),
            ident("foo"),
            sub(Some(DelimiterKind::Parenthesis), vec![]),
            sub(Some(DelimiterKind::Brace), vec![]),
        ],
        None,
    );
}

#[test]
fn repetition_with_comma_separator() {
    // ($($x:ident),*) => { ($($x),*) } applied to `a, b, c`
    let mut lhs = vec![punct('$'), sub(Some(DelimiterKind::Parenthesis), metavar("x", "ident"))];
    lhs.push(punct(','));
    lhs.push(punct('*'));
    let inner = vec![
        punct('$'),
        sub(Some(DelimiterKind::Parenthesis), vec![punct('$'), ident("x")]),
        punct(','),
        punct('*'),
    ];
    let rhs = vec![sub(Some(DelimiterKind::Parenthesis), inner)];
    let def = definition(lhs, rhs);
    let rules = MacroRules::parse(&def).ok().unwrap();
    let res = rules.expand(&stream(vec![
        ident("a"),
        punct(','),
        ident("b"),
        punct(','),
        ident("c"),
    ]));
    assert_eq!(res.err, None);
    // one parenthesized subtree: a , b , c — three captures, exactly two commas
    assert_eq!(res.value.token_trees.len(), 1);
    let out = TokenTree::Subtree(res.value);
    let want = sub(
        None,
        vec![sub(
            Some(DelimiterKind::Parenthesis),
            vec![ident("a"), punct(','), ident("b"), punct(','), ident("c")],
        )],
    );
    assert!(out.matches(&want));
}

#[test]
fn unbound_variable_reported() {
    // () => { $y } — `y` is never declared in the pattern
    let def = definition(vec![], vec![punct('$'), ident("y")]);
    let rules = MacroRules::parse(&def).ok().unwrap();
    let res = rules.expand(&stream(vec![]));
    assert_eq!(res.err, Some(ExpandError::UnboundVariable));
}

#[test]
fn no_matching_rule_reported() {
    // (hello) => { world } applied to `goodbye`
    let def = definition(vec![ident("hello")], vec![ident("world")]);
    let rules = MacroRules::parse(&def).ok().unwrap();
    let res = rules.expand(&stream(vec![ident("goodbye")]));
    assert_eq!(res.err, Some(ExpandError::NoMatchingRule));
    assert_eq!(res.value.token_trees.len(), 0);
}

#[test]
fn declaration_order_decides() {
    // Overlapping patterns: an ident matches both arms; the first one wins.
    let def_a = definition2(
        metavar("a", "ident"),
        vec![ident("one")],
        metavar("a", "tt"),
        vec![ident("two")],
    );
    let def_b = definition2(
        metavar("a", "tt"),
        vec![ident("two")],
        metavar("a", "ident"),
        vec![ident("one")],
    );
    let rules_a = MacroRules::parse(&def_a).ok().unwrap();
    let rules_b = MacroRules::parse(&def_b).ok().unwrap();
    assert_eq!(rules_a.rules.len(), 2);
    let res_a = rules_a.expand(&stream(vec![ident("x")]));
    let res_b = rules_b.expand(&stream(vec![ident("x")]));
    assert_eq!(res_a.err, None);
    assert_eq!(res_b.err, None);
    assert!(TokenTree::Subtree(res_a.value).matches(&sub(None, vec![ident("one")])));
    assert!(TokenTree::Subtree(res_b.value).matches(&sub(None, vec![ident("two")])));
}

#[test]
fn expansion_is_deterministic() {
    let mut rhs = vec![ident("fn"), punct('$'), ident("x")];
    rhs.push(sub(Some(DelimiterKind::Parenthesis), vec![]));
    rhs.push(sub(Some(DelimiterKind::Brace), vec![]));
    let def = definition(metavar("x", "ident"), rhs);
    let rules = MacroRules::parse(&def).ok().unwrap();
    let inv = stream(vec![ident("foo")]);
    let r1 = rules.expand(&inv);
    let r2 = rules.expand(&inv);
    assert_eq!(r1.err, r2.err);
    assert!(TokenTree::Subtree(r1.value).matches(&TokenTree::Subtree(r2.value)));
}

#[test]
fn one_or_more_needs_one() {
    // ($($x:ident)+) => { ok }
    let lhs = vec![
        punct('$'),
        sub(Some(DelimiterKind::Parenthesis), metavar("x", "ident")),
        punct('+'),
    ];
    let def = definition(lhs, vec![ident("ok")]);
    let rules = MacroRules::parse(&def).ok().unwrap();
    let empty = rules.expand(&stream(vec![]));
    assert_eq!(empty.err, Some(ExpandError::NoMatchingRule));
    let one = rules.expand(&stream(vec![ident("a")]));
    assert_eq!(one.err, None);
    let two = rules.expand(&stream(vec![ident("a"), ident("b")]));
    assert_eq!(two.err, None);
}

#[test]
fn zero_or_more_accepts_empty() {
    // ($($x:ident)*) => { ($($x)*) }
    let lhs = vec![
        punct('$'),
        sub(Some(DelimiterKind::Parenthesis), metavar("x", "ident")),
        punct('*'),
    ];
    let inner = vec![
        punct('$'),
        sub(Some(DelimiterKind::Parenthesis), vec![punct('$'), ident("x")]),
        punct('*'),
    ];
    let def = definition(lhs, vec![sub(Some(DelimiterKind::Parenthesis), inner)]);
    let rules = MacroRules::parse(&def).ok().unwrap();
    let res = rules.expand(&stream(vec![]));
    assert_eq!(res.err, None);
    let out = TokenTree::Subtree(res.value);
    assert!(out.matches(&sub(None, vec![sub(Some(DelimiterKind::Parenthesis), vec![])])));
}

#[test]
fn zero_or_one_rejects_two() {
    // ($($x:ident)?) => { ok }
    let lhs = vec![
        punct('$'),
        sub(Some(DelimiterKind::Parenthesis), metavar("x", "ident")),
        punct('?'),
    ];
    let def = definition(lhs, vec![ident("ok")]);
    let rules = MacroRules::parse(&def).ok().unwrap();
    assert_eq!(rules.expand(&stream(vec![])).err, None);
    assert_eq!(rules.expand(&stream(vec![ident("a")])).err, None);
    let two = rules.expand(&stream(vec![ident("a"), ident("b")]));
    assert_eq!(two.err, Some(ExpandError::NoMatchingRule));
}

#[test]
fn no_trailing_separator_allowed() {
    // ($($x:ident),*) => { ok } rejects `a, b,`
    let lhs = vec![
        punct('$'),
        sub(Some(DelimiterKind::Parenthesis), metavar("x", "ident")),
        punct(','),
        punct('*'),
    ];
    let def = definition(lhs, vec![ident("ok")]);
    let rules = MacroRules::parse(&def).ok().unwrap();
    let trailing = rules.expand(&stream(vec![ident("a"), punct(','), ident("b"), punct(',')]));
    assert_eq!(trailing.err, Some(ExpandError::NoMatchingRule));
    let fine = rules.expand(&stream(vec![ident("a"), punct(','), ident("b")]));
    assert_eq!(fine.err, None);
}

#[test]
fn multi_punct_separator() {
    // ($($x:ident)=>*) => { ($($x)=>*) } applied to `a => b`
    let lhs = vec![
        punct('$'),
        sub(Some(DelimiterKind::Parenthesis), metavar("x", "ident")),
        punct('='),
        punct('>'),
        punct('*'),
    ];
    let inner = vec![
        punct('$'),
        sub(Some(DelimiterKind::Parenthesis), vec![punct('$'), ident("x")]),
        punct('='),
        punct('>'),
        punct('*'),
    ];
    let def = definition(lhs, vec![sub(Some(DelimiterKind::Parenthesis), inner)]);
    let rules = MacroRules::parse(&def).ok().unwrap();
    let res = rules.expand(&stream(vec![ident("a"), punct('='), punct('>'), ident("b")]));
    assert_eq!(res.err, None);
    let out = TokenTree::Subtree(res.value);
    let want = sub(
        None,
        vec![sub(
            Some(DelimiterKind::Parenthesis),
            vec![ident("a"), punct('='), punct('>'), ident("b")],
        )],
    );
    assert!(out.matches(&want));
}

#[test]
fn lifetime_fragment_round_trip() {
    // ($l:lifetime) => { $l } applied to `'a`
    let def = definition(metavar("l", "lifetime"), vec![punct('$'), ident("l")]);
    let rules = MacroRules::parse(&def).ok().unwrap();
    let res = rules.expand(&stream(vec![punct('\''), ident("a")]));
    assert_eq!(res.err, None);
    let out = TokenTree::Subtree(res.value);
    assert!(out.matches(&sub(None, vec![punct('\''), ident("a")])));
}

#[test]
fn item_fragment_takes_through_body() {
    // ($i:item) => { $i } applied to `fn foo () {}`
    let def = definition(metavar("i", "item"), vec![punct('$'), ident("i")]);
    let rules = MacroRules::parse(&def).ok().unwrap();
    let inv = stream(vec![
        ident("fn"),
        ident("foo"),
        sub(Some(DelimiterKind::Parenthesis), vec![]),
        sub(Some(DelimiterKind::Brace), vec![]),
    ]);
    let res = rules.expand(&inv);
    assert_eq!(res.err, None);
    let out = TokenTree::Subtree(res.value);
    let want = sub(
        None,
        vec![
            ident("fn"),
            ident("foo"),
            sub(Some(DelimiterKind::Parenthesis), vec![]),
            sub(Some(DelimiterKind::Brace), vec![]),
        ],
    );
    assert!(out.matches(&want));
}

#[test]
fn literal_fragment_and_delimiters() {
    // ($v:literal) => { [$v] } applied to `1`
    let rhs = vec![sub(Some(DelimiterKind::Bracket), vec![punct('$'), ident("v")])];
    let def = definition(metavar("v", "literal"), rhs);
    let rules = MacroRules::parse(&def).ok().unwrap();
    let res = rules.expand(&stream(vec![lit("1")]));
    assert_eq!(res.err, None);
    let out = TokenTree::Subtree(res.value);
    assert!(out.matches(&sub(None, vec![sub(Some(DelimiterKind::Bracket), vec![lit("1")])])));
    // an ident is not a literal
    let bad = rules.expand(&stream(vec![ident("x")]));
    assert_eq!(bad.err, Some(ExpandError::NoMatchingRule));
}

#[test]
fn delimiter_kinds_must_agree() {
    // (($x:ident)) => { $x } requires a parenthesized argument
    let lhs = vec![sub(Some(DelimiterKind::Parenthesis), metavar("x", "ident"))];
    let def = definition(lhs, vec![punct('$'), ident("x")]);
    let rules = MacroRules::parse(&def).ok().unwrap();
    let paren = rules.expand(&stream(vec![sub(
        Some(DelimiterKind::Parenthesis),
        vec![ident("a")],
    )]));
    assert_eq!(paren.err, None);
    let brace = rules.expand(&stream(vec![sub(Some(DelimiterKind::Brace), vec![ident("a")])]));
    assert_eq!(brace.err, Some(ExpandError::NoMatchingRule));
}

#[test]
fn unknown_metavar_kind_rejected() {
    let def = definition(metavar("x", "frobnicate"), vec![]);
    let res = MacroRules::parse(&def);
    assert!(matches!(res, Err(ParseError::UnknownMetaVarKind)));
}

#[test]
fn missing_repeat_operator_rejected() {
    // `$($x:ident)` with nothing after the group
    let lhs = vec![punct('$'), sub(Some(DelimiterKind::Parenthesis), metavar("x", "ident"))];
    let def = definition(lhs, vec![]);
    let res = MacroRules::parse(&def);
    assert!(matches!(res, Err(ParseError::InvalidRepeat)));
}

#[test]
fn malformed_definition_rejected() {
    let def = stream(vec![ident("junk")]);
    let res = MacroRules::parse(&def);
    assert!(matches!(res, Err(ParseError::MalformedDefinition)));
    // `$` followed by a literal is no metavariable
    let def2 = definition(vec![punct('$'), lit("1")], vec![]);
    assert!(matches!(MacroRules::parse(&def2), Err(ParseError::MalformedDefinition)));
}

#[test]
fn parse_error_aborts_whole_rule_set() {
    // first arm is fine, second is broken: no rule set comes back
    let def = definition2(
        metavar("x", "ident"),
        vec![ident("ok")],
        metavar("y", "frobnicate"),
        vec![],
    );
    assert!(matches!(MacroRules::parse(&def), Err(ParseError::UnknownMetaVarKind)));
}

#[test]
fn fresh_identifiers_on_emitted_leaves() {
    // (x) => { y } — the emitted `y` carries a macro-generated identifier,
    // distinct from every invocation-site identifier (id 7 in these
    // fixtures): the fresh counter starts one past the largest one.
    let def = definition(vec![ident("x")], vec![ident("y")]);
    let rules = MacroRules::parse(&def).ok().unwrap();
    let res = rules.expand(&stream(vec![ident("x")]));
    assert_eq!(res.err, None);
    match &res.value.token_trees[0] {
        TokenTree::Leaf(Leaf::Ident(i)) => {
            assert_eq!(i.text, "y");
            assert_eq!(i.id, 8); // first fresh identifier of this expansion
        }
        _ => panic!("expected an identifier leaf"),
    }
    // a spliced capture keeps the invocation-site identifier
    let def2 = definition(metavar("x", "ident"), vec![punct('$'), ident("x")]);
    let rules2 = MacroRules::parse(&def2).ok().unwrap();
    let res2 = rules2.expand(&stream(vec![ident("foo")]));
    match &res2.value.token_trees[0] {
        TokenTree::Leaf(Leaf::Ident(i)) => {
            assert_eq!(i.text, "foo");
            assert_eq!(i.id, 7); // the fixture id of the invocation token
        }
        _ => panic!("expected an identifier leaf"),
    }
}

#[test]
fn repetition_count_mismatch_reported() {
    // ($($a:ident),* ; $($b:ident),*) => { $($a $b),* } applied to `x, y ; z`:
    // `a` captured twice, `b` once — the template repetition cannot agree.
    let lhs = vec![
        punct('$'),
        sub(Some(DelimiterKind::Parenthesis), metavar("a", "ident")),
        punct(','),
        punct('*'),
        punct(';'),
        punct('$'),
        sub(Some(DelimiterKind::Parenthesis), metavar("b", "ident")),
        punct(','),
        punct('*'),
    ];
    let rhs = vec![
        punct('$'),
        sub(
            Some(DelimiterKind::Parenthesis),
            vec![punct('$'), ident("a"), punct('$'), ident("b")],
        ),
        punct(','),
        punct('*'),
    ];
    let def = definition(lhs, rhs);
    let rules = MacroRules::parse(&def).ok().unwrap();
    let res = rules.expand(&stream(vec![
        ident("x"),
        punct(','),
        ident("y"),
        punct(';'),
        ident("z"),
    ]));
    assert_eq!(res.err, Some(ExpandError::RepetitionCountMismatch));
}

#[test]
fn repetition_depth_mismatch_reported() {
    // ($($a:ident),*) => { $a }: `a` is captured one repetition deep but the
    // template uses it outside any repetition.
    let lhs = vec![
        punct('$'),
        sub(Some(DelimiterKind::Parenthesis), metavar("a", "ident")),
        punct(','),
        punct('*'),
    ];
    let def = definition(lhs, vec![punct('$'), ident("a")]);
    let rules = MacroRules::parse(&def).ok().unwrap();
    let res = rules.expand(&stream(vec![ident("x")]));
    assert_eq!(res.err, Some(ExpandError::RepetitionDepthMismatch));
}

#[test]
fn depth_mismatch_when_used_deeper() {
    // ($x:ident) => { $($x)* }: `x` is captured outside any repetition but
    // the template uses it one repetition deep — an explicit error, never a
    // silent zero-iteration default.
    let lhs = metavar("x", "ident");
    let rhs = vec![
        punct('$'),
        sub(Some(DelimiterKind::Parenthesis), vec![punct('$'), ident("x")]),
        punct('*'),
    ];
    let def = definition(lhs, rhs);
    let rules = MacroRules::parse(&def).ok().unwrap();
    let res = rules.expand(&stream(vec![ident("a")]));
    assert_eq!(res.err, Some(ExpandError::RepetitionDepthMismatch));
}

#[test]
fn unbound_variable_inside_repetition() {
    // () => { $($y)* }: `y` is never declared in the pattern, and is
    // referenced only inside a template repetition — still UnboundVariable,
    // never a silent zero-iteration default.
    let rhs = vec![
        punct('$'),
        sub(Some(DelimiterKind::Parenthesis), vec![punct('$'), ident("y")]),
        punct('*'),
    ];
    let def = definition(vec![], rhs);
    let rules = MacroRules::parse(&def).ok().unwrap();
    let res = rules.expand(&stream(vec![]));
    assert_eq!(res.err, Some(ExpandError::UnboundVariable));
}
