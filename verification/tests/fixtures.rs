//! Checks of the deterministic invocation-fixture generator.

use mbe::fixtures::invocation_fixtures;
use mbe::ops::MacroRules;
use mbe::{DelimiterKind, Ident, Leaf, Punct, Spacing, Subtree, TokenTree};

fn ident(s: &str) -> TokenTree {
    TokenTree::Leaf(Leaf::Ident(Ident { text: s.to_string(), id: 7 }))
}

fn punct(c: char) -> TokenTree {
    TokenTree::Leaf(Leaf::Punct(Punct { ch: c, spacing: Spacing::Alone, id: 8 }))
}

fn sub(d: Option<DelimiterKind>, ts: Vec<TokenTree>) -> TokenTree {
    TokenTree::Subtree(Subtree { delimiter: d, token_trees: ts })
}

fn stream(ts: Vec<TokenTree>) -> Subtree {
    Subtree { delimiter: None, token_trees: ts }
}

/// `($($x:ident),*) => { ($($x),*) }` as a parsed rule set.
fn comma_list_rules() -> MacroRules {
    let lhs = vec![
        punct('$'),
        sub(
            Some(DelimiterKind::Parenthesis),
            vec![punct('$'), ident("x"), punct(':'), ident("ident")],
        ),
        punct(','),
        punct('*'),
    ];
    let rhs = vec![sub(
        Some(DelimiterKind::Parenthesis),
        vec![
            punct('$'),
            sub(Some(DelimiterKind::Parenthesis), vec![punct('$'), ident("x")]),
            punct(','),
            punct('*'),
        ],
    )];
    let def = stream(vec![
        sub(Some(DelimiterKind::Parenthesis), lhs),
        punct('='),
        punct('>'),
        sub(Some(DelimiterKind::Brace), rhs),
    ]);
    MacroRules::parse(&def).ok().unwrap()
}

#[test]
fn two_fixtures_per_rule_in_order() {
    let rules = vec![("m".to_string(), comma_list_rules())];
    let fixtures = invocation_fixtures(&rules);
    assert_eq!(fixtures.len(), 2);
    assert_eq!(fixtures[0].0, "m");
    assert_eq!(fixtures[1].0, "m");
}

#[test]
fn fixtures_are_deterministic_and_expand() {
    let rules = vec![("m".to_string(), comma_list_rules())];
    let once = invocation_fixtures(&rules);
    let twice = invocation_fixtures(&rules);
    assert_eq!(once.len(), twice.len());
    for (a, b) in once.iter().zip(twice.iter()) {
        assert_eq!(a.0, b.0);
        let ta = TokenTree::Subtree(Subtree {
            delimiter: a.1.delimiter,
            token_trees: a.1.token_trees.iter().map(|t| t.copy()).collect(),
        });
        let tb = TokenTree::Subtree(Subtree {
            delimiter: b.1.delimiter,
            token_trees: b.1.token_trees.iter().map(|t| t.copy()).collect(),
        });
        assert!(ta.matches(&tb));
    }
    // every generated invocation is shaped by the rule's own pattern,
    // so the rule set expands each of them without error
    let rules2 = comma_list_rules();
    for (_, inv) in once {
        let res = rules2.expand(&inv);
        assert_eq!(res.err, None);
    }
}
