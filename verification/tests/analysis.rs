use compact_mcp::analyze::depth::{
    depth_of_tokens, is_over_max_depth, structural_depth, MAX_STRUCTURAL_DEPTH,
};
use compact_mcp::analyze::links::{is_strained, MAX_HEIGHT, MAX_LINKS};
use compact_mcp::analyze::symbols::{ast_json, symbols, Symbol, SymbolKind};
use compact_mcp::analyze::syntax::{
    collect_child_tokens, count_nodes, find_child_token, find_subtree_end, Element,
};
use compact_mcp::analyze::tokens;
use compact_mcp::analyze::tokens::{IDENT, L_PAREN, PLUS, R_PAREN, SEMICOLON, WHITESPACE};
use compact_mcp::analyze::{depth_refusal_message, diagnostics, stats};
use compact_mcp::json::Json;
use compact_mcp::{Diagnostic, Severity, Source};
use compactp_ast::{AstNode, Item, SourceFile};
use compactp_syntax::SyntaxKind;

const GOOD: &str = "pragma language_version >= 0.23;\nledger count: Counter;\n";
const BAD: &str = "ledger count Field;";

#[test]
fn clean_source_succeeds_with_no_diagnostics() {
    let out = diagnostics(GOOD, "a.compact", None);
    assert!(out.success);
    assert_eq!(out.error_count, 0);
    assert!(out.diagnostics.is_empty());
    assert!(!out.truncated);
}

#[test]
fn broken_source_reports_errors_tagged_compactp() {
    let out = diagnostics(BAD, "a.compact", None);
    assert!(!out.success);
    assert!(out.error_count >= 1);
    assert!(
        out.diagnostics
            .iter()
            .all(|d| d.source == Source::Compactp)
    );
}

#[test]
fn max_truncates_but_error_count_survives() {
    let out = diagnostics(BAD, "a.compact", Some(0));
    assert_eq!(out.diagnostics.len(), 0);
    assert!(
        out.error_count >= 1,
        "error_count is the count BEFORE truncation"
    );
    assert!(out.truncated);
}

#[test]
fn stats_counts_tokens_and_nodes() {
    let s = stats(GOOD);
    assert_eq!(s.file_size_bytes, GOOD.len());
    assert!(s.token_count > 0);
    assert!(s.node_count > 0);
    assert_eq!(s.error_count, 0);
    assert_eq!(s.recovery_count, 0);
    assert_eq!(s.token_count, compactp_lexer::lex(GOOD).len());
    let root = compactp_syntax::SyntaxNode::new_root(compactp_parser::parse(GOOD).green);
    assert_eq!(s.node_count, root.descendants().count());
}

/// An expression in a minimal circuit.
fn circuit(body: &str) -> String {
    format!(
        "pragma language_version >= 0.23;\nexport pure circuit f(x: Field): Field {{ return {body}; }}\n"
    )
}

fn chain(link: &str, n: usize) -> String {
    let mut s = String::from("x");
    for _ in 0..n {
        s.push_str(link);
    }
    s
}

#[test]
fn structural_depth_charges_for_brackets_and_operator_chains() {
    assert_eq!(structural_depth("a"), 1);
    assert!(structural_depth("([{}])") >= 4);
    let long_chain = format!("{}x", "x+".repeat(1000));
    assert!(structural_depth(&long_chain) > MAX_STRUCTURAL_DEPTH);
    let short_chain = format!("{}x", "x+".repeat(10));
    assert!(structural_depth(&short_chain) <= MAX_STRUCTURAL_DEPTH);
}

#[test]
fn every_chain_construct_over_the_cap_is_refused_without_crashing() {
    let n = 2000;
    let shapes: Vec<(&str, String)> = vec![
        (
            "parens",
            circuit(&format!("{}x{}", "(".repeat(n), ")".repeat(n))),
        ),
        ("plus", circuit(&chain("+x", n))),
        ("member", circuit(&chain(".a", n))),
        ("call", circuit(&format!("x{}", "()".repeat(n)))),
        ("index", circuit(&format!("x{}", "[0]".repeat(n)))),
        ("cast", circuit(&format!("x{}", " as Field".repeat(n)))),
        ("ternary", circuit(&chain("?x:x", n))),
        ("method", circuit(&chain(".a(b)", n))),
    ];
    for (name, src) in shapes {
        assert!(
            structural_depth(&src) > MAX_STRUCTURAL_DEPTH,
            "{name}: not over cap"
        );
        assert!(is_over_max_depth(&src), "{name}");
        let out = diagnostics(&src, "deep.compact", None);
        assert!(!out.success && out.error_count == 1, "{name}: not refused");
        assert!(
            out.diagnostics[0].message.contains("structural depth"),
            "{name}"
        );
        assert_eq!(out.diagnostics[0].message, depth_refusal_message());
        assert_eq!(out.diagnostics[0].file.as_deref(), Some("deep.compact"));
        let s = stats(&src);
        assert_eq!(s.node_count, 0, "{name}: stats must skip the parse");
        assert!(symbols(&src).is_empty(), "{name}: symbols must be empty");
    }
}

#[test]
fn legitimate_shapes_are_not_refused() {
    let ok: Vec<(&str, String)> = vec![
        (
            "nested_calls_500",
            circuit(&{
                let mut s = String::from("x");
                for _ in 0..500 {
                    s = format!("f({s})");
                }
                s
            }),
        ),
        (
            "wide_args_2000",
            circuit(&{
                let mut s = String::from("f(");
                for i in 0..2000 {
                    if i > 0 {
                        s.push(',');
                    }
                    s.push('a');
                }
                s.push(')');
                s
            }),
        ),
        ("mixed_chain_50", circuit(&chain(".a(b)[0]", 50))),
        ("many_circuits_400", {
            let mut s = String::from("pragma language_version >= 0.23;\nledger n: Counter;\n");
            for i in 0..400 {
                s.push_str(&format!(
                    "export circuit c{i}(a: Field, b: Field): Field {{ return (a + b) * {i} - a; }}\n"
                ));
            }
            s
        }),
        ("generics_200", {
            let mut s = String::from("pragma language_version >= 0.23;\n");
            for i in 0..200 {
                s.push_str(&format!(
                    "export circuit g{i}(m: Map<Bytes<32>, Vector<10, Uint<64>>>): Field {{ return 0; }}\n"
                ));
            }
            s
        }),
    ];
    for (name, src) in ok {
        assert!(
            structural_depth(&src) <= MAX_STRUCTURAL_DEPTH,
            "{name}: wrongly over cap ({})",
            structural_depth(&src)
        );
        let out = diagnostics(&src, "ok.compact", None);
        assert!(
            !out.diagnostics
                .iter()
                .any(|d| d.message.contains("structural depth")),
            "{name}: wrongly refused"
        );
    }
}

/// A source over a limit is answered without the parser.
fn assert_refused(name: &str, src: &str) {
    assert!(structural_depth(src) > MAX_STRUCTURAL_DEPTH, "{name}");
    assert!(is_over_max_depth(src), "{name}");
    let out = diagnostics(src, "deep.compact", None);
    assert_eq!(out.error_count, 1, "{name}");
    assert_eq!(out.diagnostics[0].message, depth_refusal_message(), "{name}");
    let s = stats(src);
    assert_eq!((s.node_count, s.recovery_count, s.error_count), (0, 0, 1), "{name}");
    assert!(symbols(src).is_empty(), "{name}");
}

#[test]
fn what_recurses_in_the_parser_is_refused_in_number() {
    let n = 20_000;
    for marks in ["!", "! ", "(", "!("] {
        let src = format!("pragma language_version {}0.23;\n", marks.repeat(n));
        assert_refused(marks, &src);
    }
    assert_refused("modules", &"module M { ".repeat(n));
    assert_refused("contracts", &"contract C { ".repeat(n));
    assert_refused("alternating", &"module M { contract C ".repeat(n));
}

#[test]
fn the_marks_of_a_version_have_an_exact_limit() {
    let at = MAX_STRUCTURAL_DEPTH;
    let version = |n: usize| format!("pragma language_version {}0.23;\n", "!".repeat(n));
    assert!(!is_over_max_depth(&version(at)));
    assert_eq!(structural_depth(&version(at)), 1);
    assert!(is_over_max_depth(&version(at + 1)));
    assert!(stats(&version(at)).node_count > 0);
    // Elsewhere a negation nests no deeper than the parser lets it.
    let out = diagnostics(&circuit(&format!("{}x", "!".repeat(5000))), "a.compact", None);
    assert!(out.diagnostics.iter().all(|d| d.message != depth_refusal_message()));
}

#[test]
fn chains_at_the_limit_of_the_parser_are_refused_in_number() {
    // At its limit the parser takes any token for an operand, and every bracket for a call or
    // an index: each round wraps the tree twice, and each closes what it opens.
    let body = |rounds: usize| {
        format!(
            "circuit f(x: Field): Field {{ return {}x+;{}",
            "(".repeat(253),
            "[;(],],;".repeat(rounds)
        )
    };
    assert_refused("rounds", &body(5_000));
    assert_refused("many rounds", &body(200_000));
    assert!(stats(&body(50)).node_count > 0);
    // What lacks its bracket takes one that closes another.
    let lacking = "circuit f(x: Field): [] { const y = (a) => { ".to_string();
    assert_refused("lacking", &(lacking + &"fold ) || - ( x < ".repeat(2_000)));
    for round in ["[;(],],;", "(;[)])", "+;[;]", "(;)(;)", "[(])", "fold;b+", "slice<1,1 ;b+"] {
        let src = format!(
            "circuit f(x: Field): Field {{ return {}x{}",
            "!".repeat(260),
            round.repeat(5_000)
        );
        assert_refused(round, &src);
    }
}

#[test]
fn the_links_of_an_expression_are_counted_across_its_brackets() {
    // A literal of a struct hides the operators behind it from the depth of the tokens.
    let literals = format!("x{{}}{}", "+x{}".repeat(MAX_HEIGHT));
    assert_refused("struct literals", &circuit(&literals));
    // So does a bracket round what came before.
    let mut nested = String::from("x");
    for _ in 0..40 {
        nested = format!("({nested}{})", "+x".repeat(100));
    }
    assert_refused("chains in brackets", &circuit(&nested));
    assert!(!is_strained(&vec![IDENT; 10]));
    let chain = |n: usize| {
        let mut tokens = vec![];
        for _ in 0..n {
            tokens.extend([IDENT, PLUS]);
        }
        tokens
    };
    assert!(!is_strained(&chain(MAX_LINKS)));
    assert!(!is_strained(&chain(MAX_HEIGHT - 4)));
    assert!(is_strained(&chain(MAX_HEIGHT - 3)));
}

#[test]
fn what_is_closed_no_longer_counts() {
    let accepted = |name: &str, src: &str| {
        assert!(structural_depth(src) <= 8, "{name}: {}", structural_depth(src));
        assert!(stats(src).node_count >= 1, "{name}");
    };
    accepted(
        "bracketed versions",
        &format!("pragma language_version !(1){};\n", " !(!(1))".repeat(500)),
    );
    for n in [513, 5_000] {
        accepted("modules", &"module M { }\n".repeat(n));
        accepted("nested modules", &"module M { module N { ledger a: Field; } }\n".repeat(n));
        accepted("a row of numbers", &format!("pragma language_version{};\n", " !1".repeat(n)));
        accepted("sums", &circuit(&format!("[(a + b){}]", ", (a + b)".repeat(n))));
        accepted("negations", &circuit(&format!("[!a{}]", ", !a".repeat(n))));
        accepted("closures", &circuit(&format!("[(a) => a{}]", ", (a) => a".repeat(n))));
        accepted("literals", &circuit(&format!("[S {{ a: x }}{}]", ", S { a: x }".repeat(n))));
        accepted(
            "disclosures",
            &circuit(&format!("[disclose(a){}]", ", disclose(a)".repeat(n))),
        );
        accepted(
            "statements",
            &format!(
                "circuit f(x: Field): [] {{ {} }}",
                "if (a < b) { c = d ? e : f; } else { assert(a == b, \"m\"); }\n".repeat(n)
            ),
        );
    }
}

#[test]
fn a_source_just_within_the_limits_is_parsed() {
    let brackets = 500;
    let mut nested = String::from("x");
    for _ in 0..18 {
        nested = format!("({nested}{})", "+x".repeat(100));
    }
    let shapes: Vec<(&str, String)> = vec![
        ("struct literals", circuit(&format!("x{{}}{}", "+x{}".repeat(500)))),
        ("indexed literals", circuit(&format!("x{{}}{}", "[0]+x{}".repeat(500)))),
        ("chains in brackets", circuit(&nested)),
        ("negations", circuit(&format!("{}x", "!".repeat(100_000)))),
        ("version", format!("pragma language_version {}0.23;", "!(".repeat(brackets / 2))),
        ("modules", "module M { ".repeat(brackets)),
        ("contracts", "contract C { ".repeat(brackets)),
        ("modules left open", "module A { module B { module C { x } } } ".repeat(1_000)),
        (
            "patterns",
            format!("circuit f({}a: Field): Field {{ return a; }}", "[".repeat(brackets)),
        ),
        ("types", format!("ledger n: {}Field;", "Map<".repeat(brackets))),
        ("tuples", format!("ledger n: {}Field;", "[".repeat(brackets))),
        ("blocks", format!("circuit f(): [] {{ {}", "{ ".repeat(brackets))),
        ("branches", format!("circuit f(): [] {{ {}", "if (a) { } else ".repeat(500))),
        ("loops", format!("circuit f(): [] {{ {}", "for (const i of 0..1) ".repeat(400))),
        ("closures", circuit(&"(a) => ".repeat(1_000))),
        ("ternaries", circuit(&format!("{}x", "x ? x : ".repeat(400)))),
    ];
    for (name, src) in shapes {
        assert!(!is_over_max_depth(&src), "{name}: {}", structural_depth(&src));
        let s = stats(&src);
        assert!(s.node_count >= 1, "{name}");
        assert_eq!(s.error_count, diagnostics(&src, "a.compact", None).error_count, "{name}");
        symbols(&src);
    }
}

#[test]
fn the_links_of_separate_statements_are_counted_apart() {
    let mut body = String::new();
    for i in 0..500 {
        body.push_str(&format!("const a{i} = x{};\n", "+x".repeat(20)));
    }
    let src = format!(
        "pragma language_version >= 0.23;\ncircuit f(x: Field): Field {{ {body} return x; }}\n"
    );
    assert!(!is_over_max_depth(&src));
    assert_eq!(diagnostics(&src, "a.compact", None).error_count, 0);
    let many = "module M { export ledger n: Counter; }\n".repeat(400);
    assert!(!is_over_max_depth(&many));
}

#[test]
fn statistics_agree_with_the_diagnostics() {
    for src in [GOOD, BAD, SRC, "", "export", "module {", "circuit f( { ( ["] {
        let s = stats(src);
        assert_eq!(s.error_count, diagnostics(src, "a.compact", None).error_count, "{src:?}");
        assert!(s.recovery_count <= s.node_count, "{src:?}");
        assert!(s.node_count >= 1, "{src:?}");
    }
    assert!(stats(BAD).recovery_count > 0 || stats(BAD).error_count > 0);
}

#[test]
fn count_nodes_walks_a_tree_deeper_than_the_parsers_own_limit() {
    let s = stats(&circuit(&format!(
        "{}x{}",
        "(".repeat(400),
        ")".repeat(400)
    )));
    assert!(s.node_count > 0);
}

#[test]
fn depth_is_counted_token_by_token() {
    assert_eq!(depth_of_tokens(&vec![]), 1);
    assert_eq!(depth_of_tokens(&vec![IDENT, PLUS, IDENT]), 2);
    assert_eq!(depth_of_tokens(&vec![IDENT, WHITESPACE, PLUS, WHITESPACE, IDENT]), 2);
    // A statement's end clears what its operators were charged.
    assert_eq!(
        depth_of_tokens(&vec![IDENT, PLUS, IDENT, SEMICOLON, IDENT, PLUS, IDENT]),
        2
    );
    // A call is banked when it closes, so calls in a chain add up.
    let mut calls = vec![IDENT];
    for _ in 0..5 {
        calls.push(L_PAREN);
        calls.push(R_PAREN);
    }
    assert_eq!(depth_of_tokens(&calls), 6);
    assert_eq!(depth_of_tokens(&vec![L_PAREN, L_PAREN, R_PAREN, R_PAREN]), 3);
    // A closing bracket that nothing opened is no error.
    assert_eq!(depth_of_tokens(&vec![R_PAREN, R_PAREN]), 1);
}

// --- symbols ---

const SRC: &str = r#"
pragma language_version >= 0.23;
import CompactStandardLibrary;
export ledger round: Counter;
sealed ledger owner: Bytes<32>;
witness secret_value(): Field;
export pure circuit double(x: Field): Field { return x + x; }
export circuit increment(): [] { round.increment(1); }
struct Point { x: Field, y: Field }
enum Colour { Red, Green }
"#;

fn find<'a>(v: &'a [Symbol], name: &str) -> &'a Symbol {
    v.iter()
        .find(|s| s.name == name)
        .unwrap_or_else(|| panic!("no symbol {name}"))
}

#[test]
fn indexes_every_declaration_kind() {
    let s = symbols(SRC);
    assert_eq!(find(&s, "round").kind, SymbolKind::Ledger);
    assert_eq!(find(&s, "owner").kind, SymbolKind::Ledger);
    assert_eq!(find(&s, "secret_value").kind, SymbolKind::Witness);
    assert_eq!(find(&s, "double").kind, SymbolKind::Circuit);
    assert_eq!(find(&s, "increment").kind, SymbolKind::Circuit);
    assert_eq!(find(&s, "Point").kind, SymbolKind::Struct);
    assert_eq!(find(&s, "Colour").kind, SymbolKind::Enum);
}

#[test]
fn records_exported_and_sealed_and_pure() {
    let s = symbols(SRC);
    assert!(find(&s, "round").exported);
    assert!(!find(&s, "secret_value").exported);
    assert_eq!(find(&s, "owner").detail.as_deref(), Some("sealed"));
    assert_eq!(find(&s, "double").detail.as_deref(), Some("pure"));
    assert_eq!(find(&s, "increment").detail, None);
}

#[test]
fn ast_json_has_a_source_file_root_with_items() {
    let v = ast_json(SRC);
    assert_eq!(v.get("kind").unwrap().as_str(), Some("SourceFile"));
    match v.get("items").unwrap() {
        Json::Array(items) => {
            assert!(items.len() >= 7);
            assert_eq!(items[0].get("kind").unwrap().as_str(), Some("Ledger"));
            assert_eq!(items[0].get("name").unwrap().as_str(), Some("round"));
            assert!(matches!(items[0].get("exported"), Some(Json::Bool(true))));
            assert!(matches!(items[0].get("detail"), Some(Json::Null)));
            assert!(items[0].get("module").is_none());
        }
        other => panic!("got {other:?}"),
    }
}

#[test]
fn top_level_declarations_have_no_module() {
    assert!(symbols(SRC).iter().all(|s| s.module.is_none()));
}

#[test]
fn module_nested_declarations_are_listed() {
    const NESTED: &str = r#"
pragma language_version >= 0.23;
export ledger round: Counter;
module Vault {
  witness secret(): Field;
  export circuit run(): [] {}
}
"#;
    let s = symbols(NESTED);

    assert_eq!(s.len(), 4, "expected round, Vault, secret, run");

    assert_eq!(find(&s, "round").module, None);
    assert_eq!(find(&s, "Vault").module, None);
    assert_eq!(find(&s, "Vault").kind, SymbolKind::Module);

    assert_eq!(find(&s, "secret").kind, SymbolKind::Witness);
    assert_eq!(find(&s, "secret").module.as_deref(), Some("Vault"));
    assert_eq!(find(&s, "run").kind, SymbolKind::Circuit);
    assert_eq!(find(&s, "run").module.as_deref(), Some("Vault"));

    let names: Vec<&str> = s.iter().map(|s| s.name.as_str()).collect();
    assert_eq!(names, ["round", "Vault", "secret", "run"]);
}

#[test]
fn nested_module_paths_are_qualified() {
    const DEEP: &str = r#"
pragma language_version >= 0.23;
module Outer {
  module Inner {
    export circuit deep(): [] {}
  }
}
"#;
    let s = symbols(DEEP);
    assert_eq!(find(&s, "Outer").module, None);
    assert_eq!(find(&s, "Inner").module.as_deref(), Some("Outer"));
    assert_eq!(find(&s, "deep").module.as_deref(), Some("Outer.Inner"));
}

#[test]
fn export_list_marks_declarations_exported() {
    const LIST: &str = r#"
pragma language_version >= 0.23;
witness secret(): Field;
circuit run(): [] {}
export { secret, run };
"#;
    let s = symbols(LIST);
    assert!(find(&s, "secret").exported, "export {{ }} list ignored");
    assert!(find(&s, "run").exported, "export {{ }} list ignored");
    assert_eq!(s.len(), 2);
}

#[test]
fn export_lists_are_scoped_to_their_brace_level() {
    const SCOPED: &str = r#"
pragma language_version >= 0.23;
witness shared(): Field;
module M {
  witness shared(): Field;
  export { shared };
}
"#;
    let s = symbols(SCOPED);
    let top = s
        .iter()
        .find(|s| s.name == "shared" && s.module.is_none())
        .expect("top-level shared");
    let nested = s
        .iter()
        .find(|s| s.name == "shared" && s.module.as_deref() == Some("M"))
        .expect("module-level shared");
    assert!(
        !top.exported,
        "top-level decl wrongly exported by module list"
    );
    assert!(nested.exported, "module list did not export module decl");
}

const NESTED_SRC: &str = "pragma language_version >= 0.23;\n\
                          witness top_secret(): Field;\n\
                          circuit top_run(): [] {}\n\
                          export { top_run };\n\
                          module Vault {\n\
                            export ledger balance: Counter;\n\
                            witness key(): Field;\n\
                            circuit spend(): [] {}\n\
                            export { key };\n\
                          }\n";

fn said(s: &Symbol) -> (&str, &str, bool, Option<&str>, Option<&str>) {
    (s.kind.text(), s.name.as_str(), s.exported, s.detail.as_deref(), s.module.as_deref())
}

#[test]
fn symbols_shape_is_stable() {
    let all = symbols(SRC.trim_start());
    assert_eq!(
        all.iter().map(said).collect::<Vec<_>>(),
        vec![
            ("Ledger", "round", true, None, None),
            ("Ledger", "owner", false, Some("sealed"), None),
            ("Witness", "secret_value", false, None, None),
            ("Circuit", "double", true, Some("pure"), None),
            ("Circuit", "increment", true, None, None),
            ("Struct", "Point", false, None, None),
            ("Enum", "Colour", false, None, None),
        ]
    );
}

#[test]
fn symbols_module_and_export_list_shape_is_stable() {
    let all = symbols(NESTED_SRC);
    assert_eq!(
        all.iter().map(said).collect::<Vec<_>>(),
        vec![
            ("Witness", "top_secret", false, None, None),
            ("Circuit", "top_run", true, None, None),
            ("Module", "Vault", false, None, None),
            ("Ledger", "balance", true, None, Some("Vault")),
            ("Witness", "key", true, None, Some("Vault")),
            ("Circuit", "spend", false, None, Some("Vault")),
        ]
    );
}

#[test]
fn ast_module_and_export_list_shape_is_stable() {
    let v = ast_json(NESTED_SRC);
    match v.get("items").unwrap() {
        Json::Array(items) => {
            assert_eq!(items.len(), 6);
            assert_eq!(items[3].get("module").unwrap().as_str(), Some("Vault"));
            assert!(items[2].get("module").is_none());
        }
        other => panic!("got {other:?}"),
    }
}

/// The declarations of a source as the typed syntax tree tells them.
fn typed(scope: &compactp_ast::SyntaxNode, out: &mut Vec<(String, bool, Option<&'static str>)>) {
    let text = |t: Option<compactp_ast::SyntaxToken>| {
        t.map(|t| t.text().to_string()).unwrap_or_default()
    };
    for item in scope.children().filter_map(Item::cast) {
        match item {
            Item::LedgerDecl(d) => out.push((
                text(d.name()),
                d.is_exported(),
                if d.is_sealed() { Some("sealed") } else { None },
            )),
            Item::CircuitDef(d) => out.push((
                text(d.name()),
                d.is_exported(),
                if d.is_pure() { Some("pure") } else { None },
            )),
            Item::CircuitDecl(d) => out.push((text(d.name()), d.is_exported(), None)),
            Item::WitnessDecl(d) => out.push((text(d.name()), d.is_exported(), None)),
            Item::ContractDecl(d) => out.push((text(d.name()), d.is_exported(), None)),
            Item::StructDef(d) => out.push((text(d.name()), d.is_exported(), None)),
            Item::EnumDef(d) => out.push((text(d.name()), d.is_exported(), None)),
            Item::TypeDecl(d) => out.push((text(d.name()), d.is_exported(), None)),
            Item::ConstructorDef(_) => out.push(("constructor".to_string(), false, None)),
            Item::ModuleDef(d) => {
                out.push((text(d.name()), d.is_exported(), None));
                typed(d.syntax(), out);
            }
            _ => {}
        }
    }
}

#[test]
fn symbols_agree_with_the_typed_syntax_tree() {
    let sources = [
        SRC,
        "constructor(a: Field) { }\nexport type T = Field;\nnew type U = Field;\ncircuit d(): Field;",
        "export contract C { circuit f(): Field; }\nexport struct S<T> { a: T }\nexport enum E { A }",
        "module M { export module N { sealed export ledger a: Cell<Field>; } constructor() {} }",
        "ledger count Field;\nexport circuit broken(: Field",
        "export pure circuit p(): Field;\nwitness w(a: Vector<2, Field>): Bytes<32>;",
        "",
        "export",
        "module { ledger x: Counter; }",
        "struct { } enum circuit witness",
    ];
    for src in sources {
        let root = compactp_syntax::SyntaxNode::new_root(compactp_parser::parse(src).green);
        let mut expected = Vec::new();
        if let Some(file) = SourceFile::cast(root) {
            typed(file.syntax(), &mut expected);
        }
        let got: Vec<(String, bool, Option<String>)> =
            symbols(src).into_iter().map(|s| (s.name, s.exported, s.detail)).collect();
        let expected: Vec<(String, bool, Option<String>)> = expected
            .into_iter()
            .map(|(n, e, d)| (n, e, d.map(|d| d.to_string())))
            .collect();
        assert_eq!(got, expected, "{src:?}");
    }
}

#[test]
fn token_kinds_are_numbered_as_the_parser_numbers_them() {
    let pairs: Vec<(u16, SyntaxKind)> = vec![
        (tokens::WHITESPACE, SyntaxKind::WHITESPACE),
        (tokens::LINE_COMMENT, SyntaxKind::LINE_COMMENT),
        (tokens::BLOCK_COMMENT, SyntaxKind::BLOCK_COMMENT),
        (tokens::INT_LIT, SyntaxKind::INT_LIT),
        (tokens::HEX_LIT, SyntaxKind::HEX_LIT),
        (tokens::OCT_LIT, SyntaxKind::OCT_LIT),
        (tokens::BIN_LIT, SyntaxKind::BIN_LIT),
        (tokens::STRING_LIT, SyntaxKind::STRING_LIT),
        (tokens::TRUE_KW, SyntaxKind::TRUE_KW),
        (tokens::FALSE_KW, SyntaxKind::FALSE_KW),
        (tokens::EXPORT_KW, SyntaxKind::EXPORT_KW),
        (tokens::AS_KW, SyntaxKind::AS_KW),
        (tokens::PURE_KW, SyntaxKind::PURE_KW),
        (tokens::SEALED_KW, SyntaxKind::SEALED_KW),
        (tokens::EQ_EQ, SyntaxKind::EQ_EQ),
        (tokens::BANG_EQ, SyntaxKind::BANG_EQ),
        (tokens::LT, SyntaxKind::LT),
        (tokens::LT_EQ, SyntaxKind::LT_EQ),
        (tokens::GT, SyntaxKind::GT),
        (tokens::GT_EQ, SyntaxKind::GT_EQ),
        (tokens::AMP_AMP, SyntaxKind::AMP_AMP),
        (tokens::PIPE_PIPE, SyntaxKind::PIPE_PIPE),
        (tokens::PLUS, SyntaxKind::PLUS),
        (tokens::MINUS, SyntaxKind::MINUS),
        (tokens::STAR, SyntaxKind::STAR),
        (tokens::QUESTION, SyntaxKind::QUESTION),
        (tokens::DOT, SyntaxKind::DOT),
        (tokens::L_PAREN, SyntaxKind::L_PAREN),
        (tokens::R_PAREN, SyntaxKind::R_PAREN),
        (tokens::L_BRACE, SyntaxKind::L_BRACE),
        (tokens::R_BRACE, SyntaxKind::R_BRACE),
        (tokens::L_BRACKET, SyntaxKind::L_BRACKET),
        (tokens::R_BRACKET, SyntaxKind::R_BRACKET),
        (tokens::SEMICOLON, SyntaxKind::SEMICOLON),
        (tokens::PRAGMA_KW, SyntaxKind::PRAGMA_KW),
        (tokens::MODULE_KW, SyntaxKind::MODULE_KW),
        (tokens::CONTRACT_KW, SyntaxKind::CONTRACT_KW),
        (tokens::ASSERT_KW, SyntaxKind::ASSERT_KW),
        (tokens::MAP_KW, SyntaxKind::MAP_KW),
        (tokens::FOLD_KW, SyntaxKind::FOLD_KW),
        (tokens::DEFAULT_KW, SyntaxKind::DEFAULT_KW),
        (tokens::DISCLOSE_KW, SyntaxKind::DISCLOSE_KW),
        (tokens::PAD_KW, SyntaxKind::PAD_KW),
        (tokens::SLICE_KW, SyntaxKind::SLICE_KW),
        (tokens::VECTOR_KW, SyntaxKind::VECTOR_KW),
        (tokens::EQ, SyntaxKind::EQ),
        (tokens::PLUS_EQ, SyntaxKind::PLUS_EQ),
        (tokens::MINUS_EQ, SyntaxKind::MINUS_EQ),
        (tokens::BANG, SyntaxKind::BANG),
        (tokens::FAT_ARROW, SyntaxKind::FAT_ARROW),
        (tokens::COMMA, SyntaxKind::COMMA),
        (tokens::COLON, SyntaxKind::COLON),
        (tokens::IF_KW, SyntaxKind::IF_KW),
        (tokens::ELSE_KW, SyntaxKind::ELSE_KW),
        (tokens::FOR_KW, SyntaxKind::FOR_KW),
        (tokens::BYTES_KW, SyntaxKind::BYTES_KW),
        (tokens::UINT_KW, SyntaxKind::UINT_KW),
        (tokens::OPAQUE_KW, SyntaxKind::OPAQUE_KW),
        (tokens::UNSIGNED_KW, SyntaxKind::UNSIGNED_KW),
        (tokens::INTEGER_KW, SyntaxKind::INTEGER_KW),
        (tokens::IDENT, SyntaxKind::IDENT),
        (tokens::ERROR, SyntaxKind::ERROR),
        (tokens::SOURCE_FILE, SyntaxKind::SOURCE_FILE),
        (tokens::INCLUDE, SyntaxKind::INCLUDE),
        (tokens::IMPORT, SyntaxKind::IMPORT),
        (tokens::EXPORT_LIST, SyntaxKind::EXPORT_LIST),
        (tokens::MODULE_DEF, SyntaxKind::MODULE_DEF),
        (tokens::LEDGER_DECL, SyntaxKind::LEDGER_DECL),
        (tokens::CONSTRUCTOR_DEF, SyntaxKind::CONSTRUCTOR_DEF),
        (tokens::CIRCUIT_DEF, SyntaxKind::CIRCUIT_DEF),
        (tokens::CIRCUIT_DECL, SyntaxKind::CIRCUIT_DECL),
        (tokens::WITNESS_DECL, SyntaxKind::WITNESS_DECL),
        (tokens::CONTRACT_DECL, SyntaxKind::CONTRACT_DECL),
        (tokens::STRUCT_DEF, SyntaxKind::STRUCT_DEF),
        (tokens::ENUM_DEF, SyntaxKind::ENUM_DEF),
        (tokens::TYPE_DECL, SyntaxKind::TYPE_DECL),
    ];
    for (ours, theirs) in pairs {
        assert_eq!(ours, theirs as u16, "{theirs:?}");
    }
}

fn element(kind: u16, depth: u32, text: Option<&str>) -> Element {
    Element { kind, depth, text: text.map(|t| t.to_string()) }
}

#[test]
fn a_flat_tree_is_searched_level_by_level() {
    let es = vec![
        element(tokens::SOURCE_FILE, 0, None),
        element(tokens::MODULE_DEF, 1, None),
        element(tokens::IDENT, 2, Some("M")),
        element(tokens::LEDGER_DECL, 2, None),
        element(tokens::IDENT, 3, Some("a")),
        element(tokens::IDENT, 2, Some("late")),
        element(tokens::ERROR, 1, None),
    ];
    assert_eq!(find_subtree_end(&es, 1, es.len()), 6);
    assert_eq!(find_subtree_end(&es, 0, es.len()), 7);
    assert_eq!(find_child_token(&es, 1, 6, tokens::IDENT).as_deref(), Some("M"));
    assert_eq!(find_child_token(&es, 3, 5, tokens::IDENT).as_deref(), Some("a"));
    assert_eq!(find_child_token(&es, 0, 7, tokens::IDENT), None);
    assert_eq!(count_nodes(&es), (4, 1));
    let mut out = Vec::new();
    collect_child_tokens(&es, 1, 6, tokens::IDENT, &mut out);
    assert_eq!(out, vec!["M", "late"]);
}

// --- diagnostics ---

#[test]
fn compactp_diagnostic_is_tagged_with_its_source() {
    let src = "ledger count Field;";
    let result = compactp_parser::parse(src);
    assert!(
        !result.errors.is_empty(),
        "fixture must produce a parse error"
    );

    let d = Diagnostic::from_compactp(&result.errors[0], src, "a.compact");
    assert_eq!(d.source, Source::Compactp);
    assert_eq!(d.severity, Severity::Error);
    assert_eq!(d.file.as_deref(), Some("a.compact"));
    assert_eq!(d.code.as_deref(), Some("E1"));
    assert!(!d.raw);
    assert!(d.span.is_some());
}

fn obj(members: Vec<(&str, Json)>) -> Json {
    Json::Object(members.into_iter().map(|(n, v)| (n.to_string(), v)).collect())
}

fn envelope(severity: Option<&str>, prefix: &str, number: u64) -> Json {
    let at = |offset: u64, line: u64, column: u64| {
        obj(vec![
            ("offset", Json::uint(offset)),
            ("line", Json::uint(line)),
            ("column", Json::uint(column)),
        ])
    };
    let mut members = vec![
        (
            "code",
            obj(vec![("prefix", Json::string(prefix)), ("number", Json::uint(number))]),
        ),
        ("message", Json::string("synthetic")),
        ("primary_span", obj(vec![("start", at(0, 1, 1)), ("end", at(1, 1, 2))])),
    ];
    if let Some(s) = severity {
        members.push(("severity", Json::string(s)));
    }
    obj(members)
}

#[test]
fn maps_severity_and_code_from_the_render_json_shape() {
    let warning = Diagnostic::from_render_json(&envelope(Some("warning"), "W", 7), "a.compact");
    assert_eq!(warning.severity, Severity::Warning);
    assert_eq!(warning.code.as_deref(), Some("W7"));
    assert_eq!(warning.message, "synthetic");
    let span = warning.span.unwrap();
    assert_eq!((span.start.offset, span.start.line, span.start.column), (Some(0), 1, 1));
    let end = span.end.unwrap();
    assert_eq!((end.offset, end.line, end.column), (Some(1), 1, 2));

    let note = Diagnostic::from_render_json(&envelope(Some("note"), "N", 3), "a.compact");
    assert_eq!(note.severity, Severity::Note);

    let unknown = Diagnostic::from_render_json(&envelope(Some("catastrophe"), "E", 9), "a.compact");
    assert_eq!(unknown.severity, Severity::Error);

    let missing = Diagnostic::from_render_json(&envelope(None, "E", 1), "a.compact");
    assert_eq!(missing.severity, Severity::Error);
}

#[test]
fn diagnostics_shape_is_stable() {
    let out = diagnostics("ledger count Field;", "a.compact", None);
    let result = compactp_parser::parse("ledger count Field;");
    assert_eq!(out.error_count, result.errors.len());
    for (d, e) in out.diagnostics.iter().zip(result.errors.iter()) {
        assert_eq!(
            *d,
            Diagnostic::from_compactp(e, "ledger count Field;", "a.compact")
        );
    }
}

#[test]
fn ast_shape_is_stable() {
    let v = ast_json(SRC.trim_start());
    assert_eq!(v.get("kind").unwrap().as_str(), Some("SourceFile"));
    let items = match v.get("items").unwrap() {
        Json::Array(items) => items,
        other => panic!("got {other:?}"),
    };
    let expected = [
        ("Ledger", "round", true, None),
        ("Ledger", "owner", false, Some("sealed")),
        ("Witness", "secret_value", false, None),
        ("Circuit", "double", true, Some("pure")),
        ("Circuit", "increment", true, None),
        ("Struct", "Point", false, None),
        ("Enum", "Colour", false, None),
    ];
    assert_eq!(items.len(), expected.len());
    for (item, (kind, name, exported, detail)) in items.iter().zip(expected) {
        assert_eq!(item.get("kind").unwrap().as_str(), Some(kind));
        assert_eq!(item.get("name").unwrap().as_str(), Some(name));
        assert!(matches!(item.get("exported"), Some(Json::Bool(e)) if *e == exported));
        match detail {
            Some(d) => assert_eq!(item.get("detail").unwrap().as_str(), Some(d)),
            None => assert!(matches!(item.get("detail"), Some(Json::Null))),
        }
        assert!(item.get("module").is_none());
    }
}

#[test]
fn stats_shape_is_stable() {
    let source = SRC.trim_start();
    let s = stats(source);
    assert_eq!(s.file_size_bytes, source.len());
    assert_eq!(s.token_count, compactp_lexer::lex(source).len());
    let root = compactp_syntax::SyntaxNode::new_root(compactp_parser::parse(source).green);
    assert_eq!(s.node_count, root.descendants().count());
    assert_eq!(s.error_count, 0);
    assert_eq!(s.recovery_count, 0);
}
