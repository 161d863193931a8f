//! The declarations of a Compact source.

use vstd::prelude::*;

use super::depth::is_over_max_depth;
use super::syntax::{
    collect_child_tokens, elements, find_child_token, find_subtree_end, parse_with, Element,
    ElementView, PARSER_MAX_DEPTH,
};
use super::tokens::{
    CIRCUIT_DECL, CIRCUIT_DEF, CONSTRUCTOR_DEF, CONTRACT_DECL, ENUM_DEF, EXPORT_KW, EXPORT_LIST,
    IDENT, LEDGER_DECL, MODULE_DEF, PURE_KW, SEALED_KW, SOURCE_FILE, STRUCT_DEF, TYPE_DECL,
    WITNESS_DECL,
};
use crate::json::{Json, JsonView};
use crate::text::{clone_opt, same_text};
use crate::analyze::depth;
use crate::analyze::syntax;
use crate::json;
use crate::text;

verus! {

broadcast use vstd::string::group_string_axioms;

#[derive(Debug, Clone, Copy, PartialEq, Eq, Structural)]
pub enum SymbolKind {
    Ledger,
    Circuit,
    CircuitDecl,
    Witness,
    Contract,
    Struct,
    Enum,
    Module,
    TypeDecl,
    Constructor,
}

#[derive(Debug, PartialEq, Eq)]
pub struct Symbol {
    pub kind: SymbolKind,
    pub name: String,
    pub exported: bool,
    /// `"sealed"`, `"pure"`, or absent.
    pub detail: Option<String>,
    /// The qualified path of the enclosing module (`"Outer.Inner"`); absent for top-level
    /// declarations. `name` remains the bare name of the declaration.
    pub module: Option<String>,
}

/// What a [`Symbol`] says.
pub struct SymbolView {
    pub kind: SymbolKind,
    pub name: Seq<char>,
    pub exported: bool,
    pub detail: Option<Seq<char>>,
    pub module: Option<Seq<char>>,
}

impl View for Symbol {
    type V = SymbolView;

    open spec fn view(&self) -> SymbolView {
        SymbolView {
            kind: self.kind,
            name: self.name@,
            exported: self.exported,
            detail: text::opt_view(self.detail),
            module: text::opt_view(self.module),
        }
    }
}

pub open spec fn symbol_views(ss: Seq<Symbol>) -> Seq<SymbolView> {
    Seq::new(ss.len(), |i: int| ss[i]@)
}

// ---------------------------------------------------------------------------
// Model
// ---------------------------------------------------------------------------

/// What a node of this kind declares, if anything.
pub open spec fn declares(kind: u16) -> Option<SymbolKind> {
    if kind == LEDGER_DECL {
        Some(SymbolKind::Ledger)
    } else if kind == CIRCUIT_DEF {
        Some(SymbolKind::Circuit)
    } else if kind == CIRCUIT_DECL {
        Some(SymbolKind::CircuitDecl)
    } else if kind == WITNESS_DECL {
        Some(SymbolKind::Witness)
    } else if kind == CONTRACT_DECL {
        Some(SymbolKind::Contract)
    } else if kind == STRUCT_DEF {
        Some(SymbolKind::Struct)
    } else if kind == ENUM_DEF {
        Some(SymbolKind::Enum)
    } else if kind == MODULE_DEF {
        Some(SymbolKind::Module)
    } else if kind == TYPE_DECL {
        Some(SymbolKind::TypeDecl)
    } else if kind == CONSTRUCTOR_DEF {
        Some(SymbolKind::Constructor)
    } else {
        None
    }
}

/// The name of the declaration at `i`: its first identifier, or nothing.
pub open spec fn name_at(es: Seq<ElementView>, i: int, end: int) -> Seq<char> {
    if es[i].kind == CONSTRUCTOR_DEF {
        "constructor"@
    } else {
        match syntax::child_token(es, i, end, IDENT) {
            Some(t) => t,
            None => seq![],
        }
    }
}

/// Whether the declaration at `i` carries the `export` keyword itself.
pub open spec fn exports_itself(es: Seq<ElementView>, i: int, end: int) -> bool {
    es[i].kind != CONSTRUCTOR_DEF && syntax::child_token(es, i, end, EXPORT_KW) is Some
}

/// The modifier shown beside the declaration at `i`.
pub open spec fn detail_at(es: Seq<ElementView>, i: int, end: int) -> Option<Seq<char>> {
    if es[i].kind == LEDGER_DECL && syntax::child_token(es, i, end, SEALED_KW) is Some {
        Some("sealed"@)
    } else if es[i].kind == CIRCUIT_DEF && syntax::child_token(es, i, end, PURE_KW) is Some {
        Some("pure"@)
    } else {
        None
    }
}

/// The qualified path of module `name` declared in `module`.
pub open spec fn qualified(module: Option<Seq<char>>, name: Seq<char>) -> Seq<char> {
    match module {
        Some(parent) => parent + "."@ + name,
        None => name,
    }
}

/// The names that the `export { .. }` lists directly in the scope `lo..hi` give.
pub open spec fn scope_exports(es: Seq<ElementView>, lo: int, hi: int, depth: int) -> Seq<Seq<char>>
    decreases hi - lo,
{
    if lo >= hi {
        seq![]
    } else {
        let rest = scope_exports(es, lo + 1, hi, depth);
        if syntax::is_node(es[lo]) && es[lo].depth == depth && es[lo].kind == EXPORT_LIST {
            syntax::all_tokens(es, lo + 1, syntax::subtree_end(es, lo, hi), depth + 1, IDENT) + rest
        } else {
            rest
        }
    }
}

/// The symbol that the declaration at `i` stands for, in a scope with these export lists.
pub open spec fn symbol_at(
    es: Seq<ElementView>,
    i: int,
    end: int,
    kind: SymbolKind,
    module: Option<Seq<char>>,
    exports: Seq<Seq<char>>,
) -> SymbolView {
    SymbolView {
        kind,
        name: name_at(es, i, end),
        exported: exports_itself(es, i, end) || exports.contains(name_at(es, i, end)),
        detail: detail_at(es, i, end),
        module,
    }
}

/// The symbols of the scope `lo..hi`, whose members lie at depth `depth`: depth first, in
/// source order, a module immediately before its members. An export list marks the
/// declarations of its own scope only.
pub open spec fn symbols_in(
    es: Seq<ElementView>,
    lo: int,
    hi: int,
    depth: int,
    module: Option<Seq<char>>,
    exports: Seq<Seq<char>>,
) -> Seq<SymbolView>
    decreases hi - lo,
{
    if lo >= hi {
        seq![]
    } else if !syntax::is_node(es[lo]) || es[lo].depth != depth {
        symbols_in(es, lo + 1, hi, depth, module, exports)
    } else {
        proof {
            syntax::lemma_below_until(es, es[lo].depth, lo + 1, hi);
        }
        let end = syntax::subtree_end(es, lo, hi);
        let rest = symbols_in(es, end, hi, depth, module, exports);
        match declares(es[lo].kind) {
            None => rest,
            Some(kind) => {
                let own = seq![symbol_at(es, lo, end, kind, module, exports)];
                if kind == SymbolKind::Module {
                    own + symbols_in(
                        es,
                        lo + 1,
                        end,
                        depth + 1,
                        Some(qualified(module, name_at(es, lo, end))),
                        scope_exports(es, lo + 1, end, depth + 1),
                    ) + rest
                } else {
                    own + rest
                }
            },
        }
    }
}

/// The symbols of a syntax tree.
pub open spec fn tree_symbols(es: Seq<ElementView>) -> Seq<SymbolView> {
    if es.len() > 0 && es[0].kind == SOURCE_FILE {
        let hi = es.len() as int;
        symbols_in(es, 1, hi, 1, None, scope_exports(es, 1, hi, 1))
    } else {
        seq![]
    }
}

/// The symbols of a source text; none where it is too deep to be syntax::parsed.
pub open spec fn source_symbols(source: Seq<char>) -> Seq<SymbolView> {
    if depth::too_deep(source) {
        seq![]
    } else {
        tree_symbols(syntax::tree_elements(syntax::parsed(source, PARSER_MAX_DEPTH)))
    }
}

// ---------------------------------------------------------------------------
// Walk
// ---------------------------------------------------------------------------

fn declared_kind(kind: u16) -> (r: Option<SymbolKind>)
    ensures
        r == declares(kind),
{
    if kind == LEDGER_DECL {
        Some(SymbolKind::Ledger)
    } else if kind == CIRCUIT_DEF {
        Some(SymbolKind::Circuit)
    } else if kind == CIRCUIT_DECL {
        Some(SymbolKind::CircuitDecl)
    } else if kind == WITNESS_DECL {
        Some(SymbolKind::Witness)
    } else if kind == CONTRACT_DECL {
        Some(SymbolKind::Contract)
    } else if kind == STRUCT_DEF {
        Some(SymbolKind::Struct)
    } else if kind == ENUM_DEF {
        Some(SymbolKind::Enum)
    } else if kind == MODULE_DEF {
        Some(SymbolKind::Module)
    } else if kind == TYPE_DECL {
        Some(SymbolKind::TypeDecl)
    } else if kind == CONSTRUCTOR_DEF {
        Some(SymbolKind::Constructor)
    } else {
        None
    }
}

fn contains_name(names: &Vec<String>, name: &String) -> (r: bool)
    ensures
        r == text::views(names@).contains(name@),
{
    let mut i: usize = 0;
    while i < names.len()
        invariant
            i <= names.len(),
            forall|j: int| 0 <= j < i ==> #[trigger] text::views(names@)[j] != name@,
        decreases names.len() - i,
    {
        if same_text(names[i].as_str(), name.as_str()) {
            assert(text::views(names@)[i as int] == name@);
            return true;
        }
        i = i + 1;
    }
    false
}

/// The names that the export lists directly in the scope `lo..hi` give.
fn collect_exports(es: &Vec<Element>, lo: usize, hi: usize, depth: u64) -> (r: Vec<String>)
    requires
        lo <= hi <= es.len(),
        depth <= u32::MAX + 1,
    ensures
        text::views(r@) == scope_exports(syntax::element_views(es@), lo as int, hi as int, depth as int),
{
    let mut out: Vec<String> = Vec::new();
    let mut i: usize = lo;
    let ghost vs = syntax::element_views(es@);
    assert(text::views(out@) + scope_exports(vs, lo as int, hi as int, depth as int) =~= scope_exports(
        vs,
        lo as int,
        hi as int,
        depth as int,
    ));
    while i < hi
        invariant
            lo <= i <= hi <= es.len(),
            vs == syntax::element_views(es@),
            text::views(out@) + scope_exports(vs, i as int, hi as int, depth as int) == scope_exports(
                vs,
                lo as int,
                hi as int,
                depth as int,
            ),
        decreases hi - i,
    {
        let ghost before = text::views(out@);
        if es[i].text.is_none() && es[i].depth as u64 == depth && es[i].kind == EXPORT_LIST {
            let end: usize = find_subtree_end(es, i, hi);
            collect_child_tokens(es, i, end, IDENT, &mut out);
            proof {
                let names = syntax::all_tokens(vs, i + 1, end as int, depth + 1, IDENT);
                let rest = scope_exports(vs, i + 1, hi as int, depth as int);
                assert(before + (names + rest) =~= (before + names) + rest);
            }
        }
        i = i + 1;
    }
    assert(text::views(out@) + Seq::<Seq<char>>::empty() =~= text::views(out@));
    out
}

/// Appends the symbols of the scope `lo..hi`, whose members lie at depth `depth`.
pub fn collect_scope(
    es: &Vec<Element>,
    lo: usize,
    hi: usize,
    depth: u64,
    module: &Option<String>,
    out: &mut Vec<Symbol>,
)
    requires
        lo <= hi <= es.len(),
        depth <= u32::MAX + 1,
    ensures
        symbol_views(final(out)@) == symbol_views(old(out)@) + symbols_in(
            syntax::element_views(es@),
            lo as int,
            hi as int,
            depth as int,
            text::opt_view(*module),
            scope_exports(syntax::element_views(es@), lo as int, hi as int, depth as int),
        ),
    decreases hi - lo,
{
    let exports = collect_exports(es, lo, hi, depth);
    let ghost vs = syntax::element_views(es@);
    let ghost m = text::opt_view(*module);
    let ghost ex = text::views(exports@);
    let ghost all = symbols_in(vs, lo as int, hi as int, depth as int, m, ex);
    let ghost start = symbol_views(out@);
    let mut i: usize = lo;
    while i < hi
        invariant
            lo <= i <= hi <= es.len(),
            depth <= u32::MAX + 1,
            vs == syntax::element_views(es@),
            m == text::opt_view(*module),
            ex == text::views(exports@),
            symbol_views(out@) + symbols_in(vs, i as int, hi as int, depth as int, m, ex) == start
                + all,
        decreases hi - i,
    {
        if es[i].text.is_some() || es[i].depth as u64 != depth {
            i = i + 1;
        } else {
            let end: usize = find_subtree_end(es, i, hi);
            let ghost before = symbol_views(out@);
            let ghost rest = symbols_in(vs, end as int, hi as int, depth as int, m, ex);
            match declared_kind(es[i].kind) {
                None => {},
                Some(kind) => {
                    let name = declared_name(es, i, end);
                    let by_keyword = es[i].kind != CONSTRUCTOR_DEF && find_child_token(
                        es,
                        i,
                        end,
                        EXPORT_KW,
                    ).is_some();
                    let exported = by_keyword || contains_name(&exports, &name);
                    let child = if kind == SymbolKind::Module {
                        Some(qualified_name(module, &name))
                    } else {
                        None
                    };
                    let symbol = Symbol {
                        kind,
                        name,
                        exported,
                        detail: declared_detail(es, i, end),
                        module: clone_opt(module),
                    };
                    let ghost own = symbol@;
                    out.push(symbol);
                    proof {
                        assert(symbol_views(out@) =~= before.push(own));
                        assert(own == symbol_at(vs, i as int, end as int, kind, m, ex));
                    }
                    if kind == SymbolKind::Module {
                        collect_scope(es, i + 1, end, depth + 1, &child, out);
                        proof {
                            let inner = symbols_in(
                                vs,
                                i + 1,
                                end as int,
                                depth + 1,
                                text::opt_view(child),
                                scope_exports(vs, i + 1, end as int, depth + 1),
                            );
                            assert(before.push(own) + inner + rest =~= before + (seq![own] + inner
                                + rest));
                        }
                    } else {
                        assert(before.push(own) + rest =~= before + (seq![own] + rest));
                    }
                },
            }
            i = end;
        }
    }
    assert(symbol_views(out@) + Seq::<SymbolView>::empty() =~= symbol_views(out@));
}

fn declared_name(es: &Vec<Element>, i: usize, end: usize) -> (r: String)
    requires
        i < end <= es.len(),
    ensures
        r@ == name_at(syntax::element_views(es@), i as int, end as int),
{
    if es[i].kind == CONSTRUCTOR_DEF {
        "constructor".to_owned()
    } else {
        match find_child_token(es, i, end, IDENT) {
            Some(t) => t,
            None => String::new(),
        }
    }
}

fn declared_detail(es: &Vec<Element>, i: usize, end: usize) -> (r: Option<String>)
    requires
        i < end <= es.len(),
    ensures
        text::opt_view(r) == detail_at(syntax::element_views(es@), i as int, end as int),
{
    if es[i].kind == LEDGER_DECL && find_child_token(es, i, end, SEALED_KW).is_some() {
        Some("sealed".to_owned())
    } else if es[i].kind == CIRCUIT_DEF && find_child_token(es, i, end, PURE_KW).is_some() {
        Some("pure".to_owned())
    } else {
        None
    }
}

fn qualified_name(module: &Option<String>, name: &String) -> (r: String)
    ensures
        r@ == qualified(text::opt_view(*module), name@),
{
    match module {
        Some(parent) => {
            let mut s = parent.clone();
            s.append(".");
            s.append(name.as_str());
            s
        },
        None => name.clone(),
    }
}

/// The symbols of a syntax tree.
pub fn symbols_of_tree(es: &Vec<Element>) -> (r: Vec<Symbol>)
    ensures
        symbol_views(r@) == tree_symbols(syntax::element_views(es@)),
{
    let mut out: Vec<Symbol> = Vec::new();
    if es.len() > 0 && es[0].kind == SOURCE_FILE {
        let none: Option<String> = None;
        let ghost before = symbol_views(out@);
        collect_scope(es, 1, es.len(), 1, &none, &mut out);
        proof {
            let hi = es@.len() as int;
            let vs = syntax::element_views(es@);
            assert(before + symbols_in(vs, 1, hi, 1, None, scope_exports(vs, 1, hi, 1))
                =~= symbols_in(vs, 1, hi, 1, None, scope_exports(vs, 1, hi, 1)));
        }
    } else {
        assert(symbol_views(out@) =~= Seq::<SymbolView>::empty());
    }
    out
}

/// Every declaration of a source text, with those nested in modules.
pub fn symbols(source: &str) -> (r: Vec<Symbol>)
    ensures
        symbol_views(r@) == source_symbols(source@),
{
    if is_over_max_depth(source) {
        let none: Vec<Symbol> = Vec::new();
        assert(symbol_views(none@) =~= Seq::<SymbolView>::empty());
        return none;
    }
    symbols_of_tree(&elements(&parse_with(source, PARSER_MAX_DEPTH)))
}

// ---------------------------------------------------------------------------
// JSON projection
// ---------------------------------------------------------------------------

/// The name of a kind of symbol.
pub open spec fn kind_text(kind: SymbolKind) -> Seq<char> {
    match kind {
        SymbolKind::Ledger => "Ledger"@,
        SymbolKind::Circuit => "Circuit"@,
        SymbolKind::CircuitDecl => "CircuitDecl"@,
        SymbolKind::Witness => "Witness"@,
        SymbolKind::Contract => "Contract"@,
        SymbolKind::Struct => "Struct"@,
        SymbolKind::Enum => "Enum"@,
        SymbolKind::Module => "Module"@,
        SymbolKind::TypeDecl => "TypeDecl"@,
        SymbolKind::Constructor => "Constructor"@,
    }
}

/// A symbol as a JSON object. Only a declaration nested in a module has a member
/// `module`.
pub open spec fn item_view(s: SymbolView) -> JsonView {
    let base = seq![
        ("kind"@, JsonView::Str(kind_text(s.kind))),
        ("name"@, JsonView::Str(s.name)),
        ("exported"@, JsonView::Bool(s.exported)),
        ("detail"@, json::opt_str_view(s.detail)),
    ];
    match s.module {
        Some(m) => JsonView::Object(base.push(("module"@, JsonView::Str(m)))),
        None => JsonView::Object(base),
    }
}

/// The item list of a source as a JSON document.
pub open spec fn ast_view(ss: Seq<SymbolView>) -> JsonView {
    JsonView::Object(
        seq![
            ("kind"@, JsonView::Str("SourceFile"@)),
            ("items"@, JsonView::Array(Seq::new(ss.len(), |i: int| item_view(ss[i])))),
        ],
    )
}

impl SymbolKind {
    /// The name of the kind.
    pub fn text(self) -> (r: &'static str)
        ensures
            r@ == kind_text(self),
    {
        match self {
            SymbolKind::Ledger => "Ledger",
            SymbolKind::Circuit => "Circuit",
            SymbolKind::CircuitDecl => "CircuitDecl",
            SymbolKind::Witness => "Witness",
            SymbolKind::Contract => "Contract",
            SymbolKind::Struct => "Struct",
            SymbolKind::Enum => "Enum",
            SymbolKind::Module => "Module",
            SymbolKind::TypeDecl => "TypeDecl",
            SymbolKind::Constructor => "Constructor",
        }
    }
}

fn item_json(s: &Symbol) -> (r: Json)
    ensures
        r@ == item_view(s@),
{
    broadcast use json::lemma_object_view;

    let mut members: Vec<(String, Json)> = Vec::new();
    members.push(("kind".to_owned(), Json::string(s.kind.text())));
    members.push(("name".to_owned(), Json::Str(s.name.clone())));
    members.push(("exported".to_owned(), Json::Bool(s.exported)));
    members.push(("detail".to_owned(), Json::opt_string(&s.detail)));
    match &s.module {
        Some(m) => {
            members.push(("module".to_owned(), Json::Str(m.clone())));
        },
        None => {},
    }
    assert(json::member_views(members@) =~= item_view(s@)->Object_0);
    Json::Object(members)
}

/// The item list of these symbols as a JSON document.
pub fn ast_of_symbols(ss: &Vec<Symbol>) -> (r: Json)
    ensures
        r@ == ast_view(symbol_views(ss@)),
{
    broadcast use {json::lemma_array_view, json::lemma_object_view};

    let mut items: Vec<Json> = Vec::new();
    let mut i: usize = 0;
    while i < ss.len()
        invariant
            i <= ss.len(),
            items.len() == i,
            forall|j: int| 0 <= j < i ==> (#[trigger] items@[j])@ == item_view(ss@[j]@),
        decreases ss.len() - i,
    {
        items.push(item_json(&ss[i]));
        i = i + 1;
    }
    let mut members: Vec<(String, Json)> = Vec::new();
    members.push(("kind".to_owned(), Json::string("SourceFile")));
    proof {
        let vs = symbol_views(ss@);
        assert(json::json_views(items@) =~= Seq::new(vs.len(), |i: int| item_view(vs[i])));
    }
    members.push(("items".to_owned(), Json::Array(items)));
    assert(json::member_views(members@) =~= ast_view(symbol_views(ss@))->Object_0);
    Json::Object(members)
}

/// The item list of a source text, tagged by kind.
pub fn ast_json(source: &str) -> (r: Json)
    ensures
        r@ == ast_view(source_symbols(source@)),
{
    ast_of_symbols(&symbols(source))
}

// ---------------------------------------------------------------------------
// Laws
// ---------------------------------------------------------------------------

/// Whether module path `q` is `p` or lies below it.
pub open spec fn at_or_below(p: Seq<char>, q: Seq<char>) -> bool {
    q == p || (p + "."@).is_prefix_of(q)
}

/// Everything listed for a module's body carries that module's path, or the path of a
/// module nested in it.
pub proof fn law_members_carry_their_module(
    es: Seq<ElementView>,
    lo: int,
    hi: int,
    depth: int,
    p: Seq<char>,
    exports: Seq<Seq<char>>,
)
    ensures
        forall|k: int|
            0 <= k < symbols_in(es, lo, hi, depth, Some(p), exports).len() ==> ({
                let m = (#[trigger] symbols_in(es, lo, hi, depth, Some(p), exports)[k]).module;
                m is Some && at_or_below(p, m->Some_0)
            }),
    decreases hi - lo,
{
    reveal_strlit(".");
    let all = symbols_in(es, lo, hi, depth, Some(p), exports);
    if lo >= hi {
    } else if !syntax::is_node(es[lo]) || es[lo].depth != depth {
        law_members_carry_their_module(es, lo + 1, hi, depth, p, exports);
    } else {
        syntax::lemma_below_until(es, es[lo].depth, lo + 1, hi);
        let end = syntax::subtree_end(es, lo, hi);
        law_members_carry_their_module(es, end, hi, depth, p, exports);
        let rest = symbols_in(es, end, hi, depth, Some(p), exports);
        match declares(es[lo].kind) {
            None => {},
            Some(kind) => {
                if kind == SymbolKind::Module {
                    let q = qualified(Some(p), name_at(es, lo, end));
                    let inner_exports = scope_exports(es, lo + 1, end, depth + 1);
                    law_members_carry_their_module(es, lo + 1, end, depth + 1, q, inner_exports);
                    let inner = symbols_in(es, lo + 1, end, depth + 1, Some(q), inner_exports);
                    assert forall|k: int| 0 <= k < all.len() implies ({
                        let m = (#[trigger] all[k]).module;
                        m is Some && at_or_below(p, m->Some_0)
                    }) by {
                        if k == 0 {
                        } else if k <= inner.len() {
                            assert(all[k] == inner[k - 1]);
                            let m = inner[k - 1].module->Some_0;
                            assert(at_or_below(q, m));
                            assert((p + "."@).is_prefix_of(q)) by {
                                assert(q =~= p + "."@ + name_at(es, lo, end));
                            }
                            assert((p + "."@).is_prefix_of(m)) by {
                                if m != q {
                                    assert((q + "."@).is_prefix_of(m));
                                    assert forall|i: int| 0 <= i < (p + "."@).len() implies (p
                                        + "."@)[i] == m[i] by {
                                        assert((p + "."@)[i] == q[i]);
                                        assert((q + "."@)[i] == m[i]);
                                        assert((q + "."@)[i] == q[i]);
                                    }
                                }
                            }
                        } else {
                            assert(all[k] == rest[k - 1 - inner.len()]);
                        }
                    }
                } else {
                    assert forall|k: int| 0 <= k < all.len() implies ({
                        let m = (#[trigger] all[k]).module;
                        m is Some && at_or_below(p, m->Some_0)
                    }) by {
                        if k > 0 {
                            assert(all[k] == rest[k - 1]);
                        }
                    }
                }
            },
        }
    }
}

/// An export list reaches only the declarations of its own scope: with other lists the same
/// symbols are listed, and those of nested modules are the same in every respect.
pub proof fn law_export_lists_do_not_reach_into_modules(
    es: Seq<ElementView>,
    lo: int,
    hi: int,
    depth: int,
    module: Option<Seq<char>>,
    one: Seq<Seq<char>>,
    other: Seq<Seq<char>>,
)
    ensures
        ({
            let a = symbols_in(es, lo, hi, depth, module, one);
            let b = symbols_in(es, lo, hi, depth, module, other);
            &&& a.len() == b.len()
            &&& forall|k: int|
                0 <= k < a.len() ==> {
                    &&& (#[trigger] a[k]).kind == b[k].kind
                    &&& a[k].name == b[k].name
                    &&& a[k].detail == b[k].detail
                    &&& a[k].module == b[k].module
                    &&& a[k].module != module ==> a[k] == b[k]
                }
        }),
    decreases hi - lo,
{
    let a = symbols_in(es, lo, hi, depth, module, one);
    let b = symbols_in(es, lo, hi, depth, module, other);
    if lo >= hi {
    } else if !syntax::is_node(es[lo]) || es[lo].depth != depth {
        law_export_lists_do_not_reach_into_modules(es, lo + 1, hi, depth, module, one, other);
    } else {
        syntax::lemma_below_until(es, es[lo].depth, lo + 1, hi);
        let end = syntax::subtree_end(es, lo, hi);
        law_export_lists_do_not_reach_into_modules(es, end, hi, depth, module, one, other);
        let ra = symbols_in(es, end, hi, depth, module, one);
        let rb = symbols_in(es, end, hi, depth, module, other);
        if let Some(kind) = declares(es[lo].kind) {
            let inner = if kind == SymbolKind::Module {
                symbols_in(
                    es,
                    lo + 1,
                    end,
                    depth + 1,
                    Some(qualified(module, name_at(es, lo, end))),
                    scope_exports(es, lo + 1, end, depth + 1),
                )
            } else {
                Seq::<SymbolView>::empty()
            };
            assert forall|k: int| 0 <= k < a.len() implies {
                &&& (#[trigger] a[k]).kind == b[k].kind
                &&& a[k].name == b[k].name
                &&& a[k].detail == b[k].detail
                &&& a[k].module == b[k].module
                &&& a[k].module != module ==> a[k] == b[k]
            } by {
                if k == 0 {
                } else if k <= inner.len() {
                    assert(a[k] == inner[k - 1]);
                    assert(b[k] == inner[k - 1]);
                } else {
                    assert(a[k] == ra[k - 1 - inner.len()]);
                    assert(b[k] == rb[k - 1 - inner.len()]);
                }
            }
        }
    }
}

/// No declaration of a scope is left out: the symbol of every node that declares something
/// directly in the scope is listed.
pub proof fn law_every_declaration_is_listed(
    es: Seq<ElementView>,
    lo: int,
    hi: int,
    depth: int,
    module: Option<Seq<char>>,
    exports: Seq<Seq<char>>,
    i: int,
)
    requires
        0 <= lo <= i < hi <= es.len(),
        syntax::is_node(es[i]),
        es[i].depth == depth,
        declares(es[i].kind) is Some,
    ensures
        symbols_in(es, lo, hi, depth, module, exports).contains(
            symbol_at(
                es,
                i,
                syntax::subtree_end(es, i, hi),
                declares(es[i].kind)->Some_0,
                module,
                exports,
            ),
        ),
    decreases hi - lo,
{
    let all = symbols_in(es, lo, hi, depth, module, exports);
    let wanted = symbol_at(
        es,
        i,
        syntax::subtree_end(es, i, hi),
        declares(es[i].kind)->Some_0,
        module,
        exports,
    );
    if !syntax::is_node(es[lo]) || es[lo].depth != depth {
        law_every_declaration_is_listed(es, lo + 1, hi, depth, module, exports, i);
    } else if i == lo {
        syntax::lemma_below_until(es, es[lo].depth, lo + 1, hi);
        assert(all[0] == wanted);
    } else {
        syntax::lemma_below_until(es, es[lo].depth, lo + 1, hi);
        let end = syntax::subtree_end(es, lo, hi);
        if i < end {
            lemma_inside_subtree_is_deeper(es, es[lo].depth, lo + 1, hi, i);
        }
        law_every_declaration_is_listed(es, end, hi, depth, module, exports, i);
        let rest = symbols_in(es, end, hi, depth, module, exports);
        let k = choose|k: int| 0 <= k < rest.len() && rest[k] == wanted;
        let shift = all.len() - rest.len();
        assert(all[shift + k] == rest[k]);
    }
}

proof fn lemma_inside_subtree_is_deeper(
    es: Seq<ElementView>,
    depth: int,
    from: int,
    hi: int,
    i: int,
)
    requires
        from <= i < syntax::below_until(es, depth, from, hi),
    ensures
        es[i].depth > depth,
    decreases hi - from,
{
    if from < i {
        lemma_inside_subtree_is_deeper(es, depth, from + 1, hi, i);
    }
}

/// Every kind of declaration is listed under a kind of its own, and nothing else is listed: a
/// constructor as a constructor and no circuit, a circuit that is only declared as such, and so
/// on.
pub proof fn law_declarations_are_listed_by_their_kind(kind: u16, other: u16)
    ensures
        declares(kind) == Some(SymbolKind::Ledger) <==> kind == LEDGER_DECL,
        declares(kind) == Some(SymbolKind::Circuit) <==> kind == CIRCUIT_DEF,
        declares(kind) == Some(SymbolKind::CircuitDecl) <==> kind == CIRCUIT_DECL,
        declares(kind) == Some(SymbolKind::Witness) <==> kind == WITNESS_DECL,
        declares(kind) == Some(SymbolKind::Contract) <==> kind == CONTRACT_DECL,
        declares(kind) == Some(SymbolKind::Struct) <==> kind == STRUCT_DEF,
        declares(kind) == Some(SymbolKind::Enum) <==> kind == ENUM_DEF,
        declares(kind) == Some(SymbolKind::Module) <==> kind == MODULE_DEF,
        declares(kind) == Some(SymbolKind::TypeDecl) <==> kind == TYPE_DECL,
        declares(kind) == Some(SymbolKind::Constructor) <==> kind == CONSTRUCTOR_DEF,
        declares(kind) is Some && declares(kind) == declares(other) ==> kind == other,
        declares(kind) is Some ==> kind_text(declares(kind)->Some_0).len() > 0,
{
    reveal_strlit("Ledger");
    reveal_strlit("Circuit");
    reveal_strlit("CircuitDecl");
    reveal_strlit("Witness");
    reveal_strlit("Contract");
    reveal_strlit("Struct");
    reveal_strlit("Enum");
    reveal_strlit("Module");
    reveal_strlit("TypeDecl");
    reveal_strlit("Constructor");
}

/// Whether an export list directly in the scope `lo..hi` gives a name.
pub open spec fn export_listed(
    es: Seq<ElementView>,
    lo: int,
    hi: int,
    depth: int,
    name: Seq<char>,
) -> bool {
    exists|l: int, j: int|
        #![trigger es[l], es[j]]
        lo <= l < hi && es[l].text is None && es[l].depth == depth && es[l].kind == EXPORT_LIST && l
            < j < syntax::subtree_end(es, l, hi) && es[j].depth == depth + 1 && es[j].kind == IDENT
            && es[j].text == Some(name)
}

/// Whether the symbol `s` tells what the node at `i` in the scope `lo..hi` declares.
pub open spec fn tells(
    es: Seq<ElementView>,
    lo: int,
    hi: int,
    i: int,
    s: SymbolView,
) -> bool {
    let end = syntax::subtree_end(es, i, hi);
    let kind = es[i].kind;
    // The kind is that of the node.
    &&& kind == LEDGER_DECL ==> s.kind == SymbolKind::Ledger
    &&& kind == CIRCUIT_DEF ==> s.kind == SymbolKind::Circuit
    &&& kind == CIRCUIT_DECL ==> s.kind == SymbolKind::CircuitDecl
    &&& kind == WITNESS_DECL ==> s.kind == SymbolKind::Witness
    &&& kind == CONTRACT_DECL ==> s.kind == SymbolKind::Contract
    &&& kind == STRUCT_DEF ==> s.kind == SymbolKind::Struct
    &&& kind == ENUM_DEF ==> s.kind == SymbolKind::Enum
    &&& kind == MODULE_DEF ==> s.kind == SymbolKind::Module
    &&& kind == TYPE_DECL ==> s.kind == SymbolKind::TypeDecl
    &&& kind == CONSTRUCTOR_DEF ==> s.kind == SymbolKind::Constructor
    // The name is the first identifier in it; a constructor goes by that word.
    &&& kind == CONSTRUCTOR_DEF ==> s.name == "constructor"@
    &&& kind != CONSTRUCTOR_DEF ==> {
        &&& forall|j: int|
            #[trigger] syntax::token_in(es, i, end, IDENT, j) && (forall|k: int|
                k < j ==> !#[trigger] syntax::token_in(es, i, end, IDENT, k)) ==> Some(s.name)
                == es[j].text
        &&& (forall|j: int| !#[trigger] syntax::token_in(es, i, end, IDENT, j)) ==> s.name
            == Seq::<char>::empty()
    }
    // It is exported where it says so itself, or an export list of its scope names it.
    &&& s.exported <==> (kind != CONSTRUCTOR_DEF && exists|j: int|
        syntax::token_in(es, i, end, EXPORT_KW, j)) || export_listed(
        es,
        lo,
        hi,
        es[i].depth,
        s.name,
    )
    // A ledger field can be sealed and a circuit pure; nothing else is said of either.
    &&& s.detail == Some("sealed"@) <==> kind == LEDGER_DECL && exists|j: int|
        syntax::token_in(es, i, end, SEALED_KW, j)
    &&& s.detail == Some("pure"@) <==> kind == CIRCUIT_DEF && exists|j: int|
        syntax::token_in(es, i, end, PURE_KW, j)
    &&& s.detail is Some ==> s.detail == Some("sealed"@) || s.detail == Some("pure"@)
}

/// What is declared directly in a scope is listed as it is declared: with its kind, its name, its
/// modifier and whether it is exported, and under the module of the scope.
pub proof fn law_declarations_are_listed_as_they_are(
    es: Seq<ElementView>,
    lo: int,
    hi: int,
    depth: int,
    module: Option<Seq<char>>,
    i: int,
)
    requires
        0 <= lo <= i < hi <= es.len(),
        es[i].text is None,
        es[i].depth == depth,
        ({
            let kind = es[i].kind;
            kind == LEDGER_DECL || kind == CIRCUIT_DEF || kind == CIRCUIT_DECL || kind
                == WITNESS_DECL || kind == CONTRACT_DECL || kind == STRUCT_DEF || kind == ENUM_DEF
                || kind == MODULE_DEF || kind == TYPE_DECL || kind == CONSTRUCTOR_DEF
        }),
    ensures
        exists|s: SymbolView| #[trigger]
            symbols_in(es, lo, hi, depth, module, scope_exports(es, lo, hi, depth)).contains(s)
                && s.module == module && tells(es, lo, hi, i, s),
{
    let exports = scope_exports(es, lo, hi, depth);
    let end = syntax::subtree_end(es, i, hi);
    law_every_declaration_is_listed(es, lo, hi, depth, module, exports, i);
    let s = symbol_at(es, i, end, declares(es[i].kind)->Some_0, module, exports);
    lemma_tells(es, lo, hi, i, s, module);
    assert(symbols_in(es, lo, hi, depth, module, exports).contains(s));
}

proof fn lemma_tells(
    es: Seq<ElementView>,
    lo: int,
    hi: int,
    i: int,
    s: SymbolView,
    module: Option<Seq<char>>,
)
    requires
        0 <= lo <= i < hi <= es.len(),
        declares(es[i].kind) is Some,
        s == symbol_at(
            es,
            i,
            syntax::subtree_end(es, i, hi),
            declares(es[i].kind)->Some_0,
            module,
            scope_exports(es, lo, hi, es[i].depth),
        ),
    ensures
        tells(es, lo, hi, i, s),
{
    let end = syntax::subtree_end(es, i, hi);
    syntax::law_the_first_token_is_found(es, i, end, IDENT);
    syntax::law_the_first_token_is_found(es, i, end, EXPORT_KW);
    syntax::law_the_first_token_is_found(es, i, end, SEALED_KW);
    syntax::law_the_first_token_is_found(es, i, end, PURE_KW);
    lemma_export_listed(es, lo, hi, es[i].depth, s.name);
    reveal_strlit("sealed");
    reveal_strlit("pure");
    assert("sealed"@.len() != "pure"@.len());
    if es[i].kind != CONSTRUCTOR_DEF {
        assert forall|j: int|
            #[trigger] syntax::token_in(es, i, end, IDENT, j) && (forall|k: int|
                k < j ==> !#[trigger] syntax::token_in(es, i, end, IDENT, k)) implies Some(s.name)
            == es[j].text by {
            assert(syntax::child_token(es, i, end, IDENT) == es[j].text);
        }
    }
}

/// The names that a scope's export lists give are those that stand in them.
proof fn lemma_export_listed(
    es: Seq<ElementView>,
    lo: int,
    hi: int,
    depth: int,
    name: Seq<char>,
)
    ensures
        scope_exports(es, lo, hi, depth).contains(name) <==> export_listed(
            es,
            lo,
            hi,
            depth,
            name,
        ),
    decreases hi - lo,
{
    if lo < hi {
        lemma_export_listed(es, lo + 1, hi, depth, name);
        let all = scope_exports(es, lo, hi, depth);
        let rest = scope_exports(es, lo + 1, hi, depth);
        if syntax::is_node(es[lo]) && es[lo].depth == depth && es[lo].kind == EXPORT_LIST {
            let end = syntax::subtree_end(es, lo, hi);
            let own = syntax::all_tokens(es, lo + 1, end, depth + 1, IDENT);
            syntax::law_all_tokens_are_collected(es, lo + 1, end, depth + 1, IDENT, name);
            assert(all =~= own + rest);
            if own.contains(name) {
                let k = choose|k: int| 0 <= k < own.len() && own[k] == name;
                assert(all[k] == name);
                let j = choose|j: int|
                    lo + 1 <= j < end && (#[trigger] es[j]).depth == depth + 1 && es[j].kind
                        == IDENT && es[j].text == Some(name);
                assert(es[lo].depth == depth && es[j].kind == IDENT);
            }
            if rest.contains(name) {
                let k = choose|k: int| 0 <= k < rest.len() && rest[k] == name;
                assert(all[own.len() + k] == name);
            }
            if all.contains(name) && !own.contains(name) {
                let k = choose|k: int| 0 <= k < all.len() && all[k] == name;
                if k < own.len() {
                    assert(own[k] == name);
                }
                assert(rest[k - own.len()] == name);
            }
            if export_listed(es, lo, hi, depth, name) && !export_listed(
                es,
                lo + 1,
                hi,
                depth,
                name,
            ) {
                let (l, j) = choose|l: int, j: int|
                    #![trigger es[l], es[j]]
                    lo <= l < hi && es[l].text is None && es[l].depth == depth && es[l].kind
                        == EXPORT_LIST && l < j < syntax::subtree_end(es, l, hi) && es[j].depth
                        == depth + 1 && es[j].kind == IDENT && es[j].text == Some(name);
                assert(l == lo);
                assert(own.contains(name));
            }
        } else if export_listed(es, lo, hi, depth, name) {
            let (l, j) = choose|l: int, j: int|
                #![trigger es[l], es[j]]
                lo <= l < hi && es[l].text is None && es[l].depth == depth && es[l].kind
                    == EXPORT_LIST && l < j < syntax::subtree_end(es, l, hi) && es[j].depth == depth
                    + 1 && es[j].kind == IDENT && es[j].text == Some(name);
            assert(l != lo);
            assert(export_listed(es, lo + 1, hi, depth, name));
        }
    }
}

/// Nothing is listed that is not declared: every symbol stands for a node of its kind, and is
/// named as that is.
pub proof fn law_only_declarations_are_listed(
    es: Seq<ElementView>,
    lo: int,
    hi: int,
    depth: int,
    module: Option<Seq<char>>,
    exports: Seq<Seq<char>>,
    k: int,
)
    requires
        0 <= lo <= hi <= es.len(),
        0 <= k < symbols_in(es, lo, hi, depth, module, exports).len(),
    ensures
        exists|i: int|
            lo <= i < hi && (#[trigger] es[i]).text is None && es[i].depth >= depth && declares(
                es[i].kind,
            ) == Some(symbols_in(es, lo, hi, depth, module, exports)[k].kind) && (es[i].kind
                != CONSTRUCTOR_DEF ==> {
                let name = symbols_in(es, lo, hi, depth, module, exports)[k].name;
                name.len() == 0 || exists|j: int|
                    i < j < hi && (#[trigger] es[j]).depth == es[i].depth + 1 && es[j].kind == IDENT
                        && es[j].text == Some(name)
            }),
    decreases hi - lo,
{
    let all = symbols_in(es, lo, hi, depth, module, exports);
    if lo >= hi {
    } else if !syntax::is_node(es[lo]) || es[lo].depth != depth {
        law_only_declarations_are_listed(es, lo + 1, hi, depth, module, exports, k);
    } else {
        syntax::lemma_below_until(es, es[lo].depth, lo + 1, hi);
        let end = syntax::subtree_end(es, lo, hi);
        let rest = symbols_in(es, end, hi, depth, module, exports);
        let own = all.len() - rest.len();
        if k >= own {
            assert(all[k] == rest[k - own]);
            law_only_declarations_are_listed(es, end, hi, depth, module, exports, k - own);
        } else if k == 0 {
            syntax::law_the_first_token_is_found(es, lo, end, IDENT);
            lemma_name_stands_in(es, lo, end);
            assert(es[lo].text is None);
        } else {
            let inner_exports = scope_exports(es, lo + 1, end, depth + 1);
            let path = Some(qualified(module, name_at(es, lo, end)));
            let inner = symbols_in(es, lo + 1, end, depth + 1, path, inner_exports);
            assert(all[k] == inner[k - 1]);
            law_only_declarations_are_listed(
                es,
                lo + 1,
                end,
                depth + 1,
                path,
                inner_exports,
                k - 1,
            );
            let i = choose|i: int|
                lo + 1 <= i < end && (#[trigger] es[i]).text is None && es[i].depth >= depth + 1
                    && declares(es[i].kind) == Some(inner[k - 1].kind) && (es[i].kind
                    != CONSTRUCTOR_DEF ==> {
                    let name = inner[k - 1].name;
                    name.len() == 0 || exists|j: int|
                        i < j < end && (#[trigger] es[j]).depth == es[i].depth + 1 && es[j].kind
                            == IDENT && es[j].text == Some(name)
                });
            assert(es[i].text is None);
        }
    }
}

proof fn lemma_name_stands_in(es: Seq<ElementView>, i: int, end: int)
    ensures
        es[i].kind != CONSTRUCTOR_DEF ==> name_at(es, i, end).len() == 0 || exists|j: int|
            i < j < end && (#[trigger] es[j]).depth == es[i].depth + 1 && es[j].kind == IDENT
                && es[j].text == Some(name_at(es, i, end)),
{
    syntax::lemma_first_token_stands(es, i + 1, end, es[i].depth + 1, IDENT);
}

/// A declaration comes before what follows it, and a module directly before its members, which
/// carry its path: its name behind the path of the module around it and a dot.
pub proof fn law_symbols_come_in_source_order(
    es: Seq<ElementView>,
    lo: int,
    hi: int,
    depth: int,
    module: Option<Seq<char>>,
    exports: Seq<Seq<char>>,
)
    requires
        0 <= lo < hi <= es.len(),
        es[lo].text is None,
        es[lo].depth == depth,
        declares(es[lo].kind) is Some,
    ensures
        ({
            let all = symbols_in(es, lo, hi, depth, module, exports);
            let end = syntax::subtree_end(es, lo, hi);
            let rest = symbols_in(es, end, hi, depth, module, exports);
            let name = all[0].name;
            let path = match module {
                Some(parent) => parent + "."@ + name,
                None => name,
            };
            let members = symbols_in(
                es,
                lo + 1,
                end,
                depth + 1,
                Some(path),
                scope_exports(es, lo + 1, end, depth + 1),
            );
            &&& all.len() > 0
            &&& Some(all[0].kind) == declares(es[lo].kind)
            &&& es[lo].kind == MODULE_DEF ==> all.skip(1) == members + rest
            &&& es[lo].kind != MODULE_DEF ==> all.skip(1) == rest
        }),
{
    syntax::lemma_below_until(es, es[lo].depth, lo + 1, hi);
    let all = symbols_in(es, lo, hi, depth, module, exports);
    let end = syntax::subtree_end(es, lo, hi);
    let rest = symbols_in(es, end, hi, depth, module, exports);
    if es[lo].kind == MODULE_DEF {
        let members = symbols_in(
            es,
            lo + 1,
            end,
            depth + 1,
            Some(qualified(module, name_at(es, lo, end))),
            scope_exports(es, lo + 1, end, depth + 1),
        );
        assert(all.skip(1) =~= members + rest);
    } else {
        assert(all.skip(1) =~= rest);
    }
}

/// Kinds of symbols have names of their own, and a symbol is shown as an object with its kind,
/// its name, whether it is exported and its modifier, and with its module where it has one.
pub proof fn law_symbols_are_shown_as_they_are(s: SymbolView, other: SymbolKind)
    ensures
        kind_text(s.kind) == kind_text(other) ==> s.kind == other,
        json::names(item_view(s), "kind"@, JsonView::Str(kind_text(s.kind))),
        json::names(item_view(s), "name"@, JsonView::Str(s.name)),
        json::names(item_view(s), "exported"@, JsonView::Bool(s.exported)),
        json::names(
            item_view(s),
            "detail"@,
            match s.detail {
                Some(d) => JsonView::Str(d),
                None => JsonView::Null,
            },
        ),
        match s.module {
            Some(m) => json::names(item_view(s), "module"@, JsonView::Str(m)),
            None => json::lacks(item_view(s), "module"@),
        },
{
    reveal_strlit("kind");
    reveal_strlit("name");
    reveal_strlit("exported");
    reveal_strlit("detail");
    reveal_strlit("module");
    assert("kind"@[0] == 'k' && "name"@[0] == 'n' && "exported"@[0] == 'e');
    assert("detail"@[0] == 'd' && "module"@[0] == 'm');
    let ms = item_view(s)->Object_0;
    assert(ms[0].0 == "kind"@ && ms[1].0 == "name"@ && ms[2].0 == "exported"@ && ms[3].0
        == "detail"@);
    assert(ms.len() > 4 ==> ms[4].0 == "module"@ && ms.len() == 5);
    lemma_kind_texts_differ(s.kind, other);
}

proof fn lemma_kind_texts_differ(a: SymbolKind, b: SymbolKind)
    ensures
        kind_text(a) == kind_text(b) ==> a == b,
{
    reveal_strlit("Ledger");
    reveal_strlit("Circuit");
    reveal_strlit("CircuitDecl");
    reveal_strlit("Witness");
    reveal_strlit("Contract");
    reveal_strlit("Struct");
    reveal_strlit("Enum");
    reveal_strlit("Module");
    reveal_strlit("TypeDecl");
    reveal_strlit("Constructor");
    assert("Ledger"@[0] == 'L' && "Module"@[0] == 'M' && "Struct"@[0] == 'S');
    assert("Circuit"@[0] == 'C' && "Witness"@[0] == 'W');
    assert("Contract"@[0] == 'C' && "TypeDecl"@[0] == 'T');
    assert("CircuitDecl"@[1] == 'i' && "Constructor"@[1] == 'o');
    let x = kind_text(a);
    let y = kind_text(b);
    if x == y {
        assert(x.len() == y.len() && x[0] == y[0] && x[1] == y[1]);
    }
}

/// A kind is shown by its name.
pub proof fn law_kinds_are_shown_by_name(kind: SymbolKind)
    ensures
        kind_text(kind) == match kind {
            SymbolKind::Ledger => "Ledger"@,
            SymbolKind::Circuit => "Circuit"@,
            SymbolKind::CircuitDecl => "CircuitDecl"@,
            SymbolKind::Witness => "Witness"@,
            SymbolKind::Contract => "Contract"@,
            SymbolKind::Struct => "Struct"@,
            SymbolKind::Enum => "Enum"@,
            SymbolKind::Module => "Module"@,
            SymbolKind::TypeDecl => "TypeDecl"@,
            SymbolKind::Constructor => "Constructor"@,
        },
{
}

/// The list of a source's symbols shows each of them, in their order.
pub proof fn law_every_symbol_is_shown(ss: Seq<SymbolView>)
    ensures
        json::names(ast_view(ss), "kind"@, JsonView::Str("SourceFile"@)),
        json::names(
            ast_view(ss),
            "items"@,
            JsonView::Array(Seq::new(ss.len(), |i: int| item_view(ss[i]))),
        ),
{
    reveal_strlit("kind");
    reveal_strlit("items");
    assert("kind"@.len() != "items"@.len());
    let ms = ast_view(ss)->Object_0;
    assert(ms[0].0 == "kind"@ && ms[1].0 == "items"@);
}

/// Symbols are seen in their order, each as it is.
pub proof fn law_symbols_are_seen_as_they_are(ss: Seq<Symbol>)
    ensures
        symbol_views(ss).len() == ss.len(),
        forall|i: int|
            0 <= i < ss.len() ==> {
                let v = #[trigger] symbol_views(ss)[i];
                &&& v.kind == ss[i].kind
                &&& v.name == ss[i].name@
                &&& v.exported == ss[i].exported
                &&& v.detail == text::opt_view(ss[i].detail)
                &&& v.module == text::opt_view(ss[i].module)
            },
{
}

} // verus!
