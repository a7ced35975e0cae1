//! Linking of multi-file programs: what each module imports and exports, which
//! exported declarations the program actually imports, and the merged program.
//!
//! Reading files and resolving module paths on disk happen outside this module;
//! here a loaded module is its parsed items plus the indices of the modules its
//! imports resolved to.

use vstd::prelude::*;
use crate::ast::AstNode;
use crate::error::{line_col_text, Span};
use crate::lexer::{lemma_failure_has_no_lexing, lex_failure, Lexer, Token};
use crate::parser::{item_shapes, lexes_to, program_at, program_len, program_shape, source_lexes, top_level_item_ok, Parser};
use crate::text::{chars_to_string, lit, occurs_at, push_str, split_once, str_chars, str_is};

verus! {

/// A failure to load or link a module, with the module's path when known.
#[derive(Debug, Clone)]
pub struct ModuleLoadError {
    pub path: Option<String>,
    pub message: String,
}

impl ModuleLoadError {
    pub fn with_path(path: &String, message: String) -> (e: Self)
        ensures
            e.path matches Some(p) && p@ == path@,
            e.message@ == message@,
    {
        ModuleLoadError { path: Some(path.clone()), message }
    }

    pub fn plain(message: String) -> (e: Self)
        ensures
            e.path is None,
            e.message@ == message@,
    {
        ModuleLoadError { path: None, message }
    }
}

/// One `import { a, b as c } from "path";`: (exported name, local name) pairs.
pub struct ImportDecl {
    pub bindings: Vec<(String, String)>,
    pub source_path: String,
}

/// What a parsed module declares: its items, imports, exported names, and for each
/// exported name the declaration it stands for (`export sleep_async as sleep;`).
pub struct ModuleData {
    pub items: Vec<AstNode>,
    pub imports: Vec<ImportDecl>,
    pub exports: Vec<String>,
    pub export_sources: Vec<(String, String)>,
}

/// A loaded module: its path, its data, and the index of the module each of its
/// imports resolved to.
pub struct LinkedModule {
    pub path: String,
    pub data: ModuleData,
    pub deps: Vec<usize>,
}

/// The exported name and source declaration an item contributes, if any.
pub open spec fn item_export(item: AstNode) -> Option<(Seq<char>, Seq<char>)> {
    match item {
        AstNode::ExportAlias { from, to, .. } => Some((to@, from@)),
        AstNode::InternalFunction { name, is_exported, .. } => if is_exported { Some((name@, name@)) } else { None },
        AstNode::Function { name, is_exported, .. } => if is_exported { Some((name@, name@)) } else { None },
        AstNode::StructDef { name, is_exported, .. } => if is_exported { Some((name@, name@)) } else { None },
        AstNode::EnumDef { name, is_exported, .. } => if is_exported { Some((name@, name@)) } else { None },
        _ => None,
    }
}

/// `item` exports the name `t`.
pub open spec fn exports_name(item: AstNode, t: Seq<char>) -> bool {
    item_export(item) matches Some((n, _)) && n == t
}

/// `s` is one of the strings in `v`.
pub open spec fn has_string(v: Seq<String>, s: Seq<char>) -> bool {
    exists|i: int| 0 <= i < v.len() && (#[trigger] v[i])@ == s
}

/// No string occurs twice in `v`.
pub open spec fn distinct_strings(v: Seq<String>) -> bool {
    forall|i: int, j: int| 0 <= i < j < v.len() ==> (#[trigger] v[i])@ != (#[trigger] v[j])@
}

/// `v` as a map: no key occurs twice.
pub open spec fn distinct_keys(v: Seq<(String, String)>) -> bool {
    forall|i: int, j: int| 0 <= i < j < v.len() ==> (#[trigger] v[i]).0@ != (#[trigger] v[j]).0@
}

/// Whether `s` is among `v`.
fn contains_string(v: &Vec<String>, s: &String) -> (r: bool)
    ensures
        r == has_string(v@, s@),
{
    let mut i: usize = 0;
    while i < v.len()
        invariant
            i <= v@.len(),
            forall|j: int| 0 <= j < i ==> (#[trigger] v@[j])@ != s@,
        decreases v@.len() - i,
    {
        if str_is(&v[i], s.as_str()) {
            return true;
        }
        i += 1;
    }
    false
}

/// Adds `s` to the set `v` unless it is there.
fn insert_string(v: &mut Vec<String>, s: String)
    requires
        distinct_strings(old(v)@),
    ensures
        distinct_strings(final(v)@),
        forall|t: Seq<char>| has_string(final(v)@, t) <==> (has_string(old(v)@, t) || t == s@),
{
    if !contains_string(v, &s) {
        let ghost before = v@;
        v.push(s);
        proof {
            assert forall|t: Seq<char>| has_string(v@, t) implies (has_string(before, t) || t == s@) by {
                let i = choose|i: int| 0 <= i < v@.len() && (#[trigger] v@[i])@ == t;
                if i < before.len() {
                    assert(before[i] == v@[i]);
                }
            }
            assert forall|t: Seq<char>| has_string(before, t) implies has_string(v@, t) by {
                let i = choose|i: int| 0 <= i < before.len() && (#[trigger] before[i])@ == t;
                assert(v@[i] == before[i]);
            }
            assert(v@[before.len() as int] == s);
        }
    }
}

/// Sets `key` to `value` in the map `v`, replacing an earlier value.
fn map_insert(v: &mut Vec<(String, String)>, key: String, value: String)
    requires
        distinct_keys(old(v)@),
    ensures
        distinct_keys(final(v)@),
        map_get(final(v)@, key@) == Some(value@),
        forall|k: Seq<char>| k != key@ ==> map_get(final(v)@, k) == map_get(old(v)@, k),
{
    let mut i: usize = 0;
    while i < v.len()
        invariant
            i <= v@.len(),
            v@ == old(v)@,
            distinct_keys(v@),
            forall|j: int| 0 <= j < i ==> (#[trigger] v@[j]).0@ != key@,
        decreases v@.len() - i,
    {
        if str_is(&v[i].0, key.as_str()) {
            let ghost before = v@;
            v.set(i, (key, value));
            proof {
                assert forall|a: int, b: int| 0 <= a < b < v@.len() implies (#[trigger] v@[a]).0@ != (#[trigger] v@[b]).0@ by {
                    assert(before[a].0@ != before[b].0@);
                }
                lemma_map_get_unique(before, key@, i as int);
                assert forall|k: Seq<char>| k != key@ implies map_get(v@, k) == map_get(before, k) by {
                    lemma_map_get_frame(before, v@, k, i as int);
                }
                lemma_map_get_unique(v@, key@, i as int);
            }
            return;
        }
        i += 1;
    }
    let ghost before = v@;
    v.push((key, value));
    proof {
        lemma_map_get_unique(v@, key@, before.len() as int);
        assert forall|k: Seq<char>| k != key@ implies map_get(v@, k) == map_get(before, k) by {
            lemma_map_get_push(before, k, (key, value));
        }
    }
}

/// The value stored under `key` in the map `v`.
pub open spec fn map_get(v: Seq<(String, String)>, key: Seq<char>) -> Option<Seq<char>>
    decreases v.len(),
{
    if v.len() == 0 {
        None
    } else if v.last().0@ == key {
        Some(v.last().1@)
    } else {
        map_get(v.drop_last(), key)
    }
}

proof fn lemma_map_get_unique(v: Seq<(String, String)>, key: Seq<char>, i: int)
    requires
        0 <= i < v.len(),
        v[i].0@ == key,
        distinct_keys(v),
    ensures
        map_get(v, key) == Some(v[i].1@),
    decreases v.len(),
{
    if i < v.len() - 1 {
        assert(v.last() == v[v.len() - 1]);
        assert(v[i].0@ != v[v.len() - 1].0@);
        lemma_map_get_unique(v.drop_last(), key, i);
    }
}

proof fn lemma_map_get_frame(a: Seq<(String, String)>, b: Seq<(String, String)>, k: Seq<char>, i: int)
    requires
        a.len() == b.len(),
        0 <= i < a.len(),
        a[i].0@ == b[i].0@,
        a[i].0@ != k,
        forall|j: int| 0 <= j < a.len() && j != i ==> a[j] == b[j],
    ensures
        map_get(a, k) == map_get(b, k),
    decreases a.len(),
{
    if a.len() > 0 && i < a.len() - 1 {
        lemma_map_get_frame(a.drop_last(), b.drop_last(), k, i);
    } else if a.len() > 0 {
        assert(a.drop_last() == b.drop_last());
    }
}

proof fn lemma_map_get_push(a: Seq<(String, String)>, k: Seq<char>, e: (String, String))
    requires
        e.0@ != k,
    ensures
        map_get(a.push(e), k) == map_get(a, k),
{
    assert(a.push(e).drop_last() == a);
}

/// The import declaration `d` records the import item `item`: its source path and its
/// `(exported name, local name)` pairs in order.
pub open spec fn import_decl_of(item: AstNode, d: ImportDecl) -> bool {
    item matches AstNode::Import { bindings, source_path, .. } && {
        &&& d.source_path == source_path
        &&& d.bindings@.len() == bindings@.len()
        &&& forall|k: int| 0 <= k < bindings@.len() ==> (#[trigger] d.bindings@[k]).0 == bindings@[k].export_name
            && d.bindings@[k].1 == bindings@[k].local_name
    }
}

/// The declaration that the last item exporting `t` among `items` exports it from.
pub open spec fn export_source(items: Seq<AstNode>, t: Seq<char>) -> Option<Seq<char>>
    decreases items.len(),
{
    if items.len() == 0 {
        None
    } else {
        match item_export(items.last()) {
            Some((n, src)) => if n == t { Some(src) } else { export_source(items.drop_last(), t) },
            None => export_source(items.drop_last(), t),
        }
    }
}

/// `m`'s imports, exports and export sources are those of its items: the import items
/// in order, every name an item exports (once each), and for each exported name the
/// declaration the last item exporting it names.
pub open spec fn module_data_of(m: ModuleData) -> bool {
    &&& m.imports@.len() == m.items@.filter(|it: AstNode| it is Import).len()
    &&& forall|j: int| 0 <= j < m.imports@.len()
        ==> import_decl_of(m.items@.filter(|it: AstNode| it is Import)[j], #[trigger] m.imports@[j])
    &&& distinct_strings(m.exports@)
    &&& forall|t: Seq<char>| has_string(m.exports@, t)
        <==> exists|i: int| 0 <= i < m.items@.len() && exports_name(#[trigger] m.items@[i], t)
    &&& distinct_keys(m.export_sources@)
    &&& forall|t: Seq<char>| #[trigger] map_get(m.export_sources@, t) == export_source(m.items@, t)
}

/// Imports, exports and export sources of a module's items.
pub fn module_data_from_items(items: Vec<AstNode>) -> (m: ModuleData)
    ensures
        m.items@ == items@,
        module_data_of(m),
        m.imports@.len() == items@.filter(|it: AstNode| it is Import).len(),
        forall|j: int| 0 <= j < m.imports@.len()
            ==> import_decl_of(items@.filter(|it: AstNode| it is Import)[j], #[trigger] m.imports@[j]),
        distinct_strings(m.exports@),
        forall|t: Seq<char>| has_string(m.exports@, t)
            <==> exists|i: int| 0 <= i < items@.len() && exports_name(#[trigger] items@[i], t),
        distinct_keys(m.export_sources@),
        forall|t: Seq<char>| #[trigger] map_get(m.export_sources@, t) == export_source(items@, t),
{
    let mut imports: Vec<ImportDecl> = Vec::new();
    let mut exports: Vec<String> = Vec::new();
    let mut export_sources: Vec<(String, String)> = Vec::new();
    let mut i: usize = 0;
    while i < items.len()
        invariant
            i <= items@.len(),
            imports@.len() == items@.take(i as int).filter(|it: AstNode| it is Import).len(),
            forall|j: int| 0 <= j < imports@.len()
                ==> import_decl_of(items@.take(i as int).filter(|it: AstNode| it is Import)[j], #[trigger] imports@[j]),
            distinct_strings(exports@),
            forall|t: Seq<char>| has_string(exports@, t)
                <==> exists|j: int| 0 <= j < i && exports_name(#[trigger] items@[j], t),
            distinct_keys(export_sources@),
            forall|t: Seq<char>| #[trigger] map_get(export_sources@, t) == export_source(items@.take(i as int), t),
        decreases items@.len() - i,
    {
        proof {
            assert(items@.take(i + 1) == items@.take(i as int).push(items@[i as int]));
            items@.take(i as int).lemma_filter_push(items@[i as int], |it: AstNode| it is Import);
        }
        let ghost before = exports@;
        let ghost srcs0 = export_sources@;
        let ghost imps0 = imports@;
        proof {
            assert(items@.take(i + 1).drop_last() =~= items@.take(i as int));
            assert(items@.take(i + 1).last() == items@[i as int]);
        }
        match &items[i] {
            AstNode::Import { bindings, source_path, .. } => {
                let mut pairs: Vec<(String, String)> = Vec::new();
                let mut k: usize = 0;
                while k < bindings.len()
                    invariant
                        k <= bindings@.len(),
                        pairs@.len() == k,
                        forall|kk: int| 0 <= kk < k ==> (#[trigger] pairs@[kk]).0 == bindings@[kk].export_name
                            && pairs@[kk].1 == bindings@[kk].local_name,
                    decreases bindings@.len() - k,
                {
                    pairs.push((bindings[k].export_name.clone(), bindings[k].local_name.clone()));
                    k += 1;
                }
                let d = ImportDecl { bindings: pairs, source_path: source_path.clone() };
                assert(import_decl_of(items@[i as int], d));
                imports.push(d);
                proof {
                    let f0 = items@.take(i as int).filter(|it: AstNode| it is Import);
                    assert(items@.take(i + 1).filter(|it: AstNode| it is Import) == f0.push(items@[i as int]));
                    assert forall|j: int| 0 <= j < imports@.len()
                        implies import_decl_of(items@.take(i + 1).filter(|it: AstNode| it is Import)[j], #[trigger] imports@[j]) by {
                        if j < imps0.len() {
                            assert(imports@[j] == imps0[j]);
                        }
                    }
                }
            },
            AstNode::ExportAlias { from, to, .. } => {
                insert_string(&mut exports, to.clone());
                map_insert(&mut export_sources, to.clone(), from.clone());
            },
            AstNode::InternalFunction { name, is_exported, .. } => {
                if *is_exported {
                    insert_string(&mut exports, name.clone());
                    map_insert(&mut export_sources, name.clone(), name.clone());
                }
            },
            AstNode::Function { name, is_exported, .. } => {
                if *is_exported {
                    insert_string(&mut exports, name.clone());
                    map_insert(&mut export_sources, name.clone(), name.clone());
                }
            },
            AstNode::StructDef { name, is_exported, .. } => {
                if *is_exported {
                    insert_string(&mut exports, name.clone());
                    map_insert(&mut export_sources, name.clone(), name.clone());
                }
            },
            AstNode::EnumDef { name, is_exported, .. } => {
                if *is_exported {
                    insert_string(&mut exports, name.clone());
                    map_insert(&mut export_sources, name.clone(), name.clone());
                }
            },
            _ => {},
        }
        proof {
            assert forall|t: Seq<char>| has_string(exports@, t)
                <==> exists|j: int| 0 <= j < i + 1 && exports_name(#[trigger] items@[j], t) by {
                if has_string(exports@, t) && !has_string(before, t) {
                    assert(exports_name(items@[i as int], t));
                }
            }
            if !(items@[i as int] is Import) {
                let f0 = items@.take(i as int).filter(|it: AstNode| it is Import);
                assert(items@.take(i + 1).filter(|it: AstNode| it is Import) == f0);
                assert(imports@ == imps0);
            }
            assert forall|t: Seq<char>| #[trigger] map_get(export_sources@, t) == export_source(items@.take(i + 1), t) by {
                if item_export(items@[i as int]) is None {
                    assert(export_sources@ == srcs0);
                }
            }
        }
        i += 1;
    }
    assert(items@.take(items@.len() as int) == items@);
    ModuleData { items, imports, exports, export_sources }
}


/// Lexes and parses the source of the module at `path` and collects what it declares.
///
/// It fails with the lexer's message exactly when the source has no lexing; when it
/// succeeds, the module's items are top-level items and its data is theirs.
pub fn parse_module_source(path: &String, source: &str) -> (r: Result<ModuleData, ModuleLoadError>)
    ensures
        r matches Err(e) ==> e.path matches Some(p) && p@ == path@,
        r matches Ok(m) ==> source_lexes(source@) && module_data_of(m)
            && forall|i: int| 0 <= i < m.items@.len() ==> top_level_item_ok(#[trigger] m.items@[i]),
        !source_lexes(source@) ==> (r matches Err(e) && exists|msg: Seq<char>, sp: Span|
            #[trigger] lex_failure(source@, None, 0, msg, sp)
            && e.message@ == line_col_text(sp) + ": lexer error: "@ + msg),
        source_lexes(source@) ==> exists|toks: Seq<Token>| #[trigger] lexes_to(source@, toks) && {
            &&& program_at(toks, 0) is Parsed ==> (r matches Ok(m) && m.items@.len() == program_len(toks, 0)
                && item_shapes(m.items@) == program_shape(toks, 0))
            &&& program_at(toks, 0) is Failed ==> r is Err
        },
{
    let mut lexer = Lexer::new(source);
    let tokens = match lexer.tokenize() {
        Ok(t) => t,
        Err(e) => {
            proof {
                lemma_failure_has_no_lexing(source@, None, 0, e.message@, e.span);
            }
            return Err(ModuleLoadError::with_path(path, e.display()));
        },
    };
    proof {
        assert(source_lexes(source@));
        assert(lexes_to(source@, tokens@));
    }
    let ghost toks = tokens@;
    let mut parser = Parser::new(tokens);
    let parsed = match parser.parse() {
        Ok(ast) => ast,
        Err(e) => {
            return Err(ModuleLoadError::with_path(path, e.display()));
        },
    };
    match parsed {
        AstNode::Program(items) => Ok(module_data_from_items(items)),
        _ => Err(ModuleLoadError::with_path(path, lit("parser did not return a program"))),
    }
}

/// The name of a declaration and whether it is exported.
pub open spec fn named_export(item: AstNode) -> Option<(Seq<char>, bool)> {
    match item {
        AstNode::InternalFunction { name, is_exported, .. } => Some((name@, is_exported)),
        AstNode::Function { name, is_exported, .. } => Some((name@, is_exported)),
        AstNode::StructDef { name, is_exported, .. } => Some((name@, is_exported)),
        AstNode::EnumDef { name, is_exported, .. } => Some((name@, is_exported)),
        _ => None,
    }
}

fn item_named_export(item: &AstNode) -> (r: Option<(String, bool)>)
    ensures
        match named_export(*item) {
            Some((n, e)) => r matches Some((s, f)) && s@ == n && f == e,
            None => r is None,
        },
{
    match item {
        AstNode::InternalFunction { name, is_exported, .. } => Some((name.clone(), *is_exported)),
        AstNode::Function { name, is_exported, .. } => Some((name.clone(), *is_exported)),
        AstNode::StructDef { name, is_exported, .. } => Some((name.clone(), *is_exported)),
        AstNode::EnumDef { name, is_exported, .. } => Some((name.clone(), *is_exported)),
        _ => None,
    }
}

fn declaration_base_name(item: &AstNode) -> (r: Option<String>)
    ensures
        match named_export(*item) {
            Some((n, _)) => r matches Some(s) && s@ == n,
            None => r is None,
        },
{
    match item_named_export(item) {
        Some((n, _)) => Some(n),
        None => None,
    }
}

/// The item is an extension function `func Type::method(...)`.
fn extension_method(item: &AstNode) -> (r: bool)
    ensures
        r == (item matches AstNode::Function { extension_receiver: Some(_), .. }),
{
    match item {
        AstNode::Function { extension_receiver: Some(_), .. } => true,
        _ => false,
    }
}

/// The declaration `item` without its export flag; other items unchanged.
pub open spec fn without_export(item: AstNode) -> AstNode {
    match item {
        AstNode::InternalFunction { name, type_params, params, return_type, name_span, is_async, .. } =>
            AstNode::InternalFunction { name, type_params, params, return_type, name_span, is_exported: false, is_async },
        AstNode::Function { name, extension_receiver, type_params, params, return_type, body, name_span, closing_span, is_async, .. } =>
            AstNode::Function { name, extension_receiver, type_params, params, return_type, body, name_span, closing_span, is_exported: false, is_async },
        AstNode::StructDef { name, type_params, fields, is_unit, is_internal, name_span, span, .. } =>
            AstNode::StructDef { name, type_params, fields, is_unit, is_internal, name_span, span, is_exported: false },
        AstNode::EnumDef { name, type_params, variants, is_internal, name_span, span, .. } =>
            AstNode::EnumDef { name, type_params, variants, is_internal, name_span, span, is_exported: false },
        other => other,
    }
}

/// The declaration `item` renamed to `new_name` and no longer exported; other items unchanged.
pub open spec fn renamed(item: AstNode, new_name: String) -> AstNode {
    match item {
        AstNode::InternalFunction { type_params, params, return_type, name_span, is_async, .. } =>
            AstNode::InternalFunction { name: new_name, type_params, params, return_type, name_span, is_exported: false, is_async },
        AstNode::Function { extension_receiver, type_params, params, return_type, body, name_span, closing_span, is_async, .. } =>
            AstNode::Function { name: new_name, extension_receiver, type_params, params, return_type, body, name_span, closing_span, is_exported: false, is_async },
        AstNode::StructDef { type_params, fields, is_unit, is_internal, name_span, span, .. } =>
            AstNode::StructDef { name: new_name, type_params, fields, is_unit, is_internal, name_span, span, is_exported: false },
        AstNode::EnumDef { type_params, variants, is_internal, name_span, span, .. } =>
            AstNode::EnumDef { name: new_name, type_params, variants, is_internal, name_span, span, is_exported: false },
        other => other,
    }
}

fn strip_export(item: AstNode) -> (r: AstNode)
    ensures
        r == without_export(item),
{
    match item {
        AstNode::InternalFunction { name, type_params, params, return_type, name_span, is_async, .. } =>
            AstNode::InternalFunction { name, type_params, params, return_type, name_span, is_exported: false, is_async },
        AstNode::Function { name, extension_receiver, type_params, params, return_type, body, name_span, closing_span, is_async, .. } =>
            AstNode::Function { name, extension_receiver, type_params, params, return_type, body, name_span, closing_span, is_exported: false, is_async },
        AstNode::StructDef { name, type_params, fields, is_unit, is_internal, name_span, span, .. } =>
            AstNode::StructDef { name, type_params, fields, is_unit, is_internal, name_span, span, is_exported: false },
        AstNode::EnumDef { name, type_params, variants, is_internal, name_span, span, .. } =>
            AstNode::EnumDef { name, type_params, variants, is_internal, name_span, span, is_exported: false },
        other => other,
    }
}

fn rename_declaration(item: AstNode, new_name: &String) -> (r: AstNode)
    ensures
        r == renamed(item, *new_name),
{
    match item {
        AstNode::InternalFunction { type_params, params, return_type, name_span, is_async, .. } =>
            AstNode::InternalFunction { name: new_name.clone(), type_params, params, return_type, name_span, is_exported: false, is_async },
        AstNode::Function { extension_receiver, type_params, params, return_type, body, name_span, closing_span, is_async, .. } =>
            AstNode::Function { name: new_name.clone(), extension_receiver, type_params, params, return_type, body, name_span, closing_span, is_exported: false, is_async },
        AstNode::StructDef { type_params, fields, is_unit, is_internal, name_span, span, .. } =>
            AstNode::StructDef { name: new_name.clone(), type_params, fields, is_unit, is_internal, name_span, span, is_exported: false },
        AstNode::EnumDef { type_params, variants, is_internal, name_span, span, .. } =>
            AstNode::EnumDef { name: new_name.clone(), type_params, variants, is_internal, name_span, span, is_exported: false },
        other => other,
    }
}

/// The receiver `recv` of an exported extension symbol `recv::method` belongs to the
/// imported type `base`: it is `base` or `base<...>`.
pub open spec fn receiver_matches(recv: Seq<char>, base: Seq<char>) -> bool {
    recv == base || (base.push('<').is_prefix_of(recv) && recv.len() > 0 && recv.last() == '>')
}

/// `ex` is an exported extension symbol `recv::method` whose receiver belongs to `base`.
pub open spec fn extension_of(ex: Seq<char>, base: Seq<char>) -> bool {
    exists|i: int| occurs_at(ex, "::"@, i) && (forall|j: int| 0 <= j < i ==> !occurs_at(ex, "::"@, j))
        && receiver_matches(ex.subrange(0, i), base)
}

/// The exported symbol `recv::method`, whose receiver `recv` holds no `:`, is an extension
/// of the imported type `base` when `recv` is `base` itself or `base` applied to type
/// arguments, `base<args>`: so an export `Task<T>::wait_all` belongs to `Task`.
pub proof fn lemma_extension_of_receiver(base: Seq<char>, args: Seq<char>, method: Seq<char>, generic: bool)
    requires
        forall|k: int| 0 <= k < base.len() ==> base[k] != ':',
        forall|k: int| 0 <= k < args.len() ==> args[k] != ':',
    ensures
        ({
            let recv = if generic { base + "<"@ + args + ">"@ } else { base };
            extension_of(recv + "::"@ + method, base)
        }),
{
    reveal_strlit("::");
    reveal_strlit("<");
    reveal_strlit(">");
    let recv = if generic { base + "<"@ + args + ">"@ } else { base };
    let ex = recv + "::"@ + method;
    let i = recv.len() as int;
    assert forall|k: int| 0 <= k < recv.len() implies recv[k] != ':' by {
        if generic && k >= base.len() {
            if k > base.len() && k < base.len() + 1 + args.len() {
                assert(recv[k] == args[k - base.len() - 1]);
            }
        }
    }
    assert(ex.subrange(i, i + 2) =~= "::"@);
    assert(occurs_at(ex, "::"@, i));
    assert forall|j: int| 0 <= j < i implies !occurs_at(ex, "::"@, j) by {
        assert(ex[j] == recv[j]);
        if occurs_at(ex, "::"@, j) {
            assert(ex.subrange(j, j + 2)[0] == ex[j]);
        }
    }
    assert(ex.subrange(0, i) =~= recv);
    if generic {
        assert(base.push('<') =~= recv.subrange(0, base.len() + 1int));
        assert(receiver_matches(recv, base));
    }
}

/// An exported symbol `recv::method` whose receiver is a plain name (no `:` and no `<`)
/// other than `base` is no extension of `base`: `Tasks::m` does not belong to `Task`.
pub proof fn lemma_other_receiver_not_extension(base: Seq<char>, recv: Seq<char>, method: Seq<char>)
    requires
        forall|k: int| 0 <= k < recv.len() ==> recv[k] != ':' && recv[k] != '<',
        recv != base,
    ensures
        !extension_of(recv + "::"@ + method, base),
{
    reveal_strlit("::");
    let ex = recv + "::"@ + method;
    let n = recv.len() as int;
    if extension_of(ex, base) {
        let i = choose|i: int| occurs_at(ex, "::"@, i) && (forall|j: int| 0 <= j < i ==> !occurs_at(ex, "::"@, j))
            && receiver_matches(ex.subrange(0, i), base);
        assert(ex.subrange(n, n + 2) =~= "::"@);
        assert(occurs_at(ex, "::"@, n));
        if i < n {
            assert(ex.subrange(i, i + 2)[0] == ex[i]);
            assert(ex[i] == recv[i]);
        }
        assert(i == n);
        assert(ex.subrange(0, i) =~= recv);
        if base.push('<').is_prefix_of(recv) {
            assert(recv[base.len() as int] == base.push('<')[base.len() as int]);
        }
    }
}

/// An import of the name `base` requires, of the module it imports from, each extension
/// method that module exports on `base` or on `base<args>`.
pub proof fn lemma_import_requires_extension(modules: Seq<LinkedModule>, j: int, k: int, b: int,
    args: Seq<char>, method: Seq<char>, generic: bool)
    requires
        0 <= j < modules.len(),
        0 <= k < modules[j].data.imports@.len(),
        0 <= b < modules[j].data.imports@[k].bindings@.len(),
        ({
            let base = modules[j].data.imports@[k].bindings@[b].0@;
            let recv = if generic { base + "<"@ + args + ">"@ } else { base };
            &&& forall|c: int| 0 <= c < base.len() ==> base[c] != ':'
            &&& forall|c: int| 0 <= c < args.len() ==> args[c] != ':'
            &&& has_string(modules[modules[j].deps@[k] as int].data.exports@, recv + "::"@ + method)
        }),
    ensures
        ({
            let base = modules[j].data.imports@[k].bindings@[b].0@;
            let recv = if generic { base + "<"@ + args + ">"@ } else { base };
            import_requires(modules, j, k, modules[j].deps@[k] as int, recv + "::"@ + method)
        }),
{
    let base = modules[j].data.imports@[k].bindings@[b].0@;
    lemma_extension_of_receiver(base, args, method, generic);
}

fn extension_export_matches_import(ex: &String, imported_base: &String) -> (r: bool)
    ensures
        r == extension_of(ex@, imported_base@),
{
    let recv = match split_once(ex, "::") {
        Some((recv, _)) => recv,
        None => {
            return false;
        },
    };
    proof {
        let i0 = recv@.len() as int;
        assert(ex@.subrange(0, i0) == recv@);
        if extension_of(ex@, imported_base@) {
            let i = choose|i: int| occurs_at(ex@, "::"@, i) && (forall|j: int| 0 <= j < i ==> !occurs_at(ex@, "::"@, j))
                && receiver_matches(ex@.subrange(0, i), imported_base@);
            assert(i == i0);
        }
        if receiver_matches(recv@, imported_base@) {
            assert(occurs_at(ex@, "::"@, i0));
        }
        assert(extension_of(ex@, imported_base@) == receiver_matches(recv@, imported_base@));
    }
    if str_is(&recv, imported_base.as_str()) {
        return true;
    }
    let rc = str_chars(recv.as_str());
    let bc = str_chars(imported_base.as_str());
    if rc.len() <= bc.len() {
        proof {
            assert(!bc@.push('<').is_prefix_of(rc@));
        }
        return false;
    }
    let mut i: usize = 0;
    while i < bc.len()
        invariant
            i <= bc@.len(),
            bc@.len() < rc@.len(),
            rc@ == recv@,
            bc@ == imported_base@,
            recv@ != imported_base@,
            extension_of(ex@, imported_base@) == receiver_matches(recv@, imported_base@),
            forall|k: int| 0 <= k < i ==> rc@[k] == bc@[k],
        decreases bc@.len() - i,
    {
        if rc[i] != bc[i] {
            proof {
                assert(!bc@.push('<').is_prefix_of(rc@)) by {
                    assert(bc@.push('<')[i as int] != rc@[i as int]);
                }
            }
            return false;
        }
        i += 1;
    }
    let r = rc[bc.len()] == '<' && rc[rc.len() - 1] == '>';
    proof {
        if rc[bc.len() as int] == '<' {
            assert(bc@.push('<').is_prefix_of(rc@)) by {
                assert forall|k: int| 0 <= k < bc@.push('<').len() implies bc@.push('<')[k] == rc@[k] by {}
            }
        } else {
            assert(!bc@.push('<').is_prefix_of(rc@)) by {
                assert(bc@.push('<')[bc@.len() as int] != rc@[bc@.len() as int]);
            }
        }
    }
    r
}

/// An import is satisfied when the module it comes from exports every imported name.
pub open spec fn import_satisfied(imp: ImportDecl, dep_exports: Seq<String>) -> bool {
    forall|k: int| 0 <= k < imp.bindings@.len() ==> has_string(dep_exports, (#[trigger] imp.bindings@[k]).0@)
}

/// Checks that the module `dep` exports everything `imp` (in the module at `path`) imports.
pub fn check_imports_exported(path: &String, imp: &ImportDecl, dep_exports: &Vec<String>)
    -> (r: Result<(), ModuleLoadError>)
    ensures
        r is Ok <==> import_satisfied(*imp, dep_exports@),
        r matches Err(e) ==> e.path matches Some(p) && p@ == path@,
        r matches Err(e) ==> exists|k: int| 0 <= k < imp.bindings@.len()
            && !has_string(dep_exports@, (#[trigger] imp.bindings@[k]).0@)
            && e.message@ == "module `"@ + imp.source_path@ + "` does not export `"@ + imp.bindings@[k].0@ + "`"@,
{
    let mut k: usize = 0;
    while k < imp.bindings.len()
        invariant
            k <= imp.bindings@.len(),
            forall|j: int| 0 <= j < k ==> has_string(dep_exports@, (#[trigger] imp.bindings@[j]).0@),
        decreases imp.bindings@.len() - k,
    {
        if !contains_string(dep_exports, &imp.bindings[k].0) {
            let mut msg: Vec<char> = Vec::new();
            push_str(&mut msg, "module `");
            push_str(&mut msg, imp.source_path.as_str());
            push_str(&mut msg, "` does not export `");
            push_str(&mut msg, imp.bindings[k].0.as_str());
            push_str(&mut msg, "`");
            return Err(ModuleLoadError::with_path(path, chars_to_string(msg.as_slice())));
        }
        k += 1;
    }
    Ok(())
}


/// Every import of every module resolved to a module of the list.
pub open spec fn graph_wf(modules: Seq<LinkedModule>) -> bool {
    forall|m: int| 0 <= m < modules.len() ==> {
        &&& (#[trigger] modules[m]).deps@.len() == modules[m].data.imports@.len()
        &&& forall|k: int| 0 <= k < modules[m].deps@.len() ==> (#[trigger] modules[m].deps@[k]) < modules.len()
    }
}

/// How many modules have not been visited yet.
pub open spec fn unseen(s: Seq<bool>) -> nat
    decreases s.len(),
{
    if s.len() == 0 {
        0
    } else {
        unseen(s.drop_last()) + if s.last() { 0nat } else { 1nat }
    }
}

proof fn lemma_unseen_mark(s: Seq<bool>, i: int)
    requires
        0 <= i < s.len(),
        !s[i],
    ensures
        unseen(s.update(i, true)) + 1 == unseen(s),
    decreases s.len(),
{
    if i < s.len() - 1 {
        assert(s.update(i, true).drop_last() == s.drop_last().update(i, true));
        lemma_unseen_mark(s.drop_last(), i);
    } else {
        assert(s.update(i, true).drop_last() == s.drop_last());
    }
}

/// The per-module sets of required exports and maps of local names are well formed.
pub open spec fn tables_wf(n: int, required: Seq<Vec<String>>, locals: Seq<Vec<(String, String)>>) -> bool {
    &&& required.len() == n
    &&& locals.len() == n
    &&& forall|k: int| 0 <= k < n ==> distinct_strings((#[trigger] required[k])@)
    &&& forall|k: int| 0 <= k < n ==> distinct_keys((#[trigger] locals[k])@)
}

/// Every name module `m` imports is required from the module the import resolved to.
pub open spec fn imports_required(modules: Seq<LinkedModule>, m: int, required: Seq<Vec<String>>) -> bool {
    forall|k: int, b: int| 0 <= k < modules[m].data.imports@.len() && 0 <= b < (#[trigger] modules[m].data.imports@[k]).bindings@.len()
        ==> has_string(required[modules[m].deps@[k] as int]@, (#[trigger] modules[m].data.imports@[k].bindings@[b]).0@)
}

/// `new` requires everything `old` does.
pub open spec fn required_grows(old: Seq<Vec<String>>, new: Seq<Vec<String>>) -> bool {
    &&& old.len() == new.len()
    &&& forall|k: int, t: Seq<char>| 0 <= k < old.len() && #[trigger] has_string(old[k]@, t) ==> has_string(new[k]@, t)
}

/// Records that module `idx` must provide `s`.
fn add_required(required: &mut Vec<Vec<String>>, idx: usize, s: String)
    requires
        idx < old(required)@.len(),
        forall|k: int| 0 <= k < old(required)@.len() ==> distinct_strings((#[trigger] old(required)@[k])@),
    ensures
        final(required)@.len() == old(required)@.len(),
        forall|k: int| 0 <= k < final(required)@.len() ==> distinct_strings((#[trigger] final(required)@[k])@),
        forall|t: Seq<char>| has_string(final(required)@[idx as int]@, t)
            <==> (has_string(old(required)@[idx as int]@, t) || t == s@),
        forall|k: int| 0 <= k < final(required)@.len() && k != idx ==> #[trigger] final(required)@[k] == old(required)@[k],
{
    let mut list = required.remove(idx);
    insert_string(&mut list, s);
    required.insert(idx, list);
    proof {
        assert forall|k: int| 0 <= k < required@.len() implies distinct_strings((#[trigger] required@[k])@) by {
            if k < idx {
                assert(required@[k] == old(required)@[k]);
            } else if k > idx {
                assert(required@[k] == old(required)@[k]);
            }
        }
    }
}

/// Records that module `idx` is imported with `export_name` bound to `local_name`.
fn add_local(locals: &mut Vec<Vec<(String, String)>>, idx: usize, export_name: String, local_name: String)
    requires
        idx < old(locals)@.len(),
        forall|k: int| 0 <= k < old(locals)@.len() ==> distinct_keys((#[trigger] old(locals)@[k])@),
    ensures
        final(locals)@.len() == old(locals)@.len(),
        forall|k: int| 0 <= k < final(locals)@.len() ==> distinct_keys((#[trigger] final(locals)@[k])@),
        map_get(final(locals)@[idx as int]@, export_name@) == Some(local_name@),
        forall|e: Seq<char>| e != export_name@ ==> map_get(final(locals)@[idx as int]@, e)
            == map_get(old(locals)@[idx as int]@, e),
        forall|k: int| 0 <= k < final(locals)@.len() && k != idx ==> #[trigger] final(locals)@[k] == old(locals)@[k],
{
    let mut map = locals.remove(idx);
    map_insert(&mut map, export_name, local_name);
    locals.insert(idx, map);
    proof {
        assert forall|k: int| 0 <= k < locals@.len() implies distinct_keys((#[trigger] locals@[k])@) by {
            if k < idx {
                assert(locals@[k] == old(locals)@[k]);
            } else if k > idx {
                assert(locals@[k] == old(locals)@[k]);
            }
        }
    }
}

/// Every module that module `j` imports from is marked in `s`.
pub open spec fn deps_seen(modules: Seq<LinkedModule>, j: int, s: Seq<bool>) -> bool {
    forall|k: int| 0 <= k < modules[j].deps@.len() ==> s[#[trigger] modules[j].deps@[k] as int]
}

/// The marked modules are closed under imports: whatever a marked module imports from is marked.
pub open spec fn deps_closed(modules: Seq<LinkedModule>, s: Seq<bool>) -> bool {
    forall|j: int| 0 <= j < s.len() && #[trigger] s[j] ==> deps_seen(modules, j, s)
}

/// Module `a` has an import that resolved to module `b`.
pub open spec fn imports_from(modules: Seq<LinkedModule>, a: int, b: int) -> bool {
    exists|k: int| 0 <= k < modules[a].deps@.len() && #[trigger] modules[a].deps@[k] == b
}

/// Module `j` is `entry` or is reached from it through at most `n` imports.
pub open spec fn reaches_within(modules: Seq<LinkedModule>, entry: int, j: int, n: nat) -> bool
    decreases n,
{
    if n == 0 {
        j == entry
    } else {
        ||| reaches_within(modules, entry, j, (n - 1) as nat)
        ||| exists|i: int| 0 <= i < modules.len() && reaches_within(modules, entry, i, (n - 1) as nat)
                && #[trigger] imports_from(modules, i, j)
    }
}

/// Module `j` is `entry` or is reached from it through imports.
pub open spec fn reaches(modules: Seq<LinkedModule>, entry: int, j: int) -> bool {
    exists|n: nat| #[trigger] reaches_within(modules, entry, j, n)
}

/// What import `k` of module `j` requires of module `d`, the module it resolved to:
/// `t` is one of its imported names, or an extension method that `d` exports for one
/// of them.
pub open spec fn import_requires(modules: Seq<LinkedModule>, j: int, k: int, d: int, t: Seq<char>) -> bool {
    &&& 0 <= j < modules.len()
    &&& 0 <= k < modules[j].data.imports@.len()
    &&& modules[j].deps@[k] == d
    &&& exists|b: int| 0 <= b < modules[j].data.imports@[k].bindings@.len() && {
        let n = (#[trigger] modules[j].data.imports@[k].bindings@[b]).0@;
        t == n || (has_string(modules[d].data.exports@, t) && extension_of(t, n))
    }
}

/// Binding `b` of import `k` of module `j` imports `e` from module `d` as `l`.
pub open spec fn import_binds(modules: Seq<LinkedModule>, j: int, k: int, b: int, d: int,
    e: Seq<char>, l: Seq<char>) -> bool
{
    &&& 0 <= j < modules.len()
    &&& 0 <= k < modules[j].data.imports@.len()
    &&& modules[j].deps@[k] == d
    &&& 0 <= b < modules[j].data.imports@[k].bindings@.len()
    &&& modules[j].data.imports@[k].bindings@[b].0@ == e
    &&& modules[j].data.imports@[k].bindings@[b].1@ == l
}

/// Every name required of module `d` is required by an import of a module marked in `s`.
pub open spec fn required_justified(modules: Seq<LinkedModule>, s: Seq<bool>, required: Seq<Vec<String>>) -> bool {
    forall|d: int, t: Seq<char>| 0 <= d < required.len() && #[trigger] has_string(required[d]@, t)
        ==> exists|j: int, k: int| 0 <= j < s.len() && s[j] && #[trigger] import_requires(modules, j, k, d, t)
}

/// Every local name recorded for module `d` comes from a binding of a module marked in `s`.
pub open spec fn locals_justified(modules: Seq<LinkedModule>, s: Seq<bool>, locals: Seq<Vec<(String, String)>>) -> bool {
    forall|d: int, e: Seq<char>| 0 <= d < locals.len() && (#[trigger] map_get(locals[d]@, e)) is Some
        ==> exists|j: int, k: int, b: int| 0 <= j < s.len() && s[j]
            && #[trigger] import_binds(modules, j, k, b, d, e, map_get(locals[d]@, e)->0)
}

/// The extension methods that module `m`'s imports pull in are required.
pub open spec fn extensions_required(modules: Seq<LinkedModule>, m: int, required: Seq<Vec<String>>) -> bool {
    forall|k: int, b: int, x: int| 0 <= k < modules[m].data.imports@.len()
        && 0 <= b < modules[m].data.imports@[k].bindings@.len()
        && 0 <= x < modules[modules[m].deps@[k] as int].data.exports@.len()
        && #[trigger] extension_of(modules[modules[m].deps@[k] as int].data.exports@[x]@,
            modules[m].data.imports@[k].bindings@[b].0@)
        ==> has_string(required[modules[m].deps@[k] as int]@, modules[modules[m].deps@[k] as int].data.exports@[x]@)
}

/// Every name module `m` imports has a local name recorded for the module it comes from.
pub open spec fn locals_recorded(modules: Seq<LinkedModule>, m: int, locals: Seq<Vec<(String, String)>>) -> bool {
    forall|k: int, b: int| 0 <= k < modules[m].data.imports@.len()
        && 0 <= b < (#[trigger] modules[m].data.imports@[k]).bindings@.len()
        ==> (#[trigger] map_get(locals[modules[m].deps@[k] as int]@, modules[m].data.imports@[k].bindings@[b].0@)) is Some
}

/// `new` records a local name for every name `old` does.
pub open spec fn locals_grow(old: Seq<Vec<(String, String)>>, new: Seq<Vec<(String, String)>>) -> bool {
    &&& old.len() == new.len()
    &&& forall|k: int, e: Seq<char>| 0 <= k < old.len() && (#[trigger] map_get(old[k]@, e)) is Some
        ==> map_get(new[k]@, e) is Some
}

/// Every marked module is reached from `entry`.
pub open spec fn marked_reached(modules: Seq<LinkedModule>, entry: int, s: Seq<bool>) -> bool {
    forall|j: int| 0 <= j < s.len() && #[trigger] s[j] ==> reaches(modules, entry, j)
}

/// `b` marks every module `a` does.
pub open spec fn marks_grow(a: Seq<bool>, b: Seq<bool>) -> bool {
    &&& a.len() == b.len()
    &&& forall|j: int| 0 <= j < a.len() && #[trigger] a[j] ==> b[j]
}

/// Requiring more keeps every import of module `j` required.
proof fn lemma_imports_required_grows(modules: Seq<LinkedModule>, j: int, a: Seq<Vec<String>>, b: Seq<Vec<String>>)
    requires
        required_grows(a, b),
        imports_required(modules, j, a),
        extensions_required(modules, j, a),
        graph_wf(modules),
        0 <= j < modules.len(),
        a.len() == modules.len(),
    ensures
        imports_required(modules, j, b),
        extensions_required(modules, j, b),
{
    assert forall|k: int, bb: int| 0 <= k < modules[j].data.imports@.len() && 0 <= bb < (#[trigger] modules[j].data.imports@[k]).bindings@.len()
        implies has_string(b[modules[j].deps@[k] as int]@, (#[trigger] modules[j].data.imports@[k].bindings@[bb]).0@) by {
        let d = modules[j].deps@[k] as int;
        assert(has_string(a[d]@, modules[j].data.imports@[k].bindings@[bb].0@));
    }
    assert forall|k: int, bb: int, x: int| 0 <= k < modules[j].data.imports@.len()
        && 0 <= bb < modules[j].data.imports@[k].bindings@.len()
        && 0 <= x < modules[modules[j].deps@[k] as int].data.exports@.len()
        && #[trigger] extension_of(modules[modules[j].deps@[k] as int].data.exports@[x]@,
            modules[j].data.imports@[k].bindings@[bb].0@)
        implies has_string(b[modules[j].deps@[k] as int]@, modules[modules[j].deps@[k] as int].data.exports@[x]@) by {
        let d = modules[j].deps@[k] as int;
        assert(has_string(a[d]@, modules[d].data.exports@[x]@));
    }
}

/// Recording more local names keeps those of module `j` recorded.
proof fn lemma_locals_recorded_grows(modules: Seq<LinkedModule>, j: int, a: Seq<Vec<(String, String)>>,
    b: Seq<Vec<(String, String)>>)
    requires
        locals_grow(a, b),
        locals_recorded(modules, j, a),
        graph_wf(modules),
        0 <= j < modules.len(),
        a.len() == modules.len(),
    ensures
        locals_recorded(modules, j, b),
{
    assert forall|k: int, bb: int| 0 <= k < modules[j].data.imports@.len()
        && 0 <= bb < (#[trigger] modules[j].data.imports@[k]).bindings@.len()
        implies (#[trigger] map_get(b[modules[j].deps@[k] as int]@, modules[j].data.imports@[k].bindings@[bb].0@)) is Some by {
        let d = modules[j].deps@[k] as int;
        assert(map_get(a[d]@, modules[j].data.imports@[k].bindings@[bb].0@) is Some);
    }
}

/// A module imported by a module reached from `entry` is reached too.
proof fn lemma_reaches_step(modules: Seq<LinkedModule>, entry: int, m: int, k: int)
    requires
        reaches(modules, entry, m),
        0 <= m < modules.len(),
        0 <= k < modules[m].deps@.len(),
    ensures
        reaches(modules, entry, modules[m].deps@[k] as int),
{
    let d = modules[m].deps@[k] as int;
    let n = choose|n: nat| #[trigger] reaches_within(modules, entry, m, n);
    assert(imports_from(modules, m, d));
    assert(reaches_within(modules, entry, d, n + 1));
}

/// A set of modules that holds `entry` and is closed under imports holds every module
/// reached from `entry`.
proof fn lemma_closed_holds_reached(modules: Seq<LinkedModule>, entry: int, s: Seq<bool>, j: int, n: nat)
    requires
        graph_wf(modules),
        s.len() == modules.len(),
        0 <= entry < s.len(),
        s[entry],
        deps_closed(modules, s),
        reaches_within(modules, entry, j, n),
    ensures
        0 <= j < s.len(),
        s[j],
    decreases n,
{
    if n > 0 {
        if reaches_within(modules, entry, j, (n - 1) as nat) {
            lemma_closed_holds_reached(modules, entry, s, j, (n - 1) as nat);
        } else {
            let i = choose|i: int| 0 <= i < modules.len() && reaches_within(modules, entry, i, (n - 1) as nat)
                && #[trigger] imports_from(modules, i, j);
            lemma_closed_holds_reached(modules, entry, s, i, (n - 1) as nat);
            let k = choose|k: int| 0 <= k < modules[i].deps@.len() && #[trigger] modules[i].deps@[k] == j;
            assert(deps_seen(modules, i, s));
            assert(s[modules[i].deps@[k] as int]);
        }
    }
}

/// What a finished visit guarantees of the modules it marked: their imports (with the
/// extension methods they pull in) are required, their local names recorded, and what
/// they import from is marked.
pub open spec fn visited_done(
    modules: Seq<LinkedModule>,
    s0: Seq<bool>,
    s1: Seq<bool>,
    required: Seq<Vec<String>>,
    locals: Seq<Vec<(String, String)>>,
    skip: int,
) -> bool {
    forall|j: int| 0 <= j < s1.len() && #[trigger] s1[j] && !s0[j] && j != skip
        ==> imports_required(modules, j, required) && extensions_required(modules, j, required)
            && locals_recorded(modules, j, locals) && deps_seen(modules, j, s1)
}

/// Visits module `m` and, depth first, the modules it imports: each imported name is
/// required from the module it comes from, with its local name; importing a type also
/// requires the extension functions that module exports for it.
fn visit(
    m: usize,
    modules: &Vec<LinkedModule>,
    required: &mut Vec<Vec<String>>,
    locals: &mut Vec<Vec<(String, String)>>,
    seen: &mut Vec<bool>,
    Ghost(entry): Ghost<int>,
)
    requires
        graph_wf(modules@),
        m < modules@.len(),
        old(seen)@.len() == modules@.len(),
        tables_wf(modules@.len() as int, old(required)@, old(locals)@),
        reaches(modules@, entry, m as int),
        marked_reached(modules@, entry, old(seen)@),
        required_justified(modules@, old(seen)@, old(required)@),
        locals_justified(modules@, old(seen)@, old(locals)@),
    ensures
        final(seen)@.len() == modules@.len(),
        tables_wf(modules@.len() as int, final(required)@, final(locals)@),
        unseen(final(seen)@) <= unseen(old(seen)@),
        required_grows(old(required)@, final(required)@),
        locals_grow(old(locals)@, final(locals)@),
        final(seen)@[m as int],
        marks_grow(old(seen)@, final(seen)@),
        visited_done(modules@, old(seen)@, final(seen)@, final(required)@, final(locals)@, -1),
        marked_reached(modules@, entry, final(seen)@),
        required_justified(modules@, final(seen)@, final(required)@),
        locals_justified(modules@, final(seen)@, final(locals)@),
    decreases unseen(old(seen)@),
{
    if seen[m] {
        return;
    }
    proof {
        lemma_unseen_mark(seen@, m as int);
    }
    seen.set(m, true);
    proof {
        lemma_justified_marks_grow(modules@, old(seen)@, seen@, required@, locals@);
    }
    let module = &modules[m];
    let mut k: usize = 0;
    while k < module.data.imports.len()
        invariant
            graph_wf(modules@),
            m < modules@.len(),
            *module == modules@[m as int],
            seen@.len() == modules@.len(),
            tables_wf(modules@.len() as int, required@, locals@),
            unseen(seen@) < unseen(old(seen)@),
            required_grows(old(required)@, required@),
            locals_grow(old(locals)@, locals@),
            k <= module.data.imports@.len(),
            forall|kk: int, b: int| 0 <= kk < k && 0 <= b < (#[trigger] modules@[m as int].data.imports@[kk]).bindings@.len()
                ==> has_string(required@[modules@[m as int].deps@[kk] as int]@,
                    (#[trigger] modules@[m as int].data.imports@[kk].bindings@[b]).0@),
            forall|kk: int, b: int, x: int| 0 <= kk < k
                && 0 <= b < modules@[m as int].data.imports@[kk].bindings@.len()
                && 0 <= x < modules@[modules@[m as int].deps@[kk] as int].data.exports@.len()
                && #[trigger] extension_of(modules@[modules@[m as int].deps@[kk] as int].data.exports@[x]@,
                    modules@[m as int].data.imports@[kk].bindings@[b].0@)
                ==> has_string(required@[modules@[m as int].deps@[kk] as int]@,
                    modules@[modules@[m as int].deps@[kk] as int].data.exports@[x]@),
            forall|kk: int, b: int| 0 <= kk < k && 0 <= b < (#[trigger] modules@[m as int].data.imports@[kk]).bindings@.len()
                ==> (#[trigger] map_get(locals@[modules@[m as int].deps@[kk] as int]@,
                    modules@[m as int].data.imports@[kk].bindings@[b].0@)) is Some,
            seen@[m as int],
            !old(seen)@[m as int],
            marks_grow(old(seen)@, seen@),
            visited_done(modules@, old(seen)@, seen@, required@, locals@, m as int),
            forall|kk: int| 0 <= kk < k ==> seen@[#[trigger] modules@[m as int].deps@[kk] as int],
            reaches(modules@, entry, m as int),
            marked_reached(modules@, entry, seen@),
            required_justified(modules@, seen@, required@),
            locals_justified(modules@, seen@, locals@),
        decreases module.data.imports@.len() - k,
    {
        let dep = module.deps[k];
        let imp = &module.data.imports[k];
        let dep_exports = &modules[dep].data.exports;
        let ghost req_k = required@;
        let ghost loc_k = locals@;
        let mut b: usize = 0;
        while b < imp.bindings.len()
            invariant
                graph_wf(modules@),
                m < modules@.len(),
                k < modules@[m as int].data.imports@.len(),
                dep < modules@.len(),
                dep == modules@[m as int].deps@[k as int],
                *imp == modules@[m as int].data.imports@[k as int],
                *dep_exports == modules@[dep as int].data.exports,
                seen@.len() == modules@.len(),
                seen@[m as int],
                b <= imp.bindings@.len(),
                tables_wf(modules@.len() as int, required@, locals@),
                required_grows(req_k, required@),
                locals_grow(loc_k, locals@),
                forall|bb: int| 0 <= bb < b ==> has_string(required@[dep as int]@, (#[trigger] imp.bindings@[bb]).0@),
                forall|bb: int, x: int| 0 <= bb < b && 0 <= x < dep_exports@.len()
                    && #[trigger] extension_of(dep_exports@[x]@, imp.bindings@[bb].0@)
                    ==> has_string(required@[dep as int]@, dep_exports@[x]@),
                forall|bb: int| 0 <= bb < b ==> (#[trigger] map_get(locals@[dep as int]@, imp.bindings@[bb].0@)) is Some,
                required_justified(modules@, seen@, required@),
                locals_justified(modules@, seen@, locals@),
            decreases imp.bindings@.len() - b,
        {
            let export_name = &imp.bindings[b].0;
            let ghost req_b = required@;
            add_required(required, dep, export_name.clone());
            proof {
                lemma_add_required_keeps(req_b, required@, dep as int, export_name@);
                assert(import_requires(modules@, m as int, k as int, dep as int, export_name@)) by {
                    assert(imp.bindings@[b as int].0@ == export_name@);
                }
                lemma_required_justified_add(modules@, seen@, req_b, required@, dep as int, export_name@,
                    m as int, k as int);
            }
            let ghost loc_b = locals@;
            add_local(locals, dep, export_name.clone(), imp.bindings[b].1.clone());
            proof {
                lemma_add_local_keeps(modules@, seen@, loc_b, locals@, dep as int, m as int, k as int, b as int);
            }
            let ghost req_x0 = required@;
            let mut x: usize = 0;
            while x < dep_exports.len()
                invariant
                    graph_wf(modules@),
                    m < modules@.len(),
                    k < modules@[m as int].data.imports@.len(),
                    dep < modules@.len(),
                    dep == modules@[m as int].deps@[k as int],
                    *imp == modules@[m as int].data.imports@[k as int],
                    *dep_exports == modules@[dep as int].data.exports,
                    seen@.len() == modules@.len(),
                    seen@[m as int],
                    b < imp.bindings@.len(),
                    *export_name == imp.bindings@[b as int].0,
                    x <= dep_exports@.len(),
                    tables_wf(modules@.len() as int, required@, locals@),
                    required_grows(req_x0, required@),
                    forall|xx: int| 0 <= xx < x && #[trigger] extension_of(dep_exports@[xx]@, export_name@)
                        ==> has_string(required@[dep as int]@, dep_exports@[xx]@),
                    required_justified(modules@, seen@, required@),
                decreases dep_exports@.len() - x,
            {
                if extension_export_matches_import(&dep_exports[x], export_name) {
                    let ghost req_x = required@;
                    add_required(required, dep, dep_exports[x].clone());
                    proof {
                        lemma_add_required_keeps(req_x, required@, dep as int, dep_exports@[x as int]@);
                        assert(import_requires(modules@, m as int, k as int, dep as int, dep_exports@[x as int]@)) by {
                            assert(imp.bindings@[b as int].0@ == export_name@);
                            assert(has_string(modules@[dep as int].data.exports@, dep_exports@[x as int]@));
                        }
                        lemma_required_justified_add(modules@, seen@, req_x, required@, dep as int,
                            dep_exports@[x as int]@, m as int, k as int);
                    }
                }
                x += 1;
            }
            proof {
                assert forall|bb: int| 0 <= bb < b + 1 implies has_string(required@[dep as int]@, (#[trigger] imp.bindings@[bb]).0@) by {
                    if bb < b {
                        assert(has_string(req_b[dep as int]@, imp.bindings@[bb].0@));
                    } else {
                        assert(has_string(req_x0[dep as int]@, imp.bindings@[bb].0@));
                    }
                }
                assert forall|bb: int, xx: int| 0 <= bb < b + 1 && 0 <= xx < dep_exports@.len()
                    && #[trigger] extension_of(dep_exports@[xx]@, imp.bindings@[bb].0@)
                    implies has_string(required@[dep as int]@, dep_exports@[xx]@) by {
                    if bb < b {
                        assert(has_string(req_b[dep as int]@, dep_exports@[xx]@));
                    }
                }
                assert forall|bb: int| 0 <= bb < b + 1 implies (#[trigger] map_get(locals@[dep as int]@, imp.bindings@[bb].0@)) is Some by {
                    if bb < b {
                        assert(map_get(loc_b[dep as int]@, imp.bindings@[bb].0@) is Some);
                    }
                }
            }
            b += 1;
        }
        let ghost req_v = required@;
        let ghost loc_v = locals@;
        let ghost seen_v = seen@;
        proof {
            assert forall|j: int| 0 <= j < seen_v.len() && #[trigger] seen_v[j] && !old(seen)@[j] && j != m
                implies imports_required(modules@, j, req_v) && extensions_required(modules@, j, req_v)
                    && locals_recorded(modules@, j, loc_v) && deps_seen(modules@, j, seen_v) by {
                lemma_imports_required_grows(modules@, j, req_k, req_v);
                lemma_locals_recorded_grows(modules@, j, loc_k, loc_v);
            }
            lemma_reaches_step(modules@, entry, m as int, k as int);
        }
        visit(dep, modules, required, locals, seen, Ghost(entry));
        proof {
            assert forall|j: int| 0 <= j < seen@.len() && #[trigger] seen@[j] && !old(seen)@[j] && j != m
                implies imports_required(modules@, j, required@) && extensions_required(modules@, j, required@)
                    && locals_recorded(modules@, j, locals@) && deps_seen(modules@, j, seen@) by {
                if seen_v[j] {
                    lemma_imports_required_grows(modules@, j, req_v, required@);
                    lemma_locals_recorded_grows(modules@, j, loc_v, locals@);
                    assert forall|kk: int| 0 <= kk < modules@[j].deps@.len()
                        implies seen@[#[trigger] modules@[j].deps@[kk] as int] by {
                        assert(seen_v[modules@[j].deps@[kk] as int]);
                    }
                }
            }
            assert forall|kk: int| 0 <= kk < k + 1 implies seen@[#[trigger] modules@[m as int].deps@[kk] as int] by {
                if kk < k {
                    assert(seen_v[modules@[m as int].deps@[kk] as int]);
                }
            }
            assert forall|kk: int, bb: int| 0 <= kk < k + 1 && 0 <= bb < (#[trigger] modules@[m as int].data.imports@[kk]).bindings@.len()
                implies has_string(required@[modules@[m as int].deps@[kk] as int]@,
                    (#[trigger] modules@[m as int].data.imports@[kk].bindings@[bb]).0@) by {
                let d = modules@[m as int].deps@[kk] as int;
                let nm = modules@[m as int].data.imports@[kk].bindings@[bb].0@;
                if kk < k {
                    assert(has_string(req_k[d]@, nm));
                } else {
                    assert(has_string(req_v[d]@, nm));
                }
            }
            assert forall|kk: int, bb: int, xx: int| 0 <= kk < k + 1
                && 0 <= bb < modules@[m as int].data.imports@[kk].bindings@.len()
                && 0 <= xx < modules@[modules@[m as int].deps@[kk] as int].data.exports@.len()
                && #[trigger] extension_of(modules@[modules@[m as int].deps@[kk] as int].data.exports@[xx]@,
                    modules@[m as int].data.imports@[kk].bindings@[bb].0@)
                implies has_string(required@[modules@[m as int].deps@[kk] as int]@,
                    modules@[modules@[m as int].deps@[kk] as int].data.exports@[xx]@) by {
                let d = modules@[m as int].deps@[kk] as int;
                if kk < k {
                    assert(has_string(req_k[d]@, modules@[d].data.exports@[xx]@));
                } else {
                    assert(has_string(req_v[d]@, modules@[d].data.exports@[xx]@));
                }
            }
            assert forall|kk: int, bb: int| 0 <= kk < k + 1 && 0 <= bb < (#[trigger] modules@[m as int].data.imports@[kk]).bindings@.len()
                implies (#[trigger] map_get(locals@[modules@[m as int].deps@[kk] as int]@,
                    modules@[m as int].data.imports@[kk].bindings@[bb].0@)) is Some by {
                let d = modules@[m as int].deps@[kk] as int;
                let nm = modules@[m as int].data.imports@[kk].bindings@[bb].0@;
                if kk < k {
                    assert(map_get(loc_k[d]@, nm) is Some);
                } else {
                    assert(map_get(loc_v[d]@, nm) is Some);
                }
            }
        }
        k += 1;
    }
}

/// Marking more modules keeps what was required and recorded justified.
proof fn lemma_justified_marks_grow(modules: Seq<LinkedModule>, a: Seq<bool>, b: Seq<bool>,
    required: Seq<Vec<String>>, locals: Seq<Vec<(String, String)>>)
    requires
        marks_grow(a, b),
        required_justified(modules, a, required),
        locals_justified(modules, a, locals),
    ensures
        required_justified(modules, b, required),
        locals_justified(modules, b, locals),
{
    assert forall|d: int, t: Seq<char>| 0 <= d < required.len() && #[trigger] has_string(required[d]@, t)
        implies exists|j: int, k: int| 0 <= j < b.len() && b[j] && #[trigger] import_requires(modules, j, k, d, t) by {
        let (j, k) = choose|j: int, k: int| 0 <= j < a.len() && a[j] && #[trigger] import_requires(modules, j, k, d, t);
        assert(b[j]);
    }
    assert forall|d: int, e: Seq<char>| 0 <= d < locals.len() && (#[trigger] map_get(locals[d]@, e)) is Some
        implies exists|j: int, k: int, bb: int| 0 <= j < b.len() && b[j]
            && #[trigger] import_binds(modules, j, k, bb, d, e, map_get(locals[d]@, e)->0) by {
        let (j, k, bb) = choose|j: int, k: int, bb: int| 0 <= j < a.len() && a[j]
            && #[trigger] import_binds(modules, j, k, bb, d, e, map_get(locals[d]@, e)->0);
        assert(b[j]);
    }
}

/// Adding `t` to module `d`'s requirements keeps all of them.
proof fn lemma_add_required_keeps(old: Seq<Vec<String>>, new: Seq<Vec<String>>, d: int, t: Seq<char>)
    requires
        0 <= d < old.len(),
        new.len() == old.len(),
        forall|u: Seq<char>| has_string(new[d]@, u) <==> (has_string(old[d]@, u) || u == t),
        forall|k: int| 0 <= k < new.len() && k != d ==> #[trigger] new[k] == old[k],
    ensures
        required_grows(old, new),
        has_string(new[d]@, t),
{
    assert forall|k: int, u: Seq<char>| 0 <= k < old.len() && #[trigger] has_string(old[k]@, u)
        implies has_string(new[k]@, u) by {
        if k != d {
            assert(new[k] == old[k]);
        }
    }
}

/// Adding a name that an import of a marked module requires keeps the requirements justified.
proof fn lemma_required_justified_add(modules: Seq<LinkedModule>, s: Seq<bool>, old: Seq<Vec<String>>,
    new: Seq<Vec<String>>, d: int, t: Seq<char>, m: int, k: int)
    requires
        required_justified(modules, s, old),
        0 <= d < old.len(),
        new.len() == old.len(),
        forall|u: Seq<char>| has_string(new[d]@, u) <==> (has_string(old[d]@, u) || u == t),
        forall|kk: int| 0 <= kk < new.len() && kk != d ==> #[trigger] new[kk] == old[kk],
        0 <= m < s.len(),
        s[m],
        import_requires(modules, m, k, d, t),
    ensures
        required_justified(modules, s, new),
{
    assert forall|dd: int, u: Seq<char>| 0 <= dd < new.len() && #[trigger] has_string(new[dd]@, u)
        implies exists|j: int, kk: int| 0 <= j < s.len() && s[j] && #[trigger] import_requires(modules, j, kk, dd, u) by {
        if dd != d {
            assert(new[dd] == old[dd]);
            assert(has_string(old[dd]@, u));
        } else if u == t {
        } else {
            assert(has_string(old[dd]@, u));
        }
    }
}

/// Recording binding `b` of import `k` of marked module `m` keeps local names justified
/// and recorded.
proof fn lemma_add_local_keeps(modules: Seq<LinkedModule>, s: Seq<bool>, old: Seq<Vec<(String, String)>>,
    new: Seq<Vec<(String, String)>>, d: int, m: int, k: int, b: int)
    requires
        locals_justified(modules, s, old),
        graph_wf(modules),
        0 <= m < modules.len(),
        s.len() == modules.len(),
        s[m],
        0 <= k < modules[m].data.imports@.len(),
        modules[m].deps@[k] == d,
        0 <= b < modules[m].data.imports@[k].bindings@.len(),
        0 <= d < old.len(),
        new.len() == old.len(),
        map_get(new[d]@, modules[m].data.imports@[k].bindings@[b].0@)
            == Some(modules[m].data.imports@[k].bindings@[b].1@),
        forall|e: Seq<char>| e != modules[m].data.imports@[k].bindings@[b].0@
            ==> map_get(new[d]@, e) == map_get(old[d]@, e),
        forall|kk: int| 0 <= kk < new.len() && kk != d ==> #[trigger] new[kk] == old[kk],
    ensures
        locals_justified(modules, s, new),
        locals_grow(old, new),
{
    let e0 = modules[m].data.imports@[k].bindings@[b].0@;
    assert forall|dd: int, e: Seq<char>| 0 <= dd < new.len() && (#[trigger] map_get(new[dd]@, e)) is Some
        implies exists|j: int, kk: int, bb: int| 0 <= j < s.len() && s[j]
            && #[trigger] import_binds(modules, j, kk, bb, dd, e, map_get(new[dd]@, e)->0) by {
        if dd != d {
            assert(new[dd] == old[dd]);
            assert(map_get(old[dd]@, e) is Some);
        } else if e == e0 {
            assert(import_binds(modules, m, k, b, dd, e, map_get(new[dd]@, e)->0));
        } else {
            assert(map_get(old[dd]@, e) is Some);
        }
    }
    assert forall|kk: int, e: Seq<char>| 0 <= kk < old.len() && (#[trigger] map_get(old[kk]@, e)) is Some
        implies map_get(new[kk]@, e) is Some by {
        if kk != d {
            assert(new[kk] == old[kk]);
        }
    }
}

/// For each module, the exported names the program imports from it, and the local
/// names they are imported under; starting from the entry module.
///
/// A name is required of module `d` exactly when an import of a module reached from
/// the entry resolved to `d` and imports that name, or imports a type for which `d`
/// exports that extension method. Every name a reached module imports from `d` has a
/// local name recorded for `d`, and every recorded local name is one that such an
/// import binds it to.
pub fn collect_required_exports(modules: &Vec<LinkedModule>, entry: usize)
    -> (r: (Vec<Vec<String>>, Vec<Vec<(String, String)>>))
    requires
        graph_wf(modules@),
        entry < modules@.len(),
    ensures
        tables_wf(modules@.len() as int, r.0@, r.1@),
        forall|d: int, t: Seq<char>| 0 <= d < modules@.len() ==>
            (#[trigger] has_string(r.0@[d]@, t) <==> exists|j: int, k: int| reaches(modules@, entry as int, j)
                && #[trigger] import_requires(modules@, j, k, d, t)),
        forall|d: int, e: Seq<char>| 0 <= d < modules@.len() && (#[trigger] map_get(r.1@[d]@, e)) is Some
            ==> exists|j: int, k: int, b: int| reaches(modules@, entry as int, j)
                && #[trigger] import_binds(modules@, j, k, b, d, e, map_get(r.1@[d]@, e)->0),
        forall|j: int, k: int, b: int| reaches(modules@, entry as int, j) && 0 <= k < modules@[j].data.imports@.len()
            && 0 <= b < (#[trigger] modules@[j].data.imports@[k]).bindings@.len()
            ==> (#[trigger] map_get(r.1@[modules@[j].deps@[k] as int]@, modules@[j].data.imports@[k].bindings@[b].0@)) is Some,
{
    let mut required: Vec<Vec<String>> = Vec::new();
    let mut locals: Vec<Vec<(String, String)>> = Vec::new();
    let mut seen: Vec<bool> = Vec::new();
    let mut i: usize = 0;
    while i < modules.len()
        invariant
            i <= modules@.len(),
            seen@.len() == i,
            tables_wf(i as int, required@, locals@),
            forall|j: int| 0 <= j < i ==> !(#[trigger] seen@[j]),
            forall|j: int, t: Seq<char>| 0 <= j < i ==> !#[trigger] has_string(required@[j]@, t),
            forall|j: int, e: Seq<char>| 0 <= j < i ==> (#[trigger] map_get(locals@[j]@, e)) is None,
        decreases modules@.len() - i,
    {
        required.push(Vec::new());
        locals.push(Vec::new());
        seen.push(false);
        i += 1;
    }
    let ghost s0 = seen@;
    proof {
        assert(reaches_within(modules@, entry as int, entry as int, 0));
        assert(reaches(modules@, entry as int, entry as int));
    }
    visit(entry, modules, &mut required, &mut locals, &mut seen, Ghost(entry as int));
    proof {
        let s = seen@;
        assert forall|j: int| 0 <= j < s.len() && #[trigger] s[j] implies deps_seen(modules@, j, s)
            && imports_required(modules@, j, required@) && extensions_required(modules@, j, required@)
            && locals_recorded(modules@, j, locals@) by {
            assert(!s0[j]);
        }
        assert(deps_closed(modules@, s));
        assert forall|d: int, t: Seq<char>| 0 <= d < modules@.len() implies
            (#[trigger] has_string(required@[d]@, t) <==> exists|j: int, k: int| reaches(modules@, entry as int, j)
                && #[trigger] import_requires(modules@, j, k, d, t)) by {
            if has_string(required@[d]@, t) {
                let (j, k) = choose|j: int, k: int| 0 <= j < s.len() && s[j] && #[trigger] import_requires(modules@, j, k, d, t);
                assert(reaches(modules@, entry as int, j));
            }
            if exists|j: int, k: int| reaches(modules@, entry as int, j) && #[trigger] import_requires(modules@, j, k, d, t) {
                let (j, k) = choose|j: int, k: int| reaches(modules@, entry as int, j) && #[trigger] import_requires(modules@, j, k, d, t);
                let n = choose|n: nat| #[trigger] reaches_within(modules@, entry as int, j, n);
                lemma_closed_holds_reached(modules@, entry as int, s, j, n);
                let b = choose|b: int| 0 <= b < modules@[j].data.imports@[k].bindings@.len() && {
                    let nm = (#[trigger] modules@[j].data.imports@[k].bindings@[b]).0@;
                    t == nm || (has_string(modules@[d].data.exports@, t) && extension_of(t, nm))
                };
                let nm = modules@[j].data.imports@[k].bindings@[b].0@;
                if t == nm {
                    assert(imports_required(modules@, j, required@));
                } else {
                    let x = choose|x: int| 0 <= x < modules@[d].data.exports@.len() && (#[trigger] modules@[d].data.exports@[x])@ == t;
                    assert(extensions_required(modules@, j, required@));
                    assert(extension_of(modules@[d].data.exports@[x]@, nm));
                }
            }
        }
        assert forall|d: int, e: Seq<char>| 0 <= d < modules@.len() && (#[trigger] map_get(locals@[d]@, e)) is Some
            implies exists|j: int, k: int, b: int| reaches(modules@, entry as int, j)
                && #[trigger] import_binds(modules@, j, k, b, d, e, map_get(locals@[d]@, e)->0) by {
            let (j, k, b) = choose|j: int, k: int, b: int| 0 <= j < s.len() && s[j]
                && #[trigger] import_binds(modules@, j, k, b, d, e, map_get(locals@[d]@, e)->0);
            assert(reaches(modules@, entry as int, j));
        }
        assert forall|j: int, k: int, b: int| reaches(modules@, entry as int, j) && 0 <= k < modules@[j].data.imports@.len()
            && 0 <= b < (#[trigger] modules@[j].data.imports@[k]).bindings@.len()
            implies (#[trigger] map_get(locals@[modules@[j].deps@[k] as int]@, modules@[j].data.imports@[k].bindings@[b].0@)) is Some by {
            let n = choose|n: nat| #[trigger] reaches_within(modules@, entry as int, j, n);
            lemma_closed_holds_reached(modules@, entry as int, s, j, n);
            assert(locals_recorded(modules@, j, locals@));
        }
    }
    (required, locals)
}

/// The local name an export is imported under, if recorded.
fn map_lookup(v: &Vec<(String, String)>, key: &String) -> (r: Option<String>)
    ensures
        match map_get(v@, key@) {
            Some(x) => r matches Some(s) && s@ == x,
            None => r is None,
        },
{
    let mut i: usize = v.len();
    assert(v@.take(v@.len() as int) == v@);
    while i > 0
        invariant
            i <= v@.len(),
            map_get(v@, key@) == map_get(v@.take(i as int), key@),
        decreases i,
    {
        assert(v@.take(i as int).drop_last() == v@.take(i - 1));
        if str_is(&v[i - 1].0, key.as_str()) {
            return Some(v[i - 1].1.clone());
        }
        i -= 1;
    }
    None
}

/// The public name of the first export source that declares `dn` and is required.
pub open spec fn first_public(srcs: Seq<(String, String)>, dn: Seq<char>, req: Seq<String>, e: int) -> Option<Seq<char>>
    decreases srcs.len() - e,
{
    if e < 0 || e >= srcs.len() {
        None
    } else if srcs[e].1@ == dn && has_string(req, srcs[e].0@) {
        Some(srcs[e].0@)
    } else {
        first_public(srcs, dn, req, e + 1)
    }
}

/// What linking keeps of `item`, a declaration of a module: nothing (`None`) for imports,
/// export aliases and (in a dependency) exports nobody requires; the item without its
/// export flag otherwise, renamed to the local name it is imported under when a required
/// export of the dependency declares it under another name (extension functions keep
/// their names). `req`, `loc` and `srcs` are the dependency's required exports, their
/// local names and its export sources.
pub open spec fn link_item(
    item: AstNode,
    o: Option<AstNode>,
    is_entry: bool,
    req: Seq<String>,
    loc: Seq<(String, String)>,
    srcs: Seq<(String, String)>,
) -> bool {
    if item is Import || item is ExportAlias {
        o is None
    } else if is_entry {
        o == Some(without_export(item))
    } else {
        match named_export(item) {
            Some((dn, exported)) => if exported && !has_string(req, dn) {
                o is None
            } else {
                match first_public(srcs, dn, req, 0) {
                    Some(p) => {
                        let local = match map_get(loc, p) { Some(l) => l, None => p };
                        if !(item matches AstNode::Function { extension_receiver: Some(_), .. }) && local != dn {
                            o matches Some(x) && exists|l: String| l@ == local && x == renamed(without_export(item), l)
                        } else {
                            o == Some(without_export(item))
                        }
                    },
                    None => o == Some(without_export(item)),
                }
            },
            None => o == Some(without_export(item)),
        }
    }
}

/// `outs` is what linking keeps of `items`, in order.
pub open spec fn linked_seq(
    items: Seq<AstNode>,
    outs: Seq<AstNode>,
    is_entry: bool,
    req: Seq<String>,
    loc: Seq<(String, String)>,
    srcs: Seq<(String, String)>,
) -> bool
    decreases items.len(),
{
    if items.len() == 0 {
        outs.len() == 0
    } else if link_item(items.last(), None, is_entry, req, loc, srcs) {
        linked_seq(items.drop_last(), outs, is_entry, req, loc, srcs)
    } else {
        &&& outs.len() > 0
        &&& link_item(items.last(), Some(outs.last()), is_entry, req, loc, srcs)
        &&& linked_seq(items.drop_last(), outs.drop_last(), is_entry, req, loc, srcs)
    }
}

/// An item of a linked program: no imports or export aliases, nothing exported.
pub open spec fn linked_item(n: AstNode) -> bool {
    &&& !(n is Import)
    &&& !(n is ExportAlias)
    &&& (named_export(n) matches Some((_, e)) ==> !e)
}

proof fn lemma_link_item_linked(
    item: AstNode,
    x: AstNode,
    is_entry: bool,
    req: Seq<String>,
    loc: Seq<(String, String)>,
    srcs: Seq<(String, String)>,
)
    requires
        link_item(item, Some(x), is_entry, req, loc, srcs),
    ensures
        linked_item(x),
{
}

/// Merges the modules (in load order) into one program: the entry module keeps all of
/// its declarations; a dependency keeps its internal declarations and the exported
/// ones the program imports, each under the name it is imported as (see `link_item`).
/// Imports, export aliases and export flags are dropped.
pub fn link_modules(
    modules: Vec<LinkedModule>,
    entry: usize,
    required: &Vec<Vec<String>>,
    locals: &Vec<Vec<(String, String)>>,
) -> (r: AstNode)
    requires
        required@.len() == modules@.len(),
        locals@.len() == modules@.len(),
    ensures
        r matches AstNode::Program(out) && {
            &&& forall|i: int| 0 <= i < out@.len() ==> linked_item(#[trigger] out@[i])
            &&& exists|parts: Seq<Seq<AstNode>>| {
                &&& parts.len() == modules@.len()
                &&& out@ == parts.flatten()
                &&& forall|m: int| 0 <= m < modules@.len() ==> linked_seq(
                    modules@[m].data.items@,
                    #[trigger] parts[m],
                    m == entry,
                    required@[m]@,
                    locals@[m]@,
                    modules@[m].data.export_sources@,
                )
            }
        },
{
    let ghost n = modules@.len();
    let ghost mods = modules@;
    assert(modules@.len() == modules.len());
    let mut merged: Vec<AstNode> = Vec::new();
    let mut rest = modules;
    let mut idx: usize = 0;
    let ghost mut parts: Seq<Seq<AstNode>> = Seq::empty();
    while rest.len() > 0
        invariant
            idx + rest@.len() == n,
            n == mods.len(),
            rest@ == mods.skip(idx as int),
            n <= usize::MAX,
            required@.len() == n,
            locals@.len() == n,
            forall|i: int| 0 <= i < merged@.len() ==> linked_item(#[trigger] merged@[i]),
            parts.len() == idx,
            merged@ == parts.flatten(),
            forall|m: int| 0 <= m < idx ==> linked_seq(
                mods[m].data.items@,
                #[trigger] parts[m],
                m == entry,
                required@[m]@,
                locals@[m]@,
                mods[m].data.export_sources@,
            ),
        decreases rest@.len(),
    {
        let LinkedModule { path: _, data, deps: _ } = rest.remove(0);
        assert(data == mods[idx as int].data);
        let ModuleData { items, imports: _, exports: _, export_sources } = data;
        let req = &required[idx];
        let loc = &locals[idx];
        let ghost all = items@;
        let ghost is_entry = idx == entry;
        let ghost merged0 = merged@;
        let mut items = items;
        let total = items.len();
        let mut k: usize = 0;
        let ghost mut part: Seq<AstNode> = Seq::empty();
        assert(all.take(0) =~= Seq::<AstNode>::empty());
        assert(merged@ =~= merged0 + part);
        while items.len() > 0
            invariant
                total == all.len(),
                is_entry == (idx == entry),
                all == mods[idx as int].data.items@,
                req@ == required@[idx as int]@,
                loc@ == locals@[idx as int]@,
                export_sources@ == mods[idx as int].data.export_sources@,
                k + items@.len() == all.len(),
                items@ == all.skip(k as int),
                forall|i: int| 0 <= i < merged@.len() ==> linked_item(#[trigger] merged@[i]),
                merged@ == merged0 + part,
                linked_seq(all.take(k as int), part, is_entry, req@, loc@, export_sources@),
            decreases items@.len(),
        {
            let item = items.remove(0);
            proof {
                assert(item == all[k as int]);
                assert(all.take(k + 1).drop_last() =~= all.take(k as int));
                assert(all.take(k + 1).last() == item);
            }
            assert(items@ =~= all.skip(k + 1));
            let out = link_one(item, idx == entry, req, loc, &export_sources);
            match out {
                Some(x) => {
                    proof { lemma_link_item_linked(all[k as int], x, is_entry, req@, loc@, export_sources@); }
                    let ghost m0 = merged@;
                    merged.push(x);
                    proof {
                        assert(part.push(x).drop_last() =~= part);
                        part = part.push(x);
                        assert(merged@ =~= merged0 + part);
                    }
                },
                None => {},
            }
            k += 1;
        }
        assert(all.take(k as int) =~= all);
        proof {
            let p0 = parts;
            parts = parts.push(part);
            assert(parts.drop_last() =~= p0);
            assert(parts.flatten() =~= p0.flatten() + part) by {
                lemma_flatten_push(p0, part);
            }
            assert forall|m: int| 0 <= m < idx + 1 implies linked_seq(
                mods[m].data.items@,
                #[trigger] parts[m],
                m == entry,
                required@[m]@,
                locals@[m]@,
                mods[m].data.export_sources@,
            ) by {
                if m < idx {
                    assert(parts[m] == p0[m]);
                }
            }
        }
        assert(rest@ =~= mods.skip(idx + 1));
        idx += 1;
    }
    AstNode::Program(merged)
}

proof fn lemma_flatten_push(p: Seq<Seq<AstNode>>, x: Seq<AstNode>)
    ensures
        p.push(x).flatten() == p.flatten() + x,
{
    p.lemma_flatten_push(x);
}

/// What linking keeps of one item (see `link_item`).
fn link_one(
    item: AstNode,
    is_entry: bool,
    req: &Vec<String>,
    loc: &Vec<(String, String)>,
    export_sources: &Vec<(String, String)>,
) -> (r: Option<AstNode>)
    ensures
        link_item(item, r, is_entry, req@, loc@, export_sources@),
{
    if matches!(item, AstNode::Import { .. } | AstNode::ExportAlias { .. }) {
        return None;
    }
    if !is_entry {
        match item_named_export(&item) {
            Some((name, is_exported)) => {
                if is_exported && !contains_string(req, &name) {
                    return None;
                }
            },
            None => {},
        }
        match declaration_base_name(&item) {
            Some(dn) => {
                let mut public: Option<String> = None;
                let mut e: usize = 0;
                while e < export_sources.len()
                    invariant_except_break
                        public is None,
                    invariant
                        e <= export_sources@.len(),
                        first_public(export_sources@, dn@, req@, 0) == first_public(export_sources@, dn@, req@, e as int),
                    ensures
                        match public {
                            Some(p) => first_public(export_sources@, dn@, req@, 0) == Some(p@),
                            None => first_public(export_sources@, dn@, req@, 0) is None,
                        },
                    decreases export_sources@.len() - e,
                {
                    if str_is(&export_sources[e].1, dn.as_str()) && contains_string(req, &export_sources[e].0) {
                        public = Some(export_sources[e].0.clone());
                        break;
                    }
                    e += 1;
                }
                match public {
                    Some(public) => {
                        let local = match map_lookup(loc, &public) {
                            Some(l) => l,
                            None => public.clone(),
                        };
                        let is_extension = extension_method(&item);
                        if !is_extension && !str_is(&local, dn.as_str()) {
                            return Some(rename_declaration(strip_export(item), &local));
                        } else {
                            return Some(strip_export(item));
                        }
                    },
                    None => {},
                }
            },
            None => {},
        }
    }
    Some(strip_export(item))
}

} // verus!
