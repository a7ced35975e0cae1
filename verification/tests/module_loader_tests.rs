use vibelang::ast::AstNode;
use vibelang::module_loader::{
    check_imports_exported, collect_required_exports, link_modules, module_data_from_items,
    parse_module_source, LinkedModule, ModuleLoadError,
};

fn module(path: &str, src: &str, deps: Vec<usize>) -> LinkedModule {
    let data = parse_module_source(&path.to_string(), src).expect("module parses");
    LinkedModule { path: path.to_string(), data, deps }
}

fn decl_names(ast: &AstNode) -> Vec<(String, bool)> {
    let AstNode::Program(items) = ast else {
        panic!("program");
    };
    items
        .iter()
        .filter_map(|n| match n {
            AstNode::Function { name, is_exported, .. } => Some((name.clone(), *is_exported)),
            AstNode::StructDef { name, is_exported, .. } => Some((name.clone(), *is_exported)),
            _ => None,
        })
        .collect()
}

#[test]
fn module_data_lists_imports_and_exports() {
    let m = module(
        "a.vc",
        "import { foo, bar as baz } from \"./b\";\nexport func f() { }\nfunc g() { }\nexport f as h;",
        vec![],
    );
    assert_eq!(m.data.imports.len(), 1);
    assert_eq!(m.data.imports[0].source_path, "./b");
    assert_eq!(
        m.data.imports[0].bindings,
        vec![("foo".to_string(), "foo".to_string()), ("bar".to_string(), "baz".to_string())]
    );
    assert_eq!(m.data.exports, vec!["f".to_string(), "h".to_string()]);
    assert_eq!(
        m.data.export_sources,
        vec![("f".to_string(), "f".to_string()), ("h".to_string(), "f".to_string())]
    );
}

#[test]
fn module_data_from_empty_items() {
    let d = module_data_from_items(Vec::new());
    assert!(d.items.is_empty() && d.imports.is_empty() && d.exports.is_empty());
}

#[test]
fn parse_error_carries_module_path() {
    let err = parse_module_source(&"bad.vc".to_string(), "func (").err().expect("error");
    assert_eq!(err.path, Some("bad.vc".to_string()));
    assert!(err.message.contains("parse error"));
}

#[test]
fn missing_export_is_reported() {
    let a = module("a.vc", "import { nope } from \"./b\";", vec![0]);
    let b = module("b.vc", "export func yes() { }", vec![]);
    let err: ModuleLoadError =
        check_imports_exported(&a.path, &a.data.imports[0], &b.data.exports).unwrap_err();
    assert_eq!(err.path, Some("a.vc".to_string()));
    assert_eq!(err.message, "module `./b` does not export `nope`");
    let ok = module("c.vc", "import { yes } from \"./b\";", vec![0]);
    assert!(check_imports_exported(&ok.path, &ok.data.imports[0], &b.data.exports).is_ok());
}

#[test]
fn link_keeps_imported_exports_under_local_names() {
    let b = module(
        "b.vc",
        "export func foo() { }\nexport func unused() { }\nfunc helper() { }",
        vec![],
    );
    let a = module("a.vc", "import { foo as f } from \"./b\";\nfunc main() { f(); }", vec![0]);
    let modules = vec![b, a];
    let (required, locals) = collect_required_exports(&modules, 1);
    assert_eq!(required[0], vec!["foo".to_string()]);
    assert_eq!(locals[0], vec![("foo".to_string(), "f".to_string())]);
    let program = link_modules(modules, 1, &required, &locals);
    assert_eq!(
        decl_names(&program),
        vec![("f".to_string(), false), ("helper".to_string(), false), ("main".to_string(), false)]
    );
    let AstNode::Program(items) = &program else {
        panic!("program");
    };
    assert!(items.iter().all(|n| !matches!(n, AstNode::Import { .. })));
}

#[test]
fn importing_a_type_pulls_its_extension_functions() {
    let b = module(
        "b.vc",
        "export struct Counter { n: Int }\nexport func Counter::get(self): Int { return self.n; }\nexport func other() { }",
        vec![],
    );
    let a = module("a.vc", "import { Counter } from \"./b\";\nfunc main() { }", vec![0]);
    let modules = vec![b, a];
    let (required, _) = collect_required_exports(&modules, 1);
    assert_eq!(required[0], vec!["Counter".to_string(), "Counter::get".to_string()]);
}

#[test]
fn entry_module_keeps_its_exported_items() {
    let a = module("a.vc", "export func main() { }", vec![]);
    let modules = vec![a];
    let (required, locals) = collect_required_exports(&modules, 0);
    let program = link_modules(modules, 0, &required, &locals);
    assert_eq!(decl_names(&program), vec![("main".to_string(), false)]);
}

#[test]
fn imports_of_every_reachable_module_are_required() {
    let c = module("c.vc", "export func deep() { }\nexport func spare() { }", vec![]);
    let b = module("b.vc", "import { deep } from \"./c\";\nexport func mid() { deep(); }", vec![0]);
    let a = module("a.vc", "import { mid } from \"./b\";\nfunc main() { mid(); }", vec![1]);
    let unrelated = module("d.vc", "import { spare } from \"./c\";", vec![0]);
    let modules = vec![c, b, a, unrelated];
    let (required, _) = collect_required_exports(&modules, 2);
    assert_eq!(required[1], vec!["mid".to_string()]);
    assert_eq!(required[0], vec!["deep".to_string()]);
    assert!(required[3].is_empty());
}

#[test]
fn module_source_keeps_every_top_level_item() {
    let data = parse_module_source(&"two.vc".to_string(), "func a() {}\nfunc b() { return; }\nlet c = 1;")
        .expect("module parses");
    assert_eq!(data.items.len(), 3);
}
