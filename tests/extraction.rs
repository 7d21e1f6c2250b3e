use astrograph_engine::parser::{module_path_from_file, normalize_call_name};
use astrograph_engine::{analyze_file, Language, Symbol, SymbolKind};
use sha2::Digest;

fn sha_hex(text: &str) -> String {
    hex::encode(sha2::Sha256::digest(text.as_bytes()))
}

fn find<'a>(symbols: &'a [Symbol], fq: &str) -> &'a Symbol {
    symbols.iter().find(|s| s.fq_name == fq).expect("symbol present")
}

#[test]
fn rust_function_with_local_call() {
    let src = b"pub fn main() { helper(); }\nfn helper() {}\n";
    let parsed = analyze_file(src, "src/lib.rs", Language::Rust).unwrap();
    assert_eq!(parsed.symbols.len(), 2);
    let main = find(&parsed.symbols, "src::lib::main");
    let helper = find(&parsed.symbols, "src::lib::helper");
    assert_eq!(main.kind, SymbolKind::Function);
    assert!(main.is_exported);
    assert!(main.is_entrypoint);
    assert_eq!(helper.kind, SymbolKind::Function);
    assert!(!helper.is_exported);
    assert!(!helper.is_entrypoint);
    assert_eq!(main.container, None);
    assert_eq!(parsed.calls.len(), 1);
    let call = &parsed.calls[0];
    assert_eq!(call.callee_name, "helper");
    assert_eq!(call.caller_id, main.id);
    assert_eq!(call.callee_id, None);
    assert_eq!(call.file, "src/lib.rs");
}

#[test]
fn symbol_and_call_ids_are_digests_of_their_seeds() {
    let src = b"pub fn main() { helper(); }\nfn helper() {}\n";
    let parsed = analyze_file(src, "src/lib.rs", Language::Rust).unwrap();
    let main = find(&parsed.symbols, "src::lib::main");
    assert_eq!(main.span.start_line, 1);
    assert_eq!(main.span.start_col, 1);
    assert_eq!(main.span.end_line, 1);
    assert_eq!(main.span.end_col, 28);
    assert_eq!(main.id, sha_hex("symbol:src/lib.rs:function:src::lib::main:1:1:1:28:rust"));
    let call = &parsed.calls[0];
    let seed = format!(
        "call:{}:helper:src/lib.rs:{}:{}:{}:{}:rust",
        main.id, call.span.start_line, call.span.start_col, call.span.end_line, call.span.end_col
    );
    assert_eq!(call.id, sha_hex(&seed));
}

#[test]
fn editing_a_body_keeps_ids_of_symbols_before_it() {
    let a = b"fn first() {}\nfn second() { work(); }\n";
    let b = b"fn first() {}\nfn second() { other_work(); }\n";
    let pa = analyze_file(a, "m.rs", Language::Rust).unwrap();
    let pb = analyze_file(b, "m.rs", Language::Rust).unwrap();
    assert_eq!(find(&pa.symbols, "m::first").id, find(&pb.symbols, "m::first").id);
    assert_ne!(pa.calls[0].id, pb.calls[0].id);
}

#[test]
fn typescript_exported_class_with_method() {
    let src = b"export class Foo { bar() { this.bar(); } }\n";
    let parsed = analyze_file(src, "a.ts", Language::TypeScript).unwrap();
    let foo = find(&parsed.symbols, "a::Foo");
    assert_eq!(foo.kind, SymbolKind::Class);
    assert!(foo.is_exported);
    assert!(foo.is_entrypoint);
    let bar = find(&parsed.symbols, "a::Foo::bar");
    assert_eq!(bar.kind, SymbolKind::Method);
    assert_eq!(bar.container.as_deref(), Some("Foo"));
    assert_eq!(parsed.calls.len(), 1);
    assert_eq!(parsed.calls[0].callee_name, "this.bar");
    assert_eq!(parsed.calls[0].caller_id, bar.id);
}

#[test]
fn rust_impl_and_trait_scopes() {
    let src = b"struct S;\nimpl S { fn m(&self) { S::make(); } }\npub trait T { fn f(); }\nmod inner { pub enum E { A } }\n";
    let parsed = analyze_file(src, "lib.rs", Language::Rust).unwrap();
    let s = find(&parsed.symbols, "lib::S");
    assert_eq!(s.kind, SymbolKind::Struct);
    let m = find(&parsed.symbols, "lib::S::m");
    assert_eq!(m.kind, SymbolKind::Method);
    assert_eq!(m.container.as_deref(), Some("S"));
    let t = find(&parsed.symbols, "lib::T");
    assert_eq!(t.kind, SymbolKind::Trait);
    assert!(t.is_exported);
    let f = find(&parsed.symbols, "lib::T::f");
    assert_eq!(f.kind, SymbolKind::Method);
    assert!(!f.is_exported);
    let inner = find(&parsed.symbols, "lib::inner");
    assert_eq!(inner.kind, SymbolKind::Module);
    let e = find(&parsed.symbols, "lib::inner::E");
    assert_eq!(e.kind, SymbolKind::Enum);
    assert!(e.is_exported);
    assert_eq!(parsed.calls.len(), 1);
    assert_eq!(parsed.calls[0].callee_name, "S::make");
}

#[test]
fn rust_method_call_and_generic_call_names() {
    let src = b"fn run() { let v = Vec::<u8>::new(); v.len(); }\n";
    let parsed = analyze_file(src, "run.rs", Language::Rust).unwrap();
    let mut names: Vec<&str> = parsed.calls.iter().map(|c| c.callee_name.as_str()).collect();
    names.sort();
    assert_eq!(names, vec!["Vec::", "v.len"]);
}

#[test]
fn javascript_arrow_function_and_new_expression() {
    let src = b"const make = () => new Widget();\nfunction go() { make(); }\n";
    let parsed = analyze_file(src, "web/index.js", Language::JavaScript).unwrap();
    let make = find(&parsed.symbols, "web::make");
    assert_eq!(make.kind, SymbolKind::Function);
    assert!(!make.is_exported);
    let go = find(&parsed.symbols, "web::go");
    assert_eq!(go.kind, SymbolKind::Function);
    let mut names: Vec<&str> = parsed.calls.iter().map(|c| c.callee_name.as_str()).collect();
    names.sort();
    assert_eq!(names, vec!["Widget", "make"]);
}

#[test]
fn tsx_interface_and_enum() {
    let src = b"export interface Props { x: number }\nenum Color { Red }\nexport function View() { return null; }\n";
    let parsed = analyze_file(src, "ui/view.tsx", Language::Tsx).unwrap();
    assert_eq!(find(&parsed.symbols, "ui::view::Props").kind, SymbolKind::Interface);
    let color = find(&parsed.symbols, "ui::view::Color");
    assert_eq!(color.kind, SymbolKind::Enum);
    assert!(!color.is_entrypoint);
    let view = find(&parsed.symbols, "ui::view::View");
    assert!(view.is_exported);
}

#[test]
fn calls_outside_functions_are_not_recorded() {
    let parsed = analyze_file(b"setup();\n", "boot.js", Language::JavaScript).unwrap();
    assert!(parsed.symbols.is_empty());
    assert!(parsed.calls.is_empty());
}

#[test]
fn empty_source_has_no_symbols() {
    let parsed = analyze_file(b"", "empty.rs", Language::Rust).unwrap();
    assert!(parsed.symbols.is_empty());
    assert!(parsed.calls.is_empty());
}

#[test]
fn module_paths_of_files() {
    assert_eq!(module_path_from_file("src/lib.rs"), "src::lib");
    assert_eq!(module_path_from_file("src/net/mod.rs"), "src::net");
    assert_eq!(module_path_from_file("web/index.ts"), "web");
    assert_eq!(module_path_from_file("a.ts"), "a");
    assert_eq!(module_path_from_file("types/c.d.ts"), "types::c.d");
    assert_eq!(module_path_from_file("index.js"), "");
    assert_eq!(module_path_from_file("Makefile"), "Makefile");
}

#[test]
fn call_names_are_trimmed_and_cut_before_generics() {
    assert_eq!(normalize_call_name("  helper \n"), "helper");
    assert_eq!(normalize_call_name("Vec::<u8>::new"), "Vec::");
    assert_eq!(normalize_call_name("make<T>"), "make");
    assert_eq!(normalize_call_name(""), "");
}

#[test]
fn invalid_utf8_is_decoded_lossily() {
    let parsed = analyze_file(b"// \xff\xfe\nfn ok() {}\n", "bad.rs", Language::Rust).unwrap();
    assert_eq!(parsed.symbols.len(), 1);
    assert_eq!(parsed.symbols[0].name, "ok");
    assert_eq!(parsed.symbols[0].span.start_line, 2);
}
