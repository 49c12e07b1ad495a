use axumate::utils::file::{
    append_unless_present, current_mod_file, ensure_dir, ensure_mod_rs, ensure_pub_mod_decl,
    ensure_root_mod, manifest_header_of, module_dir,
};
use axumate::utils::target::{resolve, source_file_of, subdir_of, Kind, Layout};
use axumate::utils::tree::{
    file_name_of, join_path, parent_of, ErrorKind, ScaffoldError, SourceTree,
};

fn sorted(mut v: Vec<String>) -> Vec<String> {
    v.sort();
    v
}

fn kind_and_path<T: std::fmt::Debug>(r: Result<T, ScaffoldError>) -> (ErrorKind, String) {
    let e = r.unwrap_err();
    (e.kind, e.path)
}

#[test]
fn paths_are_taken_apart_at_the_last_slash() {
    assert_eq!(parent_of("src/order/mod.rs"), "src/order");
    assert_eq!(parent_of("mod.rs"), "");
    assert_eq!(parent_of("/x"), "");
    assert_eq!(parent_of(""), "");
    assert_eq!(file_name_of("src/order/mod.rs"), "mod.rs");
    assert_eq!(file_name_of("order"), "order");
    assert_eq!(file_name_of("order/"), "");
    assert_eq!(join_path("src", "order"), "src/order");
    assert_eq!(join_path("", "order"), "/order");
}

#[test]
fn module_dir_is_under_src() {
    assert_eq!(module_dir("order"), "src/order");
    assert_eq!(module_dir(""), "src/");
}

#[test]
fn current_mod_file_is_the_root_manifest_in_src() {
    assert_eq!(current_mod_file("src"), "lib.rs");
    assert_eq!(current_mod_file("order"), "mod.rs");
    assert_eq!(current_mod_file(""), "mod.rs");
    assert_eq!(current_mod_file("Src"), "mod.rs");
}

#[test]
fn resolve_nested() {
    let p = resolve(Kind::Controller, "product", Layout::Nested);
    assert_eq!(p.module_dir, "src/product");
    assert_eq!(p.dir, "src/product");
    assert_eq!(p.stem, "product_controller");
    assert_eq!(p.file, "src/product/product_controller.rs");
    let p = resolve(Kind::Service, "product", Layout::Nested);
    assert_eq!(p.file, "src/product/product_service.rs");
    let p = resolve(Kind::Dto, "product", Layout::Nested);
    assert_eq!(p.module_dir, "src/product");
    assert_eq!(p.dir, "src/product/dto");
    assert_eq!(p.stem, "product_dto");
    assert_eq!(p.file, "src/product/dto/product_dto.rs");
    let p = resolve(Kind::Entity, "product", Layout::Nested);
    assert_eq!(p.dir, "src/product/entities");
    assert_eq!(p.file, "src/product/entities/product_entity.rs");
}

#[test]
fn resolve_standalone() {
    let p = resolve(Kind::Controller, "product", Layout::Standalone);
    assert_eq!(p.module_dir, "product");
    assert_eq!(p.dir, "product");
    assert_eq!(p.file, "product/product_controller.rs");
    let p = resolve(Kind::Dto, "product", Layout::Standalone);
    assert_eq!(p.dir, "product");
    assert_eq!(p.file, "product/product_dto.rs");
    let p = resolve(Kind::Entity, "product", Layout::Standalone);
    assert_eq!(p.file, "product/product_entity.rs");
}

#[test]
fn resolve_middleware_is_one_file_for_all() {
    for layout in [Layout::Standalone, Layout::Nested] {
        let p = resolve(Kind::Middleware, "auth", layout);
        assert_eq!(p.module_dir, "src");
        assert_eq!(p.dir, "src");
        assert_eq!(p.stem, "middlewares");
        assert_eq!(p.file, "src/middlewares.rs");
    }
}

#[test]
fn subdirs_and_source_files() {
    assert_eq!(subdir_of(Kind::Dto, Layout::Nested), Some("dto".to_string()));
    assert_eq!(subdir_of(Kind::Entity, Layout::Nested), Some("entities".to_string()));
    assert_eq!(subdir_of(Kind::Controller, Layout::Nested), None);
    assert_eq!(subdir_of(Kind::Dto, Layout::Standalone), None);
    assert_eq!(source_file_of("a/b", "c"), "a/b/c.rs");
}

#[test]
fn new_tree_is_empty() {
    let tree = SourceTree::new();
    assert!(tree.dir_paths().is_empty());
    assert!(tree.file_paths().is_empty());
    assert!(!tree.has("src"));
    assert_eq!(tree.content("src/lib.rs"), None);
}

#[test]
fn add_and_look_up() {
    let mut tree = SourceTree::new();
    tree.add_dir("src");
    tree.add_file("src/lib.rs", "one");
    tree.add_file("src/main.rs", "two");
    tree.add_file("src/lib.rs", "three");
    assert!(tree.is_dir("src"));
    assert!(!tree.is_file("src"));
    assert!(tree.is_file("src/lib.rs"));
    assert!(!tree.is_dir("src/lib.rs"));
    assert!(tree.has("src") && tree.has("src/main.rs") && !tree.has("lib.rs"));
    assert_eq!(tree.content("src/lib.rs"), Some("three".to_string()));
    assert_eq!(tree.content("src/main.rs"), Some("two".to_string()));
    assert_eq!(sorted(tree.file_paths()), vec!["src/lib.rs", "src/main.rs"]);
    assert_eq!(tree.dir_paths(), vec!["src"]);
}

#[test]
fn read_tells_why_it_fails() {
    let mut tree = SourceTree::new();
    tree.add_dir("src");
    tree.add_file("src/lib.rs", "text");
    assert_eq!(tree.read("src/lib.rs").unwrap(), "text");
    assert_eq!(kind_and_path(tree.read("src")), (ErrorKind::IsADirectory, "src".to_string()));
    assert_eq!(kind_and_path(tree.read("src/x.rs")), (ErrorKind::NotFound, "src/x.rs".to_string()));
}

#[test]
fn write_needs_the_directory() {
    let mut tree = SourceTree::new();
    tree.write("lib.rs", "at the root").unwrap();
    assert_eq!(tree.content("lib.rs"), Some("at the root".to_string()));
    assert_eq!(
        kind_and_path(tree.write("src/lib.rs", "x")),
        (ErrorKind::NotFound, "src/lib.rs".to_string())
    );
    assert_eq!(
        kind_and_path(tree.write("lib.rs/x.rs", "x")),
        (ErrorKind::NotADirectory, "lib.rs/x.rs".to_string())
    );
    tree.add_dir("src");
    assert_eq!(kind_and_path(tree.write("src", "x")), (ErrorKind::IsADirectory, "src".to_string()));
    tree.write("src/lib.rs", "x").unwrap();
    tree.write("src/lib.rs", "y").unwrap();
    assert_eq!(tree.content("src/lib.rs"), Some("y".to_string()));
    assert_eq!(tree.file_paths().len(), 2);
}

#[test]
fn error_messages_name_the_path() {
    let e = ScaffoldError { kind: ErrorKind::NotFound, path: "src/main.rs".to_string() };
    assert_eq!(e.message(), "no such file or directory: src/main.rs");
    let e = ScaffoldError { kind: ErrorKind::NotADirectory, path: "a/b".to_string() };
    assert_eq!(e.message(), "not a directory: a/b");
    let e = ScaffoldError { kind: ErrorKind::IsADirectory, path: "a".to_string() };
    assert_eq!(e.message(), "is a directory: a");
}

#[test]
fn ensure_dir_makes_the_directories_above() {
    let mut tree = SourceTree::new();
    assert_eq!(ensure_dir(&mut tree, "src/order/dto").unwrap(), "src/order/dto");
    assert_eq!(sorted(tree.dir_paths()), vec!["src", "src/order", "src/order/dto"]);
    ensure_dir(&mut tree, "src/order/dto").unwrap();
    ensure_dir(&mut tree, "src/order").unwrap();
    assert_eq!(sorted(tree.dir_paths()), vec!["src", "src/order", "src/order/dto"]);
    assert!(tree.file_paths().is_empty());
}

#[test]
fn ensure_dir_fails_on_a_file_in_the_way() {
    let mut tree = SourceTree::new();
    tree.add_dir("src");
    tree.add_file("src/order", "a file");
    assert_eq!(
        kind_and_path(ensure_dir(&mut tree, "src/order/dto")),
        (ErrorKind::NotADirectory, "src/order/dto".to_string())
    );
    assert_eq!(
        kind_and_path(ensure_dir(&mut tree, "src/order")),
        (ErrorKind::NotADirectory, "src/order".to_string())
    );
    assert_eq!(tree.dir_paths(), vec!["src"]);
}

#[test]
fn manifest_header_names_the_directory() {
    assert_eq!(manifest_header_of("src/order"), "// module: order\n\n");
    assert_eq!(manifest_header_of("order"), "// module: order\n\n");
    assert_eq!(manifest_header_of("src/.."), "// module: ?\n\n");
    assert_eq!(manifest_header_of(""), "// module: ?\n\n");
}

#[test]
fn ensure_mod_rs_makes_a_manifest_once() {
    let mut tree = SourceTree::new();
    ensure_dir(&mut tree, "src/order").unwrap();
    assert_eq!(ensure_mod_rs(&mut tree, "src/order").unwrap(), "src/order/mod.rs");
    assert_eq!(tree.content("src/order/mod.rs"), Some("// module: order\n\n".to_string()));
    tree.write("src/order/mod.rs", "mine\n").unwrap();
    ensure_mod_rs(&mut tree, "src/order").unwrap();
    assert_eq!(tree.content("src/order/mod.rs"), Some("mine\n".to_string()));
}

#[test]
fn ensure_mod_rs_needs_the_directory() {
    let mut tree = SourceTree::new();
    assert_eq!(
        kind_and_path(ensure_mod_rs(&mut tree, "src/order")),
        (ErrorKind::NotFound, "src/order/mod.rs".to_string())
    );
}

#[test]
fn ensure_pub_mod_decl_declares_once() {
    let mut tree = SourceTree::new();
    ensure_pub_mod_decl(&mut tree, "src/order/mod.rs", "dto").unwrap();
    assert_eq!(sorted(tree.dir_paths()), vec!["src", "src/order"]);
    assert_eq!(tree.content("src/order/mod.rs"), Some("pub mod dto;\n".to_string()));
    ensure_pub_mod_decl(&mut tree, "src/order/mod.rs", "entities").unwrap();
    ensure_pub_mod_decl(&mut tree, "src/order/mod.rs", "dto").unwrap();
    assert_eq!(
        tree.content("src/order/mod.rs"),
        Some("pub mod dto;\npub mod entities;\n".to_string())
    );
}

#[test]
fn ensure_pub_mod_decl_at_the_root_of_the_tree() {
    let mut tree = SourceTree::new();
    ensure_pub_mod_decl(&mut tree, "mod.rs", "order").unwrap();
    assert_eq!(tree.content("mod.rs"), Some("pub mod order;\n".to_string()));
    assert!(tree.dir_paths().is_empty());
}

#[test]
fn ensure_pub_mod_decl_cannot_read_a_directory() {
    let mut tree = SourceTree::new();
    tree.add_dir("mod.rs");
    assert_eq!(
        kind_and_path(ensure_pub_mod_decl(&mut tree, "mod.rs", "order")),
        (ErrorKind::IsADirectory, "mod.rs".to_string())
    );
}

#[test]
fn ensure_root_mod_makes_the_root_manifest() {
    let mut tree = SourceTree::new();
    ensure_root_mod(&mut tree, "order").unwrap();
    assert_eq!(tree.dir_paths(), vec!["src"]);
    assert_eq!(
        tree.content("src/lib.rs"),
        Some("// auto-generated lib.rs\n\npub mod order;\n".to_string())
    );
    ensure_root_mod(&mut tree, "order").unwrap();
    ensure_root_mod(&mut tree, "product").unwrap();
    assert_eq!(
        tree.content("src/lib.rs"),
        Some("// auto-generated lib.rs\n\npub mod order;\npub mod product;\n".to_string())
    );
}

#[test]
fn ensure_root_mod_fails_where_src_is_a_file() {
    let mut tree = SourceTree::new();
    tree.add_file("src", "a file");
    assert_eq!(
        kind_and_path(ensure_root_mod(&mut tree, "order")),
        (ErrorKind::NotADirectory, "src".to_string())
    );
}

#[test]
fn append_unless_present_appends_once() {
    let mut tree = SourceTree::new();
    tree.add_file("mod.rs", "pub mod a;\n");
    append_unless_present(&mut tree, "mod.rs", "fn routes", "fn routes() {}\n").unwrap();
    assert_eq!(tree.content("mod.rs"), Some("pub mod a;\nfn routes() {}\n".to_string()));
    append_unless_present(&mut tree, "mod.rs", "fn routes", "fn routes() {}\n").unwrap();
    assert_eq!(tree.content("mod.rs"), Some("pub mod a;\nfn routes() {}\n".to_string()));
    assert_eq!(
        kind_and_path(append_unless_present(&mut tree, "lib.rs", "x", "y")),
        (ErrorKind::NotFound, "lib.rs".to_string())
    );
}

#[test]
fn no_path_becomes_both_file_and_directory() {
    let mut tree = SourceTree::new();
    assert!(tree.add_dir("src"));
    assert!(tree.add_file("src/lib.rs", "text"));
    assert!(!tree.add_file("src", "text"));
    assert!(!tree.add_dir("src/lib.rs"));
    assert!(tree.add_dir("src"));
    assert!(tree.add_file("src/lib.rs", "more"));
    tree.consistency();
    assert!(tree.is_dir("src") && !tree.is_file("src"));
    assert!(tree.is_file("src/lib.rs") && !tree.is_dir("src/lib.rs"));
    assert_eq!(tree.content("src/lib.rs"), Some("more".to_string()));
    assert_eq!(tree.dir_paths(), vec!["src"]);
    assert_eq!(tree.file_paths(), vec!["src/lib.rs"]);
    for path in tree.file_paths() {
        assert!(!tree.is_dir(&path));
    }
}
