use axumate::commands::generate;
use axumate::commands::generate_item::{self, generate_middleware, Definition};
use axumate::commands::generate_module::{
    self, generate_module, module_texts, scaffold_controller, scaffold_module, ModuleTexts,
};
use axumate::commands::templates::generate_item_templates::{
    middleware_dependencies_template, middleware_function_template, simple_controller_template,
};
use axumate::commands::templates::generate_templates::{
    controller_template, dto_template, entity_template, service_template,
};
use axumate::commands::templates::new_templates::main_template;
use axumate::utils::manifest::is_declared;
use axumate::utils::root::Patch;
use axumate::utils::target::Kind;
use axumate::utils::tree::{ErrorKind, SourceTree};

fn sorted(mut v: Vec<String>) -> Vec<String> {
    v.sort();
    v
}

fn snapshot(tree: &SourceTree) -> (Vec<String>, Vec<(String, String)>) {
    let files = sorted(tree.file_paths())
        .into_iter()
        .map(|p| {
            let c = tree.content(&p).unwrap();
            (p, c)
        })
        .collect();
    (sorted(tree.dir_paths()), files)
}

fn project() -> SourceTree {
    let mut tree = SourceTree::new();
    tree.add_dir("src");
    tree.add_file("src/main.rs", &main_template("shop"));
    tree
}

fn count(hay: &str, needle: &str) -> usize {
    hay.matches(needle).count()
}

#[test]
fn nested_controller_product() {
    let mut tree = SourceTree::new();
    let file = generate::generate_controller(&mut tree, "product".to_string()).unwrap();
    assert_eq!(file, "src/product/product_controller.rs");
    assert!(tree.is_dir("src/product"));
    assert!(is_declared(&tree.content("src/product/mod.rs").unwrap(), "product_controller"));
    assert!(is_declared(&tree.content("src/lib.rs").unwrap(), "product"));
    assert_eq!(
        tree.content("src/product/mod.rs").unwrap(),
        "// module: product\n\npub mod product_controller;\n"
    );
    assert_eq!(tree.content("src/lib.rs").unwrap(), "// auto-generated lib.rs\n\npub mod product;\n");
    assert_eq!(tree.content(&file).unwrap(), controller_template("product"));
    assert_eq!(sorted(tree.dir_paths()), vec!["src", "src/product"]);
    assert_eq!(sorted(tree.file_paths()).len(), 3);
}

#[test]
fn module_order() {
    let mut tree = project();
    let report = generate_module(&mut tree, "order".to_string()).unwrap();
    assert_eq!(report.module, Patch::Applied);
    assert_eq!(report.route, Patch::Applied);
    assert_eq!(
        tree.content("src/order/entities/order_entity.rs").unwrap(),
        entity_template("order")
    );
    assert_eq!(tree.content("src/order/dto/order_dto.rs").unwrap(), dto_template("order"));
    assert_eq!(tree.content("src/order/order_service.rs").unwrap(), service_template("order"));
    assert_eq!(tree.content("src/order/order_controller.rs").unwrap(), controller_template("order"));
    assert_eq!(
        sorted(tree.dir_paths()),
        vec!["src", "src/order", "src/order/dto", "src/order/entities"]
    );
    let manifest = tree.content("src/order/mod.rs").unwrap();
    assert!(manifest.starts_with(
        "// module: order\n\npub mod entities;\npub mod dto;\npub mod order_service;\npub mod order_controller;\n\nuse axum::Router;\n"
    ));
    assert!(manifest.contains("pub fn routes() -> Router {\n"));
    assert!(manifest.contains("post(order_controller::create).get(order_controller::find_all)"));
    assert_eq!(
        tree.content("src/order/dto/mod.rs").unwrap(),
        "// module: dto\n\npub mod order_dto;\n"
    );
    assert_eq!(
        tree.content("src/order/entities/mod.rs").unwrap(),
        "// module: entities\n\npub mod order_entity;\n"
    );
    assert_eq!(tree.content("src/lib.rs").unwrap(), "// auto-generated lib.rs\n\npub mod order;\n");
    let main = tree.content("src/main.rs").unwrap();
    assert_eq!(count(&main, "mod order;"), 1);
    assert_eq!(count(&main, ".nest(\"/order\", order::routes())"), 1);
    assert!(main.contains("    Router\n};\nmod order;\n"));
    assert!(main.contains("        .unwrap()\n        .nest(\"/order\", order::routes());\n"));
}

#[test]
fn controller_product_twice() {
    let mut tree = SourceTree::new();
    generate::generate_controller(&mut tree, "product".to_string()).unwrap();
    let first = snapshot(&tree);
    generate::generate_controller(&mut tree, "product".to_string()).unwrap();
    assert_eq!(snapshot(&tree), first);
}

#[test]
fn middleware_auth_without_a_definitions_file() {
    let mut tree = project();
    let before = tree.content("src/main.rs").unwrap();
    let report = generate_middleware(&mut tree, "auth".to_string()).unwrap();
    assert_eq!(report.definition, Definition::Created);
    assert_eq!(report.module, Patch::Applied);
    assert_eq!(report.layer, Patch::Applied);
    assert_eq!(
        tree.content("src/middlewares.rs").unwrap(),
        format!("{}\n{}", middleware_dependencies_template(), middleware_function_template("auth"))
    );
    assert_eq!(count(&tree.content("src/middlewares.rs").unwrap(), "pub async fn "), 1);
    let main = tree.content("src/main.rs").unwrap();
    let line = "    .layer(middleware::from_fn(middlewares::auth_middleware))";
    assert_eq!(count(&main, line), 1);
    assert!(main.contains(&format!("let app = Router::new()\n{}\n        .route(", line)));
    assert_eq!(count(&main, "mod middlewares;"), 1);
    assert_eq!(main.len(), before.len() + "\nmod middlewares;".len() + line.len() + 1);
}

#[test]
fn every_generator_twice_changes_nothing_more() {
    let runs: Vec<(&str, fn(&mut SourceTree))> = vec![
        ("nested controller", |t| {
            generate::generate_controller(t, "product".to_string()).unwrap();
        }),
        ("nested service", |t| {
            generate::generate_service(t, "product".to_string()).unwrap();
        }),
        ("nested dto", |t| {
            generate::generate_dto(t, "product".to_string()).unwrap();
        }),
        ("nested entity", |t| {
            generate::generate_entity(t, "product".to_string()).unwrap();
        }),
        ("module controller", |t| {
            generate_module::generate_controller(t, "product".to_string()).unwrap();
        }),
        ("module service", |t| {
            generate_module::generate_service(t, "product".to_string()).unwrap();
        }),
        ("module dto", |t| {
            generate_module::generate_dto(t, "product".to_string()).unwrap();
        }),
        ("module entity", |t| {
            generate_module::generate_entity(t, "product".to_string()).unwrap();
        }),
        ("module", |t| {
            generate_module(t, "product".to_string()).unwrap();
        }),
        ("middleware", |t| {
            generate_middleware(t, "auth".to_string()).unwrap();
        }),
        ("stand-alone controller", |t| {
            generate_item::generate_controller(t, "product".to_string(), "src").unwrap();
        }),
        ("stand-alone service", |t| {
            generate_item::generate_service(t, "product".to_string(), "shop").unwrap();
        }),
        ("stand-alone dto", |t| {
            generate_item::generate_dto(t, "product".to_string(), "shop").unwrap();
        }),
        ("stand-alone entity", |t| {
            generate_item::generate_entity(t, "product".to_string(), "src").unwrap();
        }),
    ];
    for (what, run) in runs {
        let mut tree = project();
        run(&mut tree);
        let first = snapshot(&tree);
        run(&mut tree);
        assert_eq!(snapshot(&tree), first, "{}", what);
    }
}

#[test]
fn generators_in_any_order_declare_everything_once() {
    let mut tree = project();
    generate_module::generate_controller(&mut tree, "order".to_string()).unwrap();
    generate_middleware(&mut tree, "auth".to_string()).unwrap();
    generate_module(&mut tree, "order".to_string()).unwrap();
    generate::generate_dto(&mut tree, "order".to_string()).unwrap();
    generate_module(&mut tree, "product".to_string()).unwrap();
    generate_middleware(&mut tree, "log".to_string()).unwrap();
    generate_middleware(&mut tree, "auth".to_string()).unwrap();
    let lib = tree.content("src/lib.rs").unwrap();
    assert_eq!(lib, "// auto-generated lib.rs\n\npub mod order;\npub mod product;\n");
    let manifest = tree.content("src/order/mod.rs").unwrap();
    for child in ["order_controller", "entities", "dto", "order_service"] {
        assert_eq!(count(&manifest, &format!("pub mod {};\n", child)), 1, "{}", child);
    }
    assert_eq!(count(&manifest, "pub fn routes() -> Router"), 1);
    let main = tree.content("src/main.rs").unwrap();
    assert!(main.contains("    Router\n};\nmod middlewares;\nmod order;\nmod product;\n"));
    for text in [
        "mod order;",
        "mod product;",
        "mod middlewares;",
        ".nest(\"/order\", order::routes())",
        ".nest(\"/product\", product::routes())",
        "middlewares::auth_middleware",
        "middlewares::log_middleware",
    ] {
        assert_eq!(count(&main, text), 1, "{}", text);
    }
    let definitions = tree.content("src/middlewares.rs").unwrap();
    assert_eq!(count(&definitions, "pub async fn auth_middleware"), 1);
    assert_eq!(count(&definitions, "pub async fn log_middleware"), 1);
    assert_eq!(count(&definitions, "use axum::extract::Request;"), 1);
}

#[test]
fn standalone_controller_in_src_is_declared_in_the_root_manifest() {
    let mut tree = SourceTree::new();
    let file = generate_item::generate_controller(&mut tree, "product".to_string(), "src").unwrap();
    assert_eq!(file, "product/product_controller.rs");
    assert_eq!(tree.content(&file).unwrap(), simple_controller_template("product"));
    assert_eq!(
        tree.content("product/mod.rs").unwrap(),
        "// module: product\n\npub mod product_controller;\n"
    );
    assert_eq!(tree.content("lib.rs").unwrap(), "pub mod product;\n");
    assert_eq!(tree.dir_paths(), vec!["product"]);
}

#[test]
fn standalone_artifacts_elsewhere_are_declared_in_the_manifest_there() {
    let mut tree = SourceTree::new();
    tree.add_file("mod.rs", "// module: shop\n\n");
    generate_item::generate_service(&mut tree, "product".to_string(), "shop").unwrap();
    generate_item::generate_dto(&mut tree, "product".to_string(), "shop").unwrap();
    generate_item::generate_entity(&mut tree, "product".to_string(), "shop").unwrap();
    assert_eq!(tree.content("mod.rs").unwrap(), "// module: shop\n\npub mod product;\n");
    assert_eq!(
        tree.content("product/mod.rs").unwrap(),
        "// module: product\n\npub mod product_service;\npub mod product_dto;\npub mod product_entity;\n"
    );
    assert!(tree.is_file("product/product_service.rs"));
    assert!(tree.is_file("product/product_dto.rs"));
    assert!(tree.is_file("product/product_entity.rs"));
}

#[test]
fn module_without_a_composition_root_keeps_what_was_done() {
    let mut tree = SourceTree::new();
    let e = generate_module(&mut tree, "order".to_string()).unwrap_err();
    assert_eq!(e.kind, ErrorKind::NotFound);
    assert_eq!(e.path, "src/main.rs");
    assert_eq!(e.message(), "no such file or directory: src/main.rs");
    assert!(tree.is_file("src/order/order_controller.rs"));
    assert!(tree.is_file("src/order/order_service.rs"));
    assert!(tree.is_file("src/order/dto/order_dto.rs"));
    assert!(tree.is_file("src/order/entities/order_entity.rs"));
    assert!(is_declared(&tree.content("src/lib.rs").unwrap(), "order"));
}

#[test]
fn module_stops_at_the_first_step_that_fails() {
    let mut tree = project();
    tree.add_dir("src/order");
    tree.add_file("src/order/dto", "in the way");
    let e = generate_module(&mut tree, "order".to_string()).unwrap_err();
    assert_eq!(e.kind, ErrorKind::NotADirectory);
    assert_eq!(e.path, "src/order/dto");
    assert!(tree.is_file("src/order/entities/order_entity.rs"));
    assert!(!tree.is_file("src/order/order_service.rs"));
    assert!(!tree.is_file("src/order/order_controller.rs"));
    assert_eq!(tree.content("src/main.rs").unwrap(), main_template("shop"));
}

#[test]
fn module_with_an_unexpected_root_leaves_the_patches_out() {
    let mut tree = SourceTree::new();
    tree.add_dir("src");
    tree.add_file("src/main.rs", "use axum");
    let report = generate_module(&mut tree, "order".to_string()).unwrap();
    assert_eq!(report.module, Patch::AnchorMissing);
    assert_eq!(report.route, Patch::AnchorMissing);
    assert_eq!(tree.content("src/main.rs").unwrap(), "use axum");
    assert!(tree.is_file("src/order/order_controller.rs"));
}

#[test]
fn middleware_joins_an_existing_definitions_file() {
    let mut tree = project();
    tree.add_file("src/middlewares.rs", "// mine\n");
    let report = generate_middleware(&mut tree, "auth".to_string()).unwrap();
    assert_eq!(report.definition, Definition::Added);
    assert_eq!(
        tree.content("src/middlewares.rs").unwrap(),
        format!("// mine\n{}", middleware_function_template("auth"))
    );
    let again = generate_middleware(&mut tree, "auth".to_string()).unwrap();
    assert_eq!(again.definition, Definition::AlreadyPresent);
    assert_eq!(again.module, Patch::AlreadyPresent);
    assert_eq!(again.layer, Patch::AlreadyPresent);
}

#[test]
fn middleware_needs_src_and_the_composition_root() {
    let mut tree = SourceTree::new();
    let e = generate_middleware(&mut tree, "auth".to_string()).unwrap_err();
    assert_eq!((e.kind, e.path.as_str()), (ErrorKind::NotFound, "src/middlewares.rs"));
    tree.add_dir("src");
    let e = generate_middleware(&mut tree, "auth".to_string()).unwrap_err();
    assert_eq!((e.kind, e.path.as_str()), (ErrorKind::NotFound, "src/main.rs"));
    assert!(tree.is_file("src/middlewares.rs"));
}

#[test]
fn a_name_that_is_no_identifier_is_taken_as_it_is() {
    let mut tree = SourceTree::new();
    let file = generate::generate_service(&mut tree, "my order".to_string()).unwrap();
    assert_eq!(file, "src/my order/my order_service.rs");
    assert_eq!(tree.content("src/lib.rs").unwrap(), "// auto-generated lib.rs\n\npub mod my order;\n");
}

#[test]
fn generate_test_generate_controller_creates_file() {
    let mut tree = SourceTree::new();
    generate::generate_controller(&mut tree, "test".into()).unwrap();
    assert!(tree.is_file("src/test/test_controller.rs"));
}

#[test]
fn generate_test_generate_service_creates_file() {
    let mut tree = SourceTree::new();
    generate::generate_service(&mut tree, "test".into()).unwrap();
    assert!(tree.is_file("src/test/test_service.rs"));
}

#[test]
fn generate_test_generate_dto_creates_file() {
    let mut tree = SourceTree::new();
    generate::generate_dto(&mut tree, "test".into()).unwrap();
    assert!(tree.is_file("src/test/dto/test_dto.rs"));
}

#[test]
fn generate_test_generate_entity_creates_file() {
    let mut tree = SourceTree::new();
    generate::generate_entity(&mut tree, "test".into()).unwrap();
    assert!(tree.is_file("src/test/entities/test_entity.rs"));
}

#[test]
fn generate_module_test_generate_controller_creates_file() {
    let mut tree = SourceTree::new();
    generate_module::generate_controller(&mut tree, "test".into()).unwrap();
    assert!(tree.is_file("src/test/test_controller.rs"));
}

#[test]
fn generate_module_test_generate_service_creates_file() {
    let mut tree = SourceTree::new();
    generate_module::generate_service(&mut tree, "test".into()).unwrap();
    assert!(tree.is_file("src/test/test_service.rs"));
}

#[test]
fn generate_module_test_generate_dto_creates_file() {
    let mut tree = SourceTree::new();
    generate_module::generate_dto(&mut tree, "test".into()).unwrap();
    assert!(tree.is_file("src/test/dto/test_dto.rs"));
}

#[test]
fn generate_module_test_generate_entity_creates_file() {
    let mut tree = SourceTree::new();
    generate_module::generate_entity(&mut tree, "test".into()).unwrap();
    assert!(tree.is_file("src/test/entities/test_entity.rs"));
}

#[test]
fn integration_generate_controller() {
    let mut tree = SourceTree::new();
    generate_module::generate_controller(&mut tree, "my".into()).unwrap();
    assert!(tree.is_file("src/my/my_controller.rs"));
}

#[test]
fn integration_generate_service() {
    let mut tree = SourceTree::new();
    generate_module::generate_service(&mut tree, "my".into()).unwrap();
    assert!(tree.is_file("src/my/my_service.rs"));
}

#[test]
fn integration_generate_dto() {
    let mut tree = SourceTree::new();
    generate_module::generate_dto(&mut tree, "my".into()).unwrap();
    assert!(tree.is_file("src/my/dto/my_dto.rs"));
}

#[test]
fn integration_generate_entity() {
    let mut tree = SourceTree::new();
    generate_module::generate_entity(&mut tree, "my".into()).unwrap();
    assert!(tree.is_file("src/my/entities/my_entity.rs"));
}

#[test]
fn a_module_named_like_the_root_manifest_is_in_its_own_way() {
    let mut tree = SourceTree::new();
    let e = generate::generate_controller(&mut tree, "lib.rs".to_string()).unwrap_err();
    assert_eq!((e.kind, e.path.as_str()), (ErrorKind::IsADirectory, "src/lib.rs"));
    assert!(tree.is_dir("src/lib.rs"));
    assert!(tree.is_file("src/lib.rs/mod.rs"));
}

#[test]
fn a_directory_in_the_place_of_a_file_ends_the_generation() {
    let mut tree = SourceTree::new();
    tree.add_dir("src");
    tree.add_dir("src/order");
    tree.add_dir("src/order/order_service.rs");
    let e = generate::generate_service(&mut tree, "order".to_string()).unwrap_err();
    assert_eq!((e.kind, e.path.as_str()), (ErrorKind::IsADirectory, "src/order/order_service.rs"));
    assert!(is_declared(&tree.content("src/lib.rs").unwrap(), "order"));
    assert!(tree.is_file("src/order/mod.rs"));

    let mut tree = SourceTree::new();
    tree.add_dir("src");
    tree.add_dir("src/order");
    tree.add_dir("src/order/mod.rs");
    let e = generate::generate_service(&mut tree, "order".to_string()).unwrap_err();
    assert_eq!((e.kind, e.path.as_str()), (ErrorKind::IsADirectory, "src/order/mod.rs"));

    let mut tree = SourceTree::new();
    tree.add_dir("src");
    tree.add_dir("src/lib.rs");
    let e = generate::generate_service(&mut tree, "order".to_string()).unwrap_err();
    assert_eq!((e.kind, e.path.as_str()), (ErrorKind::IsADirectory, "src/lib.rs"));
}

#[test]
fn a_file_in_the_place_of_a_directory_ends_the_generation() {
    let mut tree = SourceTree::new();
    tree.add_file("src", "in the way");
    let e = generate::generate_entity(&mut tree, "order".to_string()).unwrap_err();
    assert_eq!((e.kind, e.path.as_str()), (ErrorKind::NotADirectory, "src/order"));
    assert!(tree.dir_paths().is_empty());
    assert_eq!(tree.file_paths(), vec!["src"]);

    let mut tree = SourceTree::new();
    tree.add_file("order", "in the way");
    let e = generate_item::generate_entity(&mut tree, "order".to_string(), "src").unwrap_err();
    assert_eq!((e.kind, e.path.as_str()), (ErrorKind::NotADirectory, "order"));
}

#[test]
fn a_standalone_artifact_named_like_the_manifest_above_is_in_its_own_way() {
    let mut tree = SourceTree::new();
    let e = generate_item::generate_dto(&mut tree, "mod.rs".to_string(), "shop").unwrap_err();
    assert_eq!((e.kind, e.path.as_str()), (ErrorKind::IsADirectory, "mod.rs"));
    let mut tree = SourceTree::new();
    generate_item::generate_dto(&mut tree, "mod.rs".to_string(), "src").unwrap();
    assert_eq!(tree.content("lib.rs").unwrap(), "pub mod mod.rs;\n");
}

#[test]
fn nothing_is_taken_away_by_a_generation_that_fails() {
    let mut tree = project();
    tree.add_file("src/notes.txt", "mine");
    tree.add_dir("src/order");
    tree.add_file("src/order/mod.rs", "pub mod mine;\n");
    tree.add_dir("src/order/order_controller.rs");
    let before = snapshot(&tree);
    assert!(generate_module(&mut tree, "order".to_string()).is_err());
    let after = snapshot(&tree);
    for dir in &before.0 {
        assert!(after.0.contains(dir));
    }
    for (path, _) in &before.1 {
        assert!(tree.is_file(path));
    }
    assert_eq!(tree.content("src/notes.txt").unwrap(), "mine");
    assert!(is_declared(&tree.content("src/order/mod.rs").unwrap(), "mine"));
    assert!(is_declared(&tree.content("src/order/mod.rs").unwrap(), "order_service"));
    assert_eq!(tree.content("src/main.rs").unwrap(), main_template("shop"));
}

#[test]
fn a_module_with_given_texts() {
    let mut tree = project();
    let texts = ModuleTexts {
        entity: "E".to_string(),
        dto: "D".to_string(),
        service: "S".to_string(),
        controller: "C".to_string(),
    };
    scaffold_module(&mut tree, "order", &texts).unwrap();
    assert_eq!(tree.content("src/order/entities/order_entity.rs").unwrap(), "E");
    assert_eq!(tree.content("src/order/dto/order_dto.rs").unwrap(), "D");
    assert_eq!(tree.content("src/order/order_service.rs").unwrap(), "S");
    assert_eq!(tree.content("src/order/order_controller.rs").unwrap(), "C");
    let texts = module_texts("order");
    assert_eq!(texts.entity, entity_template("order"));
    assert_eq!(texts.dto, dto_template("order"));
    assert_eq!(texts.service, service_template("order"));
    assert_eq!(texts.controller, controller_template("order"));
}

#[test]
fn an_artifact_with_a_given_text() {
    let mut tree = SourceTree::new();
    let file = generate::generate_nested(&mut tree, Kind::Dto, "order", "D").unwrap();
    assert_eq!(file, "src/order/dto/order_dto.rs");
    assert_eq!(tree.content(&file).unwrap(), "D");
    let file = generate_item::generate_standalone(&mut tree, Kind::Entity, "order", "shop", "E").unwrap();
    assert_eq!(file, "order/order_entity.rs");
    assert_eq!(tree.content(&file).unwrap(), "E");
    let file = scaffold_controller(&mut tree, "order", "C").unwrap();
    assert_eq!(tree.content(&file).unwrap(), "C");
    assert!(tree.content("src/order/mod.rs").unwrap().ends_with("::remove))\n}\n"));
}

#[test]
fn a_manifest_with_an_open_last_line_gets_the_declaration_on_a_line_of_its_own() {
    let mut tree = SourceTree::new();
    tree.add_dir("src");
    tree.add_file("src/lib.rs", "pub mod y;");
    generate::generate_service(&mut tree, "order".to_string()).unwrap();
    assert_eq!(tree.content("src/lib.rs").unwrap(), "pub mod y;\npub mod order;\n");
    let settled = snapshot(&tree);
    generate::generate_service(&mut tree, "order".to_string()).unwrap();
    assert_eq!(snapshot(&tree), settled);
    generate::generate_dto(&mut tree, "order".to_string()).unwrap();
    generate::generate_entity(&mut tree, "order".to_string()).unwrap();
    assert_eq!(tree.content("src/lib.rs").unwrap(), "pub mod y;\npub mod order;\n");

    let mut tree = SourceTree::new();
    tree.add_file("mod.rs", "pub mod y;");
    generate_item::generate_controller(&mut tree, "product".to_string(), "shop").unwrap();
    assert_eq!(tree.content("mod.rs").unwrap(), "pub mod y;\npub mod product;\n");
    let settled = snapshot(&tree);
    generate_item::generate_controller(&mut tree, "product".to_string(), "shop").unwrap();
    assert_eq!(snapshot(&tree), settled);
}

#[test]
fn an_inline_module_is_no_place_for_a_declaration() {
    let root = "use x;\nfn main() { Router::new(); }\nmod t {}\n";
    let mut tree = SourceTree::new();
    tree.add_dir("src");
    tree.add_file("src/main.rs", root);
    let report = generate_module(&mut tree, "order".to_string()).unwrap();
    assert_eq!(report.module, Patch::Applied);
    assert_eq!(report.route, Patch::Applied);
    let main = tree.content("src/main.rs").unwrap();
    assert_eq!(
        main,
        "use x;\nmod order;\nfn main() { Router::new()\n        .nest(\"/order\", order::routes()); }\nmod t {}\n"
    );
    assert_eq!(main.lines().filter(|l| *l == "mod order;").count(), 1);
    assert!(main.find("mod order;").unwrap() < main.find("Router::new()").unwrap());
    let settled = snapshot(&tree);
    generate_module(&mut tree, "order".to_string()).unwrap();
    assert_eq!(snapshot(&tree), settled);

    let mut tree = SourceTree::new();
    tree.add_dir("src");
    tree.add_file("src/main.rs", "mod t {}\n");
    let report = generate_module(&mut tree, "order".to_string()).unwrap();
    assert_eq!(report.module, Patch::Applied);
    assert_eq!(report.route, Patch::AnchorMissing);
    assert_eq!(tree.content("src/main.rs").unwrap(), "mod order;\nmod t {}\n");
}

#[test]
fn a_middleware_leaves_alone_what_follows_the_chain() {
    let root = "use x;\nfn main() { Router::new(); }\nmod t { fn f() { g(); } }\n";
    let mut tree = SourceTree::new();
    tree.add_dir("src");
    tree.add_file("src/main.rs", root);
    generate_middleware(&mut tree, "auth".to_string()).unwrap();
    assert_eq!(
        tree.content("src/main.rs").unwrap(),
        "use x;\nmod middlewares;\nfn main() { Router::new()\n    .layer(middleware::from_fn(middlewares::auth_middleware)); }\nmod t { fn f() { g(); } }\n"
    );
    let settled = snapshot(&tree);
    generate_middleware(&mut tree, "auth".to_string()).unwrap();
    assert_eq!(snapshot(&tree), settled);
}

#[test]
fn a_root_without_a_place_for_the_declaration_is_wired_once() {
    let mut tree = SourceTree::new();
    tree.add_dir("src");
    tree.add_file("src/main.rs", "Router::new(); use x");
    let report = generate_module(&mut tree, "order".to_string()).unwrap();
    assert_eq!(report.module, Patch::AnchorMissing);
    assert_eq!(report.route, Patch::Applied);
    let settled = snapshot(&tree);
    let again = generate_module(&mut tree, "order".to_string()).unwrap();
    assert_eq!(again.module, Patch::AnchorMissing);
    assert_eq!(again.route, Patch::AlreadyPresent);
    assert_eq!(snapshot(&tree), settled);

    let mut tree = SourceTree::new();
    tree.add_dir("src");
    tree.add_file("src/main.rs", "use x Router::new()");
    let report = generate_middleware(&mut tree, "auth".to_string()).unwrap();
    assert_eq!(report.module, Patch::AnchorMissing);
    assert_eq!(report.layer, Patch::Applied);
    let settled = snapshot(&tree);
    generate_middleware(&mut tree, "auth".to_string()).unwrap();
    assert_eq!(snapshot(&tree), settled);
}
