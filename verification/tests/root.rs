use axumate::commands::templates::new_templates::main_template;
use axumate::utils::root::{
    ensure_middleware_registered, ensure_module_registered, ensure_route_nested, Patch,
};

fn behind_module_lines(content: &str, mut at: usize) -> usize {
    loop {
        let rest = &content[at..];
        if !rest.starts_with("\nmod ") {
            return at;
        }
        match rest[5..].find(';') {
            Some(end) if !rest[5..5 + end].contains('\n') && !rest[5..5 + end].contains('{') => {
                at += 5 + end + 1;
            }
            _ => return at,
        }
    }
}

fn module_by_search(content: &str, name: &str) -> String {
    let mut content = content.to_string();
    let decl = format!("mod {};", name);
    if !content.contains(&decl) {
        if let Some(pos) = content.rfind("use ") {
            if let Some(end) = content[pos..].find(';') {
                let at = behind_module_lines(&content, pos + end + 1);
                content.insert_str(at, &format!("\n{}", decl));
            }
        } else {
            content = format!("{}\n{}", decl, content);
        }
    }
    content
}

fn nest_by_search(content: &str, name: &str) -> String {
    let mut content = content.to_string();
    let line = format!("        .nest(\"/{0}\", {0}::routes())", name);
    if !content.contains(&line) {
        if let Some(pos) = content.find("Router::new()") {
            if let Some(end) = content[pos..].find(';') {
                content.insert_str(pos + end, &format!("\n{}", line));
            }
        }
    }
    content
}

fn layer_by_search(content: &str, name: &str) -> String {
    let mut content = content.to_string();
    let line = format!("    .layer(middleware::from_fn(middlewares::{}_middleware))", name);
    if !content.contains(&line) {
        if let Some(pos) = content.find("Router::new()") {
            content.insert_str(pos + "Router::new()".len(), &format!("\n{}", line));
        }
    }
    content
}

fn roots() -> Vec<String> {
    vec![
        String::new(),
        main_template("x"),
        "use a;\nuse b;\n\nfn main() {\n    let app = Router::new()\n        .route(\"/\", get(h));\n}\n".to_string(),
        "fn main() { Router::new(); }".to_string(),
        "use a".to_string(),
        "use a; use b".to_string(),
        "Router::new()".to_string(),
        "mod order;\nuse a;\nRouter::new();\n".to_string(),
        "// 🚀\nuse é;\nlet app = Router::new()\n    .route(\"/ü\", x);\n".to_string(),
        "Router::new() Router::new(); use x; ;".to_string(),
        "use a;\nmod b;\nmod c;\nfn main() {}".to_string(),
        "use a;\nmod b;\nmod t { x(); }\nfn main() {}".to_string(),
        "use a;\nmod b\n;mod c;".to_string(),
        "use a;\nmod b;".to_string(),
        "use a;\nmod ".to_string(),
        "use x;\nfn main() { Router::new(); }\nmod t {}\n".to_string(),
        "mod b;\nuse a;\nfn main() {}".to_string(),
        "mod b".to_string(),
    ]
}

#[test]
fn module_registration_agrees_with_a_search_of_the_text() {
    for root in roots() {
        for name in ["order", "a", "middlewares", ""] {
            let got = ensure_module_registered(&root, name);
            assert_eq!(got.text, module_by_search(&root, name), "{:?} in {:?}", name, root);
        }
    }
}

#[test]
fn route_nesting_agrees_with_a_search_of_the_text() {
    for root in roots() {
        for name in ["order", "a", ""] {
            let got = ensure_route_nested(&root, name);
            assert_eq!(got.text, nest_by_search(&root, name), "{:?} in {:?}", name, root);
        }
    }
}

#[test]
fn middleware_attachment_agrees_with_a_search_of_the_text() {
    for root in roots() {
        for name in ["auth", "a", ""] {
            let got = ensure_middleware_registered(&root, name);
            assert_eq!(got.text, layer_by_search(&root, name), "{:?} in {:?}", name, root);
        }
    }
}

#[test]
fn module_goes_behind_the_last_use() {
    let got = ensure_module_registered("use a;\nuse b;\nfn main() {}\n", "order");
    assert_eq!(got.text, "use a;\nuse b;\nmod order;\nfn main() {}\n");
    assert_eq!(got.status, Patch::Applied);
}

#[test]
fn module_goes_first_without_a_use() {
    let got = ensure_module_registered("fn main() {}\n", "order");
    assert_eq!(got.text, "mod order;\nfn main() {}\n");
    assert_eq!(got.status, Patch::Applied);
}

#[test]
fn modules_stand_in_the_order_in_which_they_came() {
    let first = ensure_module_registered("use a;\nfn main() {}\n", "order");
    let second = ensure_module_registered(&first.text, "product");
    let third = ensure_module_registered(&second.text, "middlewares");
    assert_eq!(third.text, "use a;\nmod order;\nmod product;\nmod middlewares;\nfn main() {}\n");
}

#[test]
fn modules_of_a_root_without_a_use_go_first() {
    let first = ensure_module_registered("fn main() {}\n", "order");
    let second = ensure_module_registered(&first.text, "product");
    assert_eq!(second.text, "mod product;\nmod order;\nfn main() {}\n");
    let got = ensure_module_registered("mod t {}\n", "order");
    assert_eq!(got.text, "mod order;\nmod t {}\n");
    assert_eq!(got.status, Patch::Applied);
}

#[test]
fn module_goes_behind_a_module_that_follows_the_last_use() {
    let got = ensure_module_registered("use a;\nmod handlers;\n\nfn main() {}\n", "order");
    assert_eq!(got.text, "use a;\nmod handlers;\nmod order;\n\nfn main() {}\n");
    let got = ensure_module_registered("mod handlers;\nuse a;\n\nfn main() {}\n", "order");
    assert_eq!(got.text, "mod handlers;\nuse a;\nmod order;\n\nfn main() {}\n");
}

#[test]
fn a_mod_elsewhere_is_no_place_for_the_declaration() {
    let got = ensure_module_registered("use x;\nfn main() { Router::new(); }\nmod t {}\n", "b");
    assert_eq!(got.text, "use x;\nmod b;\nfn main() { Router::new(); }\nmod t {}\n");
    let got = ensure_module_registered("use x;\nmod t { fn f() { g(); } }\n", "b");
    assert_eq!(got.text, "use x;\nmod b;\nmod t { fn f() { g(); } }\n");
    let got = ensure_module_registered("use x;\nmod a;\nmod t {\n    g();\n}\n", "b");
    assert_eq!(got.text, "use x;\nmod a;\nmod b;\nmod t {\n    g();\n}\n");
    let got = ensure_module_registered("use x;\n\nmod a;\n", "b");
    assert_eq!(got.text, "use x;\nmod b;\n\nmod a;\n");
    let got = ensure_module_registered("use x;\nmod a; mod c;\n", "b");
    assert_eq!(got.text, "use x;\nmod a;\nmod b; mod c;\n");
}

#[test]
fn module_is_declared_once() {
    let once = ensure_module_registered("use a;\n", "order");
    let twice = ensure_module_registered(&once.text, "order");
    assert_eq!(twice.text, once.text);
    assert_eq!(twice.status, Patch::AlreadyPresent);
}

#[test]
fn module_without_a_terminator_is_left_out() {
    let got = ensure_module_registered("use a", "order");
    assert_eq!(got.text, "use a");
    assert_eq!(got.status, Patch::AnchorMissing);
}

#[test]
fn route_goes_before_the_terminator() {
    let got = ensure_route_nested("let app = Router::new()\n        .route(\"/\", h);\n", "order");
    assert_eq!(
        got.text,
        "let app = Router::new()\n        .route(\"/\", h)\n        .nest(\"/order\", order::routes());\n"
    );
    assert_eq!(got.status, Patch::Applied);
    let again = ensure_route_nested(&got.text, "order");
    assert_eq!(again.text, got.text);
    assert_eq!(again.status, Patch::AlreadyPresent);
}

#[test]
fn route_without_a_chain_is_left_out() {
    let got = ensure_route_nested("fn main() {}\n", "order");
    assert_eq!(got.text, "fn main() {}\n");
    assert_eq!(got.status, Patch::AnchorMissing);
    let open = ensure_route_nested("Router::new()", "order");
    assert_eq!(open.text, "Router::new()");
    assert_eq!(open.status, Patch::AnchorMissing);
}

#[test]
fn middleware_goes_right_behind_the_start_of_the_chain() {
    let got = ensure_middleware_registered("let app = Router::new()\n    .route(\"/\", h);\n", "auth");
    assert_eq!(
        got.text,
        "let app = Router::new()\n    .layer(middleware::from_fn(middlewares::auth_middleware))\n    .route(\"/\", h);\n"
    );
    assert_eq!(got.status, Patch::Applied);
    let later = ensure_middleware_registered(&got.text, "log");
    assert_eq!(
        later.text,
        "let app = Router::new()\n    .layer(middleware::from_fn(middlewares::log_middleware))\n    .layer(middleware::from_fn(middlewares::auth_middleware))\n    .route(\"/\", h);\n"
    );
    let again = ensure_middleware_registered(&later.text, "auth");
    assert_eq!(again.text, later.text);
    assert_eq!(again.status, Patch::AlreadyPresent);
}

#[test]
fn middleware_without_a_chain_is_left_out() {
    let got = ensure_middleware_registered("fn main() {}\n", "auth");
    assert_eq!(got.text, "fn main() {}\n");
    assert_eq!(got.status, Patch::AnchorMissing);
}

#[test]
fn patches_keep_what_was_there() {
    for root in roots() {
        let patched = [
            ensure_module_registered(&root, "order").text,
            ensure_route_nested(&root, "order").text,
            ensure_middleware_registered(&root, "auth").text,
        ];
        for text in patched {
            let mut rest = text.chars();
            for c in root.chars() {
                assert!(rest.any(|d| d == c), "{:?} lost in {:?}", c, text);
            }
        }
    }
}

#[test]
fn patches_keep_the_lines_around_the_place_of_the_patch() {
    for root in roots() {
        let patched = [
            ensure_module_registered(&root, "order").text,
            ensure_route_nested(&root, "order").text,
            ensure_middleware_registered(&root, "auth").text,
        ];
        for text in patched {
            let grown = text.chars().count() - root.chars().count();
            let at = root
                .chars()
                .zip(text.chars())
                .position(|(a, b)| a != b)
                .unwrap_or(root.chars().count());
            let before: String = root.chars().take(at).collect();
            let after: String = root.chars().skip(at).collect();
            assert!(text.starts_with(&before));
            assert!(text.ends_with(&after));
            assert_eq!(text.chars().count(), before.chars().count() + grown + after.chars().count());
            let kept_above = before.matches('\n').count();
            for (old, new) in root.lines().zip(text.lines()).take(kept_above) {
                assert_eq!(old, new);
            }
        }
    }
}

#[test]
fn a_root_that_is_patched_in_turn_holds_each_text_once() {
    let mut root = main_template("shop");
    for _ in 0..3 {
        root = ensure_module_registered(&root, "order").text;
        root = ensure_route_nested(&root, "order").text;
        root = ensure_module_registered(&root, "middlewares").text;
        root = ensure_middleware_registered(&root, "auth").text;
    }
    for text in [
        "mod order;",
        "mod middlewares;",
        "        .nest(\"/order\", order::routes())",
        "    .layer(middleware::from_fn(middlewares::auth_middleware))",
    ] {
        assert_eq!(root.matches(text).count(), 1, "{}", text);
    }
}

#[test]
fn a_declaration_that_the_next_patch_parts_is_made_again() {
    let root = "Router::new() mod order;";
    let declared = ensure_module_registered(root, "order");
    assert_eq!(declared.status, Patch::AlreadyPresent);
    let nested = ensure_route_nested(&declared.text, "order");
    assert_eq!(nested.text, "Router::new() mod order\n        .nest(\"/order\", order::routes());");
    let again = ensure_module_registered(&nested.text, "order");
    assert_eq!(again.status, Patch::Applied);
    assert_eq!(
        again.text,
        "mod order;\nRouter::new() mod order\n        .nest(\"/order\", order::routes());"
    );
}

#[test]
fn a_line_at_the_place_of_a_patch_is_parted() {
    let got = ensure_module_registered("use a; // first\nfn main() {}\n", "order");
    assert_eq!(got.text, "use a;\nmod order; // first\nfn main() {}\n");
    let got = ensure_middleware_registered("let app = Router::new().route(\"/\", h);\n", "auth");
    assert_eq!(
        got.text,
        "let app = Router::new()\n    .layer(middleware::from_fn(middlewares::auth_middleware)).route(\"/\", h);\n"
    );
}
