use axumate::commands::generate_module::render_routes;
use axumate::commands::templates::generate_item_templates::{
    middleware_dependencies_template, middleware_function_template, render_simple_controller,
    simple_controller_template, simple_dto_template, simple_entity_template,
    simple_service_template,
};
use axumate::commands::templates::generate_templates::{
    controller_template, dto_template, entity_template, render_service, service_template,
};
use axumate::commands::templates::new_templates::main_template;

fn capitalize(s: &str) -> String {
    let mut c = s.chars();
    match c.next() {
        Some(f) => f.to_uppercase().collect::<String>() + c.as_str(),
        None => String::new(),
    }
}

fn uppercase(s: &str) -> String {
    s.to_uppercase()
}

const NAMES: [&str; 5] = ["product", "order_line", "x", "", "élan"];

fn expected_simple_controller_template(name: &str) -> String {
    let cap = capitalize(name);
    format!(
        "use axum::{{extract::Path, http::StatusCode, Json}};\n\n// Create a {name}\npub async fn create() -> (StatusCode, String) {{\n    (StatusCode::CREATED, \"Create {cap}\".to_string())\n}}\n\n// Get all {name}s\npub async fn find_all() -> (StatusCode, String) {{\n    (StatusCode::OK, \"Find all {cap}s\".to_string())\n}}\n\n// Get one {name} by ID\npub async fn find_one(Path(id): Path<u32>) -> (StatusCode, String) {{\n    (StatusCode::OK, format!(\"Find {cap} with id {{}}\", id))\n}}\n\n// Update a {name} by ID\npub async fn update(Path(id): Path<u32>) -> (StatusCode, String) {{\n    (StatusCode::OK, format!(\"Update {cap} with id {{}}\", id))\n}}\n\n// Remove a {name} by ID\npub async fn remove(Path(id): Path<u32>) -> (StatusCode, String) {{\n    (StatusCode::OK, format!(\"Remove {cap} with id {{}}\", id))\n}}\n",
        name = name,
        cap = cap
    )
}

fn expected_simple_service_template(name: &str) -> String {
    let cap = capitalize(name);
    format!(
        "// Service functions for {cap}\n\npub fn create() -> String {{\n    \"Create {cap}\".to_string()\n}}\n\npub fn find_all() -> String {{\n    \"Find all {cap}s\".to_string()\n}}\n\npub fn find_one(id: u32) -> String {{\n    format!(\"Find {cap} with id {{}}\", id)\n}}\n\npub fn update(id: u32) -> String {{\n    format!(\"Update {cap} with id {{}}\", id)\n}}\n\npub fn remove(id: u32) -> String {{\n    format!(\"Remove {cap} with id {{}}\", id)\n}}\n",
        cap = cap
    )
}

fn expected_simple_dto_template(name: &str) -> String {
    let cap = capitalize(name);
    format!(
        "use serde::Deserialize;\n\n#[derive(Deserialize)]\npub struct Create{cap}Dto {{\n    // TODO: define fields\n}}\n\n#[derive(Deserialize)]\npub struct Update{cap}Dto {{\n    // TODO: define fields\n}}\n",
        cap = cap
    )
}

fn expected_simple_entity_template(name: &str) -> String {
    let cap = capitalize(name);
    format!(
        "use serde::{{Serialize, Deserialize}};\n\n#[derive(Clone, Serialize, Deserialize)]\npub struct {cap} {{\n    pub id: u32,\n    // TODO: add fields\n}}\n",
        cap = cap
    )
}

fn expected_middleware_dependencies_template() -> String {
    format!(
        "use axum::extract::Request;\nuse axum::middleware::Next;\nuse axum::response::Response;\n"
    )
}

fn expected_middleware_function_template(name: &str) -> String {
    format!(
        "pub async fn {name}_middleware(req: Request, next: Next) -> Response {{\n    println!(\"➡️ [{name}_middleware] {{}} {{}}\", req.method(), req.uri().path());\n    let res = next.run(req).await;\n    println!(\"⬅️ [{name}_middleware] {{}}\", res.status());\n    res\n}}\n",
        name = name
    )
}

fn expected_controller_template(name: &str) -> String {
    let cap = capitalize(name);
    format!(
        "\nuse axum::{{\n    extract::Path,\n    http::StatusCode,\n    Json,\n}};\nuse crate::{name}::dto::{name}_dto::{{Create{cap}Dto, Update{cap}Dto}};\nuse crate::{name}::{name}_service;\n\n// Create a {name}\npub async fn create(Json(dto): Json<Create{cap}Dto>) -> (StatusCode, String) {{\n    let message = {name}_service::create(dto);\n    (StatusCode::CREATED, message)\n}}\n\n// Get all {name}s\npub async fn find_all() -> (StatusCode, String) {{\n    let message = {name}_service::find_all();\n    (StatusCode::OK, message)\n}}\n\n// Get one {name} by ID\npub async fn find_one(Path(id): Path<u32>) -> (StatusCode, String) {{\n    let message = {name}_service::find_one(id);\n    (StatusCode::OK, message)\n}}\n\n// Update a {name} by ID\npub async fn update(Path(id): Path<u32>, Json(dto): Json<Update{cap}Dto>) -> (StatusCode, String) {{\n    let message = {name}_service::update(id, dto);\n    (StatusCode::OK, message)\n}}\n\n// Remove a {name} by ID\npub async fn remove(Path(id): Path<u32>) -> (StatusCode, String) {{\n    let message = {name}_service::remove(id);\n    (StatusCode::OK, message)\n}}\n",
        name = name,
        cap = cap
    )
}

fn expected_service_template(name: &str) -> String {
    let cap = capitalize(name);
    let upp = uppercase(name);
    format!(
        "\nuse crate::{name}::dto::{name}_dto::{{Create{cap}Dto, Update{cap}Dto}};\nuse crate::{name}::entities::{name}_entity::{cap};\nuse std::sync::Mutex;\nuse once_cell::sync::Lazy;\n\nstatic {upp}S: Lazy<Mutex<Vec<{cap}>>> = Lazy::new(|| Mutex::new(Vec::new()));\n\npub fn create(dto: Create{cap}Dto) -> String {{\n    let mut {name}s = {upp}S.lock().unwrap();\n    let id = ({name}s.len() + 1) as u32;\n    let {name} = {cap} {{ id, field1: dto.field1, field2: dto.field2 }};\n    {name}s.push({name});\n    format!(\"{cap} created with id {{}}\", id)\n}}\n\npub fn find_all() -> String {{\n    let {name}s = {upp}S.lock().unwrap();\n    format!(\"There are {{}} {name}s in total\", {name}s.len())\n}}\n\npub fn find_one(id: u32) -> String {{\n    let {name}s = {upp}S.lock().unwrap();\n    if {name}s.iter().any(|b| b.id == id) {{\n        format!(\"Found {name} with id {{}}\", id)\n    }} else {{\n        format!(\"{cap} with id {{}} not found\", id)\n    }}\n}}\n\npub fn update(id: u32, dto: Update{cap}Dto) -> String {{\n    let mut {name}s = {upp}S.lock().unwrap();\n    if let Some({name}) = {name}s.iter_mut().find(|b| b.id == id) {{\n        if let Some(field1) = dto.field1 {{\n            {name}.field1 = field1;\n        }}\n        if let Some(field2) = dto.field2 {{\n            {name}.field2 = field2;\n        }}\n        return format!(\"{cap} with id {{}} updated\", id);\n    }}\n    format!(\"{cap} with id {{}} not found\", id)\n}}\n\npub fn remove(id: u32) -> String {{\n    let mut {name}s = {upp}S.lock().unwrap();\n    let len_before = {name}s.len();\n    {name}s.retain(|b| b.id != id);\n    if {name}s.len() < len_before {{\n        format!(\"{cap} with id {{}} removed\", id)\n    }} else {{\n        format!(\"{cap} with id {{}} not found\", id)\n    }}\n}}\n",
        name = name,
        cap = cap,
        upp = upp
    )
}

fn expected_dto_template(name: &str) -> String {
    let cap = capitalize(name);
    format!(
        "\nuse serde::Deserialize;\n\n#[derive(Deserialize)]\npub struct Create{cap}Dto {{\n    pub field1: String,\n    pub field2: String,\n}}\n\n#[derive(Deserialize)]\npub struct Update{cap}Dto {{\n    pub field1: Option<String>,\n    pub field2: Option<String>,\n}}\n",
        cap = cap
    )
}

fn expected_entity_template(name: &str) -> String {
    let cap = capitalize(name);
    format!(
        "\nuse serde::{{Serialize, Deserialize}};\n\n#[derive(Clone, Serialize, Deserialize)]\npub struct {cap} {{\n    pub id: u32,\n    pub field1: String,\n    pub field2: String,\n}}\n",
        cap = cap
    )
}

fn expected_main_template(_name: &str) -> String {
    "\nuse axum::{\n    routing::get,\n    Router\n};\n\n#[tokio::main]\nasync fn main() {\n    // Compose the routes\n    let app = Router::new()\n        .route(\"/\", get(|| async { \"Hello, World!\" }))\n\n    // Run the app on localhost only\n    let listener = tokio::net::TcpListener::bind(\"127.0.0.1:3000\") // <- localhost\n        .await\n        .unwrap();\n\n    println!(\"🚀 Server running on http://127.0.0.1:3000\");\n\n    axum::serve(listener, app).await.unwrap();\n}\n\n".to_string()
}

fn expected_routes(mod_name: &str) -> String {
    format!(
        "\nuse axum::Router;\nuse axum::routing::{{get, post, patch, delete}};\n\npub fn routes() -> Router {{\n    Router::new()\n        .route(\"/\", post({mod_name}::create).get({mod_name}::find_all))\n        .route(\"/{{id}}\", get({mod_name}::find_one)\n            .patch({mod_name}::update)\n            .delete({mod_name}::remove))\n}}\n",
        mod_name = mod_name
    )
}

#[test]
fn simple_controller_template_is_exact() {
    for name in NAMES {
        assert_eq!(simple_controller_template(name), expected_simple_controller_template(name), "{:?}", name);
    }
}

#[test]
fn simple_service_template_is_exact() {
    for name in NAMES {
        assert_eq!(simple_service_template(name), expected_simple_service_template(name), "{:?}", name);
    }
}

#[test]
fn simple_dto_template_is_exact() {
    for name in NAMES {
        assert_eq!(simple_dto_template(name), expected_simple_dto_template(name), "{:?}", name);
    }
}

#[test]
fn simple_entity_template_is_exact() {
    for name in NAMES {
        assert_eq!(simple_entity_template(name), expected_simple_entity_template(name), "{:?}", name);
    }
}

#[test]
fn middleware_dependencies_template_is_exact() {
    assert_eq!(middleware_dependencies_template(), expected_middleware_dependencies_template());
}

#[test]
fn middleware_function_template_is_exact() {
    for name in NAMES {
        assert_eq!(middleware_function_template(name), expected_middleware_function_template(name), "{:?}", name);
    }
}

#[test]
fn controller_template_is_exact() {
    for name in NAMES {
        assert_eq!(controller_template(name), expected_controller_template(name), "{:?}", name);
    }
}

#[test]
fn service_template_is_exact() {
    for name in NAMES {
        assert_eq!(service_template(name), expected_service_template(name), "{:?}", name);
    }
}

#[test]
fn dto_template_is_exact() {
    for name in NAMES {
        assert_eq!(dto_template(name), expected_dto_template(name), "{:?}", name);
    }
}

#[test]
fn entity_template_is_exact() {
    for name in NAMES {
        assert_eq!(entity_template(name), expected_entity_template(name), "{:?}", name);
    }
}

#[test]
fn main_template_is_exact() {
    for name in NAMES {
        assert_eq!(main_template(name), expected_main_template(name), "{:?}", name);
    }
}

#[test]
fn routes_are_exact() {
    for name in NAMES {
        assert_eq!(render_routes(name), expected_routes(name), "{:?}", name);
    }
}

#[test]
fn render_takes_the_forms_as_they_are_given() {
    let text = render_simple_controller("product", "GOODS");
    assert!(text.contains("// Create a product\n"));
    assert!(text.contains("\"Create GOODS\""));
    assert!(!text.contains("Product"));
    let text = render_service("product", "Goods", "STOCK");
    assert!(text.contains("static STOCKS: Lazy<Mutex<Vec<Goods>>>"));
    assert!(text.contains("let mut products = STOCKS.lock().unwrap();"));
}

#[test]
fn controller_of_a_module_names_its_parts() {
    let text = controller_template("order");
    assert!(text.contains("use crate::order::dto::order_dto::{CreateOrderDto, UpdateOrderDto};"));
    assert!(text.contains("use crate::order::order_service;"));
}

#[test]
fn main_template_does_not_depend_on_the_name() {
    assert_eq!(main_template("a"), main_template("b"));
    assert!(main_template("a").contains("let app = Router::new()\n"));
}
