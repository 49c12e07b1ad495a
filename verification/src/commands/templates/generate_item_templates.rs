//! The texts of stand-alone artifacts and of middleware functions.
use crate::utils::common::{capitalize, capitalized};
use vstd::prelude::*;

verus! {

/// The source text of a stand-alone controller, for the name `name` and its capitalized form `cap`.
pub open spec fn simple_controller_text(name: Seq<char>, cap: Seq<char>) -> Seq<char> {
    Seq::<char>::empty()
        + "use axum::{extract::Path, http::StatusCode, Json};\n"@
        + "\n"@
        + "// Create a "@
        + name
        + "\n"@
        + "pub async fn create() -> (StatusCode, String) {\n"@
        + "    (StatusCode::CREATED, \"Create "@
        + cap
        + "\".to_string())\n"@
        + "}\n"@
        + "\n"@
        + "// Get all "@
        + name
        + "s\n"@
        + "pub async fn find_all() -> (StatusCode, String) {\n"@
        + "    (StatusCode::OK, \"Find all "@
        + cap
        + "s\".to_string())\n"@
        + "}\n"@
        + "\n"@
        + "// Get one "@
        + name
        + " by ID\n"@
        + "pub async fn find_one(Path(id): Path<u32>) -> (StatusCode, String) {\n"@
        + "    (StatusCode::OK, format!(\"Find "@
        + cap
        + " with id {}\", id))\n"@
        + "}\n"@
        + "\n"@
        + "// Update a "@
        + name
        + " by ID\n"@
        + "pub async fn update(Path(id): Path<u32>) -> (StatusCode, String) {\n"@
        + "    (StatusCode::OK, format!(\"Update "@
        + cap
        + " with id {}\", id))\n"@
        + "}\n"@
        + "\n"@
        + "// Remove a "@
        + name
        + " by ID\n"@
        + "pub async fn remove(Path(id): Path<u32>) -> (StatusCode, String) {\n"@
        + "    (StatusCode::OK, format!(\"Remove "@
        + cap
        + " with id {}\", id))\n"@
        + "}\n"@
}

/// Writes out the source text of a stand-alone controller.
pub fn render_simple_controller(name: &str, cap: &str) -> (r: String)
    ensures
        r@ == simple_controller_text(name@, cap@),
{
    let mut r = String::new();
    r.append("use axum::{extract::Path, http::StatusCode, Json};\n");
    r.append("\n");
    r.append("// Create a ");
    r.append(name);
    r.append("\n");
    r.append("pub async fn create() -> (StatusCode, String) {\n");
    r.append("    (StatusCode::CREATED, \"Create ");
    r.append(cap);
    r.append("\".to_string())\n");
    r.append("}\n");
    r.append("\n");
    r.append("// Get all ");
    r.append(name);
    r.append("s\n");
    r.append("pub async fn find_all() -> (StatusCode, String) {\n");
    r.append("    (StatusCode::OK, \"Find all ");
    r.append(cap);
    r.append("s\".to_string())\n");
    r.append("}\n");
    r.append("\n");
    r.append("// Get one ");
    r.append(name);
    r.append(" by ID\n");
    r.append("pub async fn find_one(Path(id): Path<u32>) -> (StatusCode, String) {\n");
    r.append("    (StatusCode::OK, format!(\"Find ");
    r.append(cap);
    r.append(" with id {}\", id))\n");
    r.append("}\n");
    r.append("\n");
    r.append("// Update a ");
    r.append(name);
    r.append(" by ID\n");
    r.append("pub async fn update(Path(id): Path<u32>) -> (StatusCode, String) {\n");
    r.append("    (StatusCode::OK, format!(\"Update ");
    r.append(cap);
    r.append(" with id {}\", id))\n");
    r.append("}\n");
    r.append("\n");
    r.append("// Remove a ");
    r.append(name);
    r.append(" by ID\n");
    r.append("pub async fn remove(Path(id): Path<u32>) -> (StatusCode, String) {\n");
    r.append("    (StatusCode::OK, format!(\"Remove ");
    r.append(cap);
    r.append(" with id {}\", id))\n");
    r.append("}\n");
    r
}

/// The source text of a stand-alone controller named `name`.
pub fn simple_controller_template(name: &str) -> (r: String)
    ensures
        r@ == simple_controller_text(name@, capitalized(name@)),
{
    let cap = capitalize(name);
    render_simple_controller(name, cap.as_str())
}

/// The source text of a stand-alone service whose capitalized name is `cap`.
pub open spec fn simple_service_text(cap: Seq<char>) -> Seq<char> {
    Seq::<char>::empty()
        + "// Service functions for "@
        + cap
        + "\n"@
        + "\n"@
        + "pub fn create() -> String {\n"@
        + "    \"Create "@
        + cap
        + "\".to_string()\n"@
        + "}\n"@
        + "\n"@
        + "pub fn find_all() -> String {\n"@
        + "    \"Find all "@
        + cap
        + "s\".to_string()\n"@
        + "}\n"@
        + "\n"@
        + "pub fn find_one(id: u32) -> String {\n"@
        + "    format!(\"Find "@
        + cap
        + " with id {}\", id)\n"@
        + "}\n"@
        + "\n"@
        + "pub fn update(id: u32) -> String {\n"@
        + "    format!(\"Update "@
        + cap
        + " with id {}\", id)\n"@
        + "}\n"@
        + "\n"@
        + "pub fn remove(id: u32) -> String {\n"@
        + "    format!(\"Remove "@
        + cap
        + " with id {}\", id)\n"@
        + "}\n"@
}

/// Writes out the source text of a stand-alone service.
pub fn render_simple_service(cap: &str) -> (r: String)
    ensures
        r@ == simple_service_text(cap@),
{
    let mut r = String::new();
    r.append("// Service functions for ");
    r.append(cap);
    r.append("\n");
    r.append("\n");
    r.append("pub fn create() -> String {\n");
    r.append("    \"Create ");
    r.append(cap);
    r.append("\".to_string()\n");
    r.append("}\n");
    r.append("\n");
    r.append("pub fn find_all() -> String {\n");
    r.append("    \"Find all ");
    r.append(cap);
    r.append("s\".to_string()\n");
    r.append("}\n");
    r.append("\n");
    r.append("pub fn find_one(id: u32) -> String {\n");
    r.append("    format!(\"Find ");
    r.append(cap);
    r.append(" with id {}\", id)\n");
    r.append("}\n");
    r.append("\n");
    r.append("pub fn update(id: u32) -> String {\n");
    r.append("    format!(\"Update ");
    r.append(cap);
    r.append(" with id {}\", id)\n");
    r.append("}\n");
    r.append("\n");
    r.append("pub fn remove(id: u32) -> String {\n");
    r.append("    format!(\"Remove ");
    r.append(cap);
    r.append(" with id {}\", id)\n");
    r.append("}\n");
    r
}

/// The source text of a stand-alone service named `name`.
pub fn simple_service_template(name: &str) -> (r: String)
    ensures
        r@ == simple_service_text(capitalized(name@)),
{
    let cap = capitalize(name);
    render_simple_service(cap.as_str())
}

/// The source text of a stand-alone data-transfer object whose capitalized name is `cap`.
pub open spec fn simple_dto_text(cap: Seq<char>) -> Seq<char> {
    Seq::<char>::empty()
        + "use serde::Deserialize;\n"@
        + "\n"@
        + "#[derive(Deserialize)]\n"@
        + "pub struct Create"@
        + cap
        + "Dto {\n"@
        + "    // TODO: define fields\n"@
        + "}\n"@
        + "\n"@
        + "#[derive(Deserialize)]\n"@
        + "pub struct Update"@
        + cap
        + "Dto {\n"@
        + "    // TODO: define fields\n"@
        + "}\n"@
}

/// Writes out the source text of a stand-alone data-transfer object.
pub fn render_simple_dto(cap: &str) -> (r: String)
    ensures
        r@ == simple_dto_text(cap@),
{
    let mut r = String::new();
    r.append("use serde::Deserialize;\n");
    r.append("\n");
    r.append("#[derive(Deserialize)]\n");
    r.append("pub struct Create");
    r.append(cap);
    r.append("Dto {\n");
    r.append("    // TODO: define fields\n");
    r.append("}\n");
    r.append("\n");
    r.append("#[derive(Deserialize)]\n");
    r.append("pub struct Update");
    r.append(cap);
    r.append("Dto {\n");
    r.append("    // TODO: define fields\n");
    r.append("}\n");
    r
}

/// The source text of a stand-alone data-transfer object named `name`.
pub fn simple_dto_template(name: &str) -> (r: String)
    ensures
        r@ == simple_dto_text(capitalized(name@)),
{
    let cap = capitalize(name);
    render_simple_dto(cap.as_str())
}

/// The source text of a stand-alone entity whose capitalized name is `cap`.
pub open spec fn simple_entity_text(cap: Seq<char>) -> Seq<char> {
    Seq::<char>::empty()
        + "use serde::{Serialize, Deserialize};\n"@
        + "\n"@
        + "#[derive(Clone, Serialize, Deserialize)]\n"@
        + "pub struct "@
        + cap
        + " {\n"@
        + "    pub id: u32,\n"@
        + "    // TODO: add fields\n"@
        + "}\n"@
}

/// Writes out the source text of a stand-alone entity.
pub fn render_simple_entity(cap: &str) -> (r: String)
    ensures
        r@ == simple_entity_text(cap@),
{
    let mut r = String::new();
    r.append("use serde::{Serialize, Deserialize};\n");
    r.append("\n");
    r.append("#[derive(Clone, Serialize, Deserialize)]\n");
    r.append("pub struct ");
    r.append(cap);
    r.append(" {\n");
    r.append("    pub id: u32,\n");
    r.append("    // TODO: add fields\n");
    r.append("}\n");
    r
}

/// The source text of a stand-alone entity named `name`.
pub fn simple_entity_template(name: &str) -> (r: String)
    ensures
        r@ == simple_entity_text(capitalized(name@)),
{
    let cap = capitalize(name);
    render_simple_entity(cap.as_str())
}

/// The imports that every middleware function needs.
pub open spec fn middleware_dependencies_text() -> Seq<char> {
    Seq::<char>::empty()
        + "use axum::extract::Request;\n"@
        + "use axum::middleware::Next;\n"@
        + "use axum::response::Response;\n"@
}

/// The preamble of the file that holds the middleware functions: the
/// imports that every middleware function needs.
pub fn middleware_dependencies_template() -> (r: String)
    ensures
        r@ == middleware_dependencies_text(),
{
    let mut r = String::new();
    r.append("use axum::extract::Request;\n");
    r.append("use axum::middleware::Next;\n");
    r.append("use axum::response::Response;\n");
    r
}

/// The source text of the middleware function for the name `name`.
pub open spec fn middleware_function_text(name: Seq<char>) -> Seq<char> {
    Seq::<char>::empty()
        + "pub async fn "@
        + name
        + "_middleware(req: Request, next: Next) -> Response {\n"@
        + "    println!(\"➡️ ["@
        + name
        + "_middleware] {} {}\", req.method(), req.uri().path());\n"@
        + "    let res = next.run(req).await;\n"@
        + "    println!(\"⬅️ ["@
        + name
        + "_middleware] {}\", res.status());\n"@
        + "    res\n"@
        + "}\n"@
}

/// The source text of the middleware function named after `name`.
pub fn middleware_function_template(name: &str) -> (r: String)
    ensures
        r@ == middleware_function_text(name@),
{
    let mut r = String::new();
    r.append("pub async fn ");
    r.append(name);
    r.append("_middleware(req: Request, next: Next) -> Response {\n");
    r.append("    println!(\"➡️ [");
    r.append(name);
    r.append("_middleware] {} {}\", req.method(), req.uri().path());\n");
    r.append("    let res = next.run(req).await;\n");
    r.append("    println!(\"⬅️ [");
    r.append(name);
    r.append("_middleware] {}\", res.status());\n");
    r.append("    res\n");
    r.append("}\n");
    r
}

} // verus!
