//! The texts of the artifacts of a module.
use crate::utils::common::{capitalize, capitalized, str_uppercase, uppercase};
use vstd::prelude::*;

verus! {

/// The source text of the controller of the module `name`, whose capitalized name is `cap`.
pub open spec fn controller_text(name: Seq<char>, cap: Seq<char>) -> Seq<char> {
    Seq::<char>::empty()
        + "\n"@
        + "use axum::{\n"@
        + "    extract::Path,\n"@
        + "    http::StatusCode,\n"@
        + "    Json,\n"@
        + "};\n"@
        + "use crate::"@
        + name
        + "::dto::"@
        + name
        + "_dto::{Create"@
        + cap
        + "Dto, Update"@
        + cap
        + "Dto};\n"@
        + "use crate::"@
        + name
        + "::"@
        + name
        + "_service;\n"@
        + "\n"@
        + "// Create a "@
        + name
        + "\n"@
        + "pub async fn create(Json(dto): Json<Create"@
        + cap
        + "Dto>) -> (StatusCode, String) {\n"@
        + "    let message = "@
        + name
        + "_service::create(dto);\n"@
        + "    (StatusCode::CREATED, message)\n"@
        + "}\n"@
        + "\n"@
        + "// Get all "@
        + name
        + "s\n"@
        + "pub async fn find_all() -> (StatusCode, String) {\n"@
        + "    let message = "@
        + name
        + "_service::find_all();\n"@
        + "    (StatusCode::OK, message)\n"@
        + "}\n"@
        + "\n"@
        + "// Get one "@
        + name
        + " by ID\n"@
        + "pub async fn find_one(Path(id): Path<u32>) -> (StatusCode, String) {\n"@
        + "    let message = "@
        + name
        + "_service::find_one(id);\n"@
        + "    (StatusCode::OK, message)\n"@
        + "}\n"@
        + "\n"@
        + "// Update a "@
        + name
        + " by ID\n"@
        + "pub async fn update(Path(id): Path<u32>, Json(dto): Json<Update"@
        + cap
        + "Dto>) -> (StatusCode, String) {\n"@
        + "    let message = "@
        + name
        + "_service::update(id, dto);\n"@
        + "    (StatusCode::OK, message)\n"@
        + "}\n"@
        + "\n"@
        + "// Remove a "@
        + name
        + " by ID\n"@
        + "pub async fn remove(Path(id): Path<u32>) -> (StatusCode, String) {\n"@
        + "    let message = "@
        + name
        + "_service::remove(id);\n"@
        + "    (StatusCode::OK, message)\n"@
        + "}\n"@
}

/// Writes out the source text of the controller of a module.
pub fn render_controller(name: &str, cap: &str) -> (r: String)
    ensures
        r@ == controller_text(name@, cap@),
{
    let mut r = String::new();
    r.append("\n");
    r.append("use axum::{\n");
    r.append("    extract::Path,\n");
    r.append("    http::StatusCode,\n");
    r.append("    Json,\n");
    r.append("};\n");
    r.append("use crate::");
    r.append(name);
    r.append("::dto::");
    r.append(name);
    r.append("_dto::{Create");
    r.append(cap);
    r.append("Dto, Update");
    r.append(cap);
    r.append("Dto};\n");
    r.append("use crate::");
    r.append(name);
    r.append("::");
    r.append(name);
    r.append("_service;\n");
    r.append("\n");
    r.append("// Create a ");
    r.append(name);
    r.append("\n");
    r.append("pub async fn create(Json(dto): Json<Create");
    r.append(cap);
    r.append("Dto>) -> (StatusCode, String) {\n");
    r.append("    let message = ");
    r.append(name);
    r.append("_service::create(dto);\n");
    r.append("    (StatusCode::CREATED, message)\n");
    r.append("}\n");
    r.append("\n");
    r.append("// Get all ");
    r.append(name);
    r.append("s\n");
    r.append("pub async fn find_all() -> (StatusCode, String) {\n");
    r.append("    let message = ");
    r.append(name);
    r.append("_service::find_all();\n");
    r.append("    (StatusCode::OK, message)\n");
    r.append("}\n");
    r.append("\n");
    r.append("// Get one ");
    r.append(name);
    r.append(" by ID\n");
    r.append("pub async fn find_one(Path(id): Path<u32>) -> (StatusCode, String) {\n");
    r.append("    let message = ");
    r.append(name);
    r.append("_service::find_one(id);\n");
    r.append("    (StatusCode::OK, message)\n");
    r.append("}\n");
    r.append("\n");
    r.append("// Update a ");
    r.append(name);
    r.append(" by ID\n");
    r.append("pub async fn update(Path(id): Path<u32>, Json(dto): Json<Update");
    r.append(cap);
    r.append("Dto>) -> (StatusCode, String) {\n");
    r.append("    let message = ");
    r.append(name);
    r.append("_service::update(id, dto);\n");
    r.append("    (StatusCode::OK, message)\n");
    r.append("}\n");
    r.append("\n");
    r.append("// Remove a ");
    r.append(name);
    r.append(" by ID\n");
    r.append("pub async fn remove(Path(id): Path<u32>) -> (StatusCode, String) {\n");
    r.append("    let message = ");
    r.append(name);
    r.append("_service::remove(id);\n");
    r.append("    (StatusCode::OK, message)\n");
    r.append("}\n");
    r
}

/// The source text of the controller of a module named `name`.
pub fn controller_template(name: &str) -> (r: String)
    ensures
        r@ == controller_text(name@, capitalized(name@)),
{
    let cap = capitalize(name);
    render_controller(name, cap.as_str())
}

/// The source text of the service of the module `name`, whose capitalized name is `cap` and whose upper-case name is `upp`.
pub open spec fn service_text(name: Seq<char>, cap: Seq<char>, upp: Seq<char>) -> Seq<char> {
    Seq::<char>::empty()
        + "\n"@
        + "use crate::"@
        + name
        + "::dto::"@
        + name
        + "_dto::{Create"@
        + cap
        + "Dto, Update"@
        + cap
        + "Dto};\n"@
        + "use crate::"@
        + name
        + "::entities::"@
        + name
        + "_entity::"@
        + cap
        + ";\n"@
        + "use std::sync::Mutex;\n"@
        + "use once_cell::sync::Lazy;\n"@
        + "\n"@
        + "static "@
        + upp
        + "S: Lazy<Mutex<Vec<"@
        + cap
        + ">>> = Lazy::new(|| Mutex::new(Vec::new()));\n"@
        + "\n"@
        + "pub fn create(dto: Create"@
        + cap
        + "Dto) -> String {\n"@
        + "    let mut "@
        + name
        + "s = "@
        + upp
        + "S.lock().unwrap();\n"@
        + "    let id = ("@
        + name
        + "s.len() + 1) as u32;\n"@
        + "    let "@
        + name
        + " = "@
        + cap
        + " { id, field1: dto.field1, field2: dto.field2 };\n"@
        + "    "@
        + name
        + "s.push("@
        + name
        + ");\n"@
        + "    format!(\""@
        + cap
        + " created with id {}\", id)\n"@
        + "}\n"@
        + "\n"@
        + "pub fn find_all() -> String {\n"@
        + "    let "@
        + name
        + "s = "@
        + upp
        + "S.lock().unwrap();\n"@
        + "    format!(\"There are {} "@
        + name
        + "s in total\", "@
        + name
        + "s.len())\n"@
        + "}\n"@
        + "\n"@
        + "pub fn find_one(id: u32) -> String {\n"@
        + "    let "@
        + name
        + "s = "@
        + upp
        + "S.lock().unwrap();\n"@
        + "    if "@
        + name
        + "s.iter().any(|b| b.id == id) {\n"@
        + "        format!(\"Found "@
        + name
        + " with id {}\", id)\n"@
        + "    } else {\n"@
        + "        format!(\""@
        + cap
        + " with id {} not found\", id)\n"@
        + "    }\n"@
        + "}\n"@
        + "\n"@
        + "pub fn update(id: u32, dto: Update"@
        + cap
        + "Dto) -> String {\n"@
        + "    let mut "@
        + name
        + "s = "@
        + upp
        + "S.lock().unwrap();\n"@
        + "    if let Some("@
        + name
        + ") = "@
        + name
        + "s.iter_mut().find(|b| b.id == id) {\n"@
        + "        if let Some(field1) = dto.field1 {\n"@
        + "            "@
        + name
        + ".field1 = field1;\n"@
        + "        }\n"@
        + "        if let Some(field2) = dto.field2 {\n"@
        + "            "@
        + name
        + ".field2 = field2;\n"@
        + "        }\n"@
        + "        return format!(\""@
        + cap
        + " with id {} updated\", id);\n"@
        + "    }\n"@
        + "    format!(\""@
        + cap
        + " with id {} not found\", id)\n"@
        + "}\n"@
        + "\n"@
        + "pub fn remove(id: u32) -> String {\n"@
        + "    let mut "@
        + name
        + "s = "@
        + upp
        + "S.lock().unwrap();\n"@
        + "    let len_before = "@
        + name
        + "s.len();\n"@
        + "    "@
        + name
        + "s.retain(|b| b.id != id);\n"@
        + "    if "@
        + name
        + "s.len() < len_before {\n"@
        + "        format!(\""@
        + cap
        + " with id {} removed\", id)\n"@
        + "    } else {\n"@
        + "        format!(\""@
        + cap
        + " with id {} not found\", id)\n"@
        + "    }\n"@
        + "}\n"@
}

/// Writes out the source text of the service of a module.
pub fn render_service(name: &str, cap: &str, upp: &str) -> (r: String)
    ensures
        r@ == service_text(name@, cap@, upp@),
{
    let mut r = String::new();
    r.append("\n");
    r.append("use crate::");
    r.append(name);
    r.append("::dto::");
    r.append(name);
    r.append("_dto::{Create");
    r.append(cap);
    r.append("Dto, Update");
    r.append(cap);
    r.append("Dto};\n");
    r.append("use crate::");
    r.append(name);
    r.append("::entities::");
    r.append(name);
    r.append("_entity::");
    r.append(cap);
    r.append(";\n");
    r.append("use std::sync::Mutex;\n");
    r.append("use once_cell::sync::Lazy;\n");
    r.append("\n");
    r.append("static ");
    r.append(upp);
    r.append("S: Lazy<Mutex<Vec<");
    r.append(cap);
    r.append(">>> = Lazy::new(|| Mutex::new(Vec::new()));\n");
    r.append("\n");
    r.append("pub fn create(dto: Create");
    r.append(cap);
    r.append("Dto) -> String {\n");
    r.append("    let mut ");
    r.append(name);
    r.append("s = ");
    r.append(upp);
    r.append("S.lock().unwrap();\n");
    r.append("    let id = (");
    r.append(name);
    r.append("s.len() + 1) as u32;\n");
    r.append("    let ");
    r.append(name);
    r.append(" = ");
    r.append(cap);
    r.append(" { id, field1: dto.field1, field2: dto.field2 };\n");
    r.append("    ");
    r.append(name);
    r.append("s.push(");
    r.append(name);
    r.append(");\n");
    r.append("    format!(\"");
    r.append(cap);
    r.append(" created with id {}\", id)\n");
    r.append("}\n");
    r.append("\n");
    r.append("pub fn find_all() -> String {\n");
    r.append("    let ");
    r.append(name);
    r.append("s = ");
    r.append(upp);
    r.append("S.lock().unwrap();\n");
    r.append("    format!(\"There are {} ");
    r.append(name);
    r.append("s in total\", ");
    r.append(name);
    r.append("s.len())\n");
    r.append("}\n");
    r.append("\n");
    r.append("pub fn find_one(id: u32) -> String {\n");
    r.append("    let ");
    r.append(name);
    r.append("s = ");
    r.append(upp);
    r.append("S.lock().unwrap();\n");
    r.append("    if ");
    r.append(name);
    r.append("s.iter().any(|b| b.id == id) {\n");
    r.append("        format!(\"Found ");
    r.append(name);
    r.append(" with id {}\", id)\n");
    r.append("    } else {\n");
    r.append("        format!(\"");
    r.append(cap);
    r.append(" with id {} not found\", id)\n");
    r.append("    }\n");
    r.append("}\n");
    r.append("\n");
    r.append("pub fn update(id: u32, dto: Update");
    r.append(cap);
    r.append("Dto) -> String {\n");
    r.append("    let mut ");
    r.append(name);
    r.append("s = ");
    r.append(upp);
    r.append("S.lock().unwrap();\n");
    r.append("    if let Some(");
    r.append(name);
    r.append(") = ");
    r.append(name);
    r.append("s.iter_mut().find(|b| b.id == id) {\n");
    r.append("        if let Some(field1) = dto.field1 {\n");
    r.append("            ");
    r.append(name);
    r.append(".field1 = field1;\n");
    r.append("        }\n");
    r.append("        if let Some(field2) = dto.field2 {\n");
    r.append("            ");
    r.append(name);
    r.append(".field2 = field2;\n");
    r.append("        }\n");
    r.append("        return format!(\"");
    r.append(cap);
    r.append(" with id {} updated\", id);\n");
    r.append("    }\n");
    r.append("    format!(\"");
    r.append(cap);
    r.append(" with id {} not found\", id)\n");
    r.append("}\n");
    r.append("\n");
    r.append("pub fn remove(id: u32) -> String {\n");
    r.append("    let mut ");
    r.append(name);
    r.append("s = ");
    r.append(upp);
    r.append("S.lock().unwrap();\n");
    r.append("    let len_before = ");
    r.append(name);
    r.append("s.len();\n");
    r.append("    ");
    r.append(name);
    r.append("s.retain(|b| b.id != id);\n");
    r.append("    if ");
    r.append(name);
    r.append("s.len() < len_before {\n");
    r.append("        format!(\"");
    r.append(cap);
    r.append(" with id {} removed\", id)\n");
    r.append("    } else {\n");
    r.append("        format!(\"");
    r.append(cap);
    r.append(" with id {} not found\", id)\n");
    r.append("    }\n");
    r.append("}\n");
    r
}

/// The source text of the service of a module named `name`.
pub fn service_template(name: &str) -> (r: String)
    ensures
        r@ == service_text(name@, capitalized(name@), str_uppercase(name@)),
{
    let cap = capitalize(name);
    let upp = uppercase(name);
    render_service(name, cap.as_str(), upp.as_str())
}

/// The source text of the data-transfer objects of the module whose capitalized name is `cap`.
pub open spec fn dto_text(cap: Seq<char>) -> Seq<char> {
    Seq::<char>::empty()
        + "\n"@
        + "use serde::Deserialize;\n"@
        + "\n"@
        + "#[derive(Deserialize)]\n"@
        + "pub struct Create"@
        + cap
        + "Dto {\n"@
        + "    pub field1: String,\n"@
        + "    pub field2: String,\n"@
        + "}\n"@
        + "\n"@
        + "#[derive(Deserialize)]\n"@
        + "pub struct Update"@
        + cap
        + "Dto {\n"@
        + "    pub field1: Option<String>,\n"@
        + "    pub field2: Option<String>,\n"@
        + "}\n"@
}

/// Writes out the source text of the data-transfer objects of a module.
pub fn render_dto(cap: &str) -> (r: String)
    ensures
        r@ == dto_text(cap@),
{
    let mut r = String::new();
    r.append("\n");
    r.append("use serde::Deserialize;\n");
    r.append("\n");
    r.append("#[derive(Deserialize)]\n");
    r.append("pub struct Create");
    r.append(cap);
    r.append("Dto {\n");
    r.append("    pub field1: String,\n");
    r.append("    pub field2: String,\n");
    r.append("}\n");
    r.append("\n");
    r.append("#[derive(Deserialize)]\n");
    r.append("pub struct Update");
    r.append(cap);
    r.append("Dto {\n");
    r.append("    pub field1: Option<String>,\n");
    r.append("    pub field2: Option<String>,\n");
    r.append("}\n");
    r
}

/// The source text of the data-transfer objects of a module named `name`.
pub fn dto_template(name: &str) -> (r: String)
    ensures
        r@ == dto_text(capitalized(name@)),
{
    let cap = capitalize(name);
    render_dto(cap.as_str())
}

/// The source text of the entity of the module whose capitalized name is `cap`.
pub open spec fn entity_text(cap: Seq<char>) -> Seq<char> {
    Seq::<char>::empty()
        + "\n"@
        + "use serde::{Serialize, Deserialize};\n"@
        + "\n"@
        + "#[derive(Clone, Serialize, Deserialize)]\n"@
        + "pub struct "@
        + cap
        + " {\n"@
        + "    pub id: u32,\n"@
        + "    pub field1: String,\n"@
        + "    pub field2: String,\n"@
        + "}\n"@
}

/// Writes out the source text of the entity of a module.
pub fn render_entity(cap: &str) -> (r: String)
    ensures
        r@ == entity_text(cap@),
{
    let mut r = String::new();
    r.append("\n");
    r.append("use serde::{Serialize, Deserialize};\n");
    r.append("\n");
    r.append("#[derive(Clone, Serialize, Deserialize)]\n");
    r.append("pub struct ");
    r.append(cap);
    r.append(" {\n");
    r.append("    pub id: u32,\n");
    r.append("    pub field1: String,\n");
    r.append("    pub field2: String,\n");
    r.append("}\n");
    r
}

/// The source text of the entity of a module named `name`.
pub fn entity_template(name: &str) -> (r: String)
    ensures
        r@ == entity_text(capitalized(name@)),
{
    let cap = capitalize(name);
    render_entity(cap.as_str())
}

} // verus!
