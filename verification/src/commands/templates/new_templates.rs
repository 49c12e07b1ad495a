//! The text that a new project starts with.
use vstd::prelude::*;

verus! {

/// The composition root of a new project.
pub open spec fn main_text() -> Seq<char> {
    Seq::<char>::empty()
        + "\n"@
        + "use axum::{\n"@
        + "    routing::get,\n"@
        + "    Router\n"@
        + "};\n"@
        + "\n"@
        + "#[tokio::main]\n"@
        + "async fn main() {\n"@
        + "    // Compose the routes\n"@
        + "    let app = Router::new()\n"@
        + "        .route(\"/\", get(|| async { \"Hello, World!\" }))\n"@
        + "\n"@
        + "    // Run the app on localhost only\n"@
        + "    let listener = tokio::net::TcpListener::bind(\"127.0.0.1:3000\") // <- localhost\n"@
        + "        .await\n"@
        + "        .unwrap();\n"@
        + "\n"@
        + "    println!(\"🚀 Server running on http://127.0.0.1:3000\");\n"@
        + "\n"@
        + "    axum::serve(listener, app).await.unwrap();\n"@
        + "}\n"@
        + "\n"@
}

/// The composition root that a new project starts with. The project's name
/// has no part in it.
pub fn main_template(_name: &str) -> (r: String)
    ensures
        r@ == main_text(),
{
    let mut r = String::new();
    r.append("\n");
    r.append("use axum::{\n");
    r.append("    routing::get,\n");
    r.append("    Router\n");
    r.append("};\n");
    r.append("\n");
    r.append("#[tokio::main]\n");
    r.append("async fn main() {\n");
    r.append("    // Compose the routes\n");
    r.append("    let app = Router::new()\n");
    r.append("        .route(\"/\", get(|| async { \"Hello, World!\" }))\n");
    r.append("\n");
    r.append("    // Run the app on localhost only\n");
    r.append("    let listener = tokio::net::TcpListener::bind(\"127.0.0.1:3000\") // <- localhost\n");
    r.append("        .await\n");
    r.append("        .unwrap();\n");
    r.append("\n");
    r.append("    println!(\"🚀 Server running on http://127.0.0.1:3000\");\n");
    r.append("\n");
    r.append("    axum::serve(listener, app).await.unwrap();\n");
    r.append("}\n");
    r.append("\n");
    r
}

} // verus!
