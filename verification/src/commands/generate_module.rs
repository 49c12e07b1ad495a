//! Whole modules: the four artifacts, the route table and the wiring in the
//! composition root.
use crate::commands::generate::{
    self, generate_nested, lemma_nested_again, lemma_nested_artifact, lemma_nested_frame,
    lemma_nested_keeps_everything, lemma_nested_kept, lemma_nested_layout,
    lemma_nested_leaves_alone, lemma_nested_paths, lemma_nested_succeeds,
    lemma_nested_succeeds_leaves, nested_artifact, nested_chain, nested_done, nested_dto,
    nested_entity, nested_frame, nested_free, nested_service, nested_touched, nested_touches,
};
use crate::commands::generate_item::main_path;
use crate::commands::templates::generate_templates::{
    controller_template, controller_text, dto_template, dto_text, entity_template, entity_text,
    service_template, service_text,
};
use crate::utils::common::{capitalized, str_uppercase};
use crate::utils::file::{
    append_unless_present, careful, grown, is_manifest, lemma_fixed_paths, lemma_manifest_mark,
    lemma_manifest_marks, lemma_steps_are_careful, lemma_steps_keep_everything, lemma_then_careful,
    lemma_then_keeps, lemma_then_same_but, lemma_written, lemma_written_again, manifest_path, mark,
    root_manifest_path, same_but,
};
use crate::utils::manifest::one_line;
use crate::utils::root::{
    applied, declared_before_chain, ensure_module_registered, ensure_route_nested,
    lemma_anchor_stays_missing, lemma_behind_modules, lemma_declaration_is_not_parted,
    lemma_patch_takes_hold, lemma_patch_twice, lemma_plans_in_bounds, lemma_splice_keeps_occurrence,
    lemma_terminator_at, module_declaration, module_plan, nest_line, nest_plan, plain, status,
    Patch, Plan,
};
use crate::utils::target::{lemma_file_mark, lemma_target, resolve, target, Kind, Layout};
use crate::utils::text::{
    contains, find, find_from, lemma_contains_in_part, lemma_find_from, lemma_occurrence_is_found,
    lemma_rfind, lemma_splice, occurs_at, rfind,
};
use crate::utils::tree::{
    agrees, done, flat, join_path, lemma_join, parent, read_failure, written, Outcome,
    ScaffoldError, SourceTree, TreeView,
};
use vstd::prelude::*;

verus! {

/// The route table of a module whose controller is the module `mod_name`.
pub open spec fn routes_text(mod_name: Seq<char>) -> Seq<char> {
    Seq::<char>::empty()
        + "\n"@
        + "use axum::Router;\n"@
        + "use axum::routing::{get, post, patch, delete};\n"@
        + "\n"@
        + "pub fn routes() -> Router {\n"@
        + "    Router::new()\n"@
        + "        .route(\"/\", post("@
        + mod_name
        + "::create).get("@
        + mod_name
        + "::find_all))\n"@
        + "        .route(\"/{id}\", get("@
        + mod_name
        + "::find_one)\n"@
        + "            .patch("@
        + mod_name
        + "::update)\n"@
        + "            .delete("@
        + mod_name
        + "::remove))\n"@
        + "}\n"@
}

/// Writes out the route table of a module.
pub fn render_routes(mod_name: &str) -> (r: String)
    ensures
        r@ == routes_text(mod_name@),
{
    let mut r = String::new();
    r.append("\n");
    r.append("use axum::Router;\n");
    r.append("use axum::routing::{get, post, patch, delete};\n");
    r.append("\n");
    r.append("pub fn routes() -> Router {\n");
    r.append("    Router::new()\n");
    r.append("        .route(\"/\", post(");
    r.append(mod_name);
    r.append("::create).get(");
    r.append(mod_name);
    r.append("::find_all))\n");
    r.append("        .route(\"/{id}\", get(");
    r.append(mod_name);
    r.append("::find_one)\n");
    r.append("            .patch(");
    r.append(mod_name);
    r.append("::update)\n");
    r.append("            .delete(");
    r.append(mod_name);
    r.append("::remove))\n");
    r.append("}\n");
    r
}

/// What tells that a manifest holds a route table.
pub open spec fn routes_marker() -> Seq<char> {
    "pub fn routes() -> Router"@
}

/// What the generation of the controller of a module does to a tree,
/// with `text` as the text of the controller: the controller is
/// generated, and then the module's manifest gets the route table at its
/// end, unless it holds one.
pub open spec fn module_controller(t: TreeView, name: Seq<char>, text: Seq<char>) -> Outcome {
    let p = target(Kind::Controller, name, Layout::Nested);
    nested_artifact(t, Kind::Controller, name, text).append_unless(
        manifest_path(p.module_dir),
        routes_marker(),
        routes_text(p.stem),
    )
}

/// Generates the controller of the module `name` with `text` as its
/// text, in `src/name/name_controller.rs`, and the route table of the
/// module, in the module's manifest.
pub fn scaffold_controller(tree: &mut SourceTree, name: &str, text: &str) -> (r: Result<
    String,
    ScaffoldError,
>)
    ensures
        final(tree)@ == module_controller(old(tree)@, name@, text@).tree,
        agrees(r, module_controller(old(tree)@, name@, text@).failure),
        r matches Ok(p) ==> p@ == target(Kind::Controller, name@, Layout::Nested).file,
{
    let file = match generate_nested(tree, Kind::Controller, name, text) {
        Err(e) => {
            return Err(e);
        },
        Ok(f) => f,
    };
    let p = resolve(Kind::Controller, name, Layout::Nested);
    let mod_rs = join_path(p.module_dir.as_str(), "mod.rs");
    let routes = render_routes(p.stem.as_str());
    match append_unless_present(
        tree,
        mod_rs.as_str(),
        "pub fn routes() -> Router",
        routes.as_str(),
    ) {
        Err(e) => {
            return Err(e);
        },
        Ok(_) => {},
    }
    Ok(file)
}

/// Generates the controller of the module `name`, in
/// `src/name/name_controller.rs`, and the route table of the module, in
/// the module's manifest.
pub fn generate_controller(tree: &mut SourceTree, name: String) -> (r: Result<
    String,
    ScaffoldError,
>)
    ensures
        final(tree)@ == module_controller(
            old(tree)@,
            name@,
            controller_text(name@, capitalized(name@)),
        ).tree,
        agrees(
            r,
            module_controller(
                old(tree)@,
                name@,
                controller_text(name@, capitalized(name@)),
            ).failure,
        ),
        r matches Ok(p) ==> p@ == target(Kind::Controller, name@, Layout::Nested).file,
{
    let text = controller_template(name.as_str());
    scaffold_controller(tree, name.as_str(), text.as_str())
}

/// Generates the service of the module `name`, in
/// `src/name/name_service.rs`.
pub fn generate_service(tree: &mut SourceTree, name: String) -> (r: Result<String, ScaffoldError>)
    ensures
        final(tree)@ == nested_service(old(tree)@, name@).tree,
        agrees(r, nested_service(old(tree)@, name@).failure),
        r matches Ok(p) ==> p@ == target(Kind::Service, name@, Layout::Nested).file,
{
    generate::generate_service(tree, name)
}

/// Generates the data-transfer objects of the module `name`, in
/// `src/name/dto/name_dto.rs`.
pub fn generate_dto(tree: &mut SourceTree, name: String) -> (r: Result<String, ScaffoldError>)
    ensures
        final(tree)@ == nested_dto(old(tree)@, name@).tree,
        agrees(r, nested_dto(old(tree)@, name@).failure),
        r matches Ok(p) ==> p@ == target(Kind::Dto, name@, Layout::Nested).file,
{
    generate::generate_dto(tree, name)
}

/// Generates the entity of the module `name`, in
/// `src/name/entities/name_entity.rs`.
pub fn generate_entity(tree: &mut SourceTree, name: String) -> (r: Result<String, ScaffoldError>)
    ensures
        final(tree)@ == nested_entity(old(tree)@, name@).tree,
        agrees(r, nested_entity(old(tree)@, name@).failure),
        r matches Ok(p) ==> p@ == target(Kind::Entity, name@, Layout::Nested).file,
{
    generate::generate_entity(tree, name)
}

/// The composition root `content` once the module `name` is declared in
/// it.
pub open spec fn module_declared(content: Seq<char>, name: Seq<char>) -> Seq<char> {
    applied(content, module_plan(content, name))
}

/// The composition root `content` once the module `name` is wired in: the
/// module is declared, and then its routes are nested.
pub open spec fn module_wired(content: Seq<char>, name: Seq<char>) -> Seq<char> {
    applied(module_declared(content, name), nest_plan(module_declared(content, name), name))
}

/// The texts of the four artifacts of a module.
pub struct ModuleTexts {
    pub entity: String,
    pub dto: String,
    pub service: String,
    pub controller: String,
}

/// The texts of the four artifacts of a module, in specifications.
pub struct Texts {
    pub entity: Seq<char>,
    pub dto: Seq<char>,
    pub service: Seq<char>,
    pub controller: Seq<char>,
}

impl View for ModuleTexts {
    type V = Texts;

    open spec fn view(&self) -> Texts {
        Texts {
            entity: self.entity@,
            dto: self.dto@,
            service: self.service@,
            controller: self.controller@,
        }
    }
}

/// The texts that the four artifacts of the module `name` are generated
/// with.
pub open spec fn module_texts_of(name: Seq<char>) -> Texts {
    Texts {
        entity: entity_text(capitalized(name)),
        dto: dto_text(capitalized(name)),
        service: service_text(name, capitalized(name), str_uppercase(name)),
        controller: controller_text(name, capitalized(name)),
    }
}

/// The step of the generation of a module that follows the given one: the
/// artifact of the kind `kind`, with the text `text`.
pub open spec fn then_nested(o: Outcome, kind: Kind, name: Seq<char>, text: Seq<char>) -> Outcome {
    if o.failure is Some {
        o
    } else {
        nested_artifact(o.tree, kind, name, text)
    }
}

/// The tree once all four artifacts of the module `name` are generated:
/// entity, data-transfer objects, service, and the controller with the
/// route table, in this order.
pub open spec fn module_parts(t: TreeView, name: Seq<char>, texts: Texts) -> Outcome {
    let entity = nested_artifact(t, Kind::Entity, name, texts.entity);
    let dto = then_nested(entity, Kind::Dto, name, texts.dto);
    let service = then_nested(dto, Kind::Service, name, texts.service);
    if service.failure is Some {
        service
    } else {
        module_controller(service.tree, name, texts.controller)
    }
}

/// What the generation of a module does to a tree: the four artifacts are
/// generated, then the composition root, which must be there, is patched
/// and written back. The first step that fails ends it, and what was done
/// stays done.
pub open spec fn module_scaffold(t: TreeView, name: Seq<char>, texts: Texts) -> Outcome {
    let parts = module_parts(t, name, texts);
    if parts.failure is Some {
        parts
    } else {
        match read_failure(parts.tree, main_path()) {
            Some(f) => Outcome { tree: parts.tree, failure: Some(f) },
            None => written(
                parts.tree,
                main_path(),
                module_wired(parts.tree.files[main_path()], name),
            ),
        }
    }
}

/// The route table starts on a new line, ends with a line feed, and holds
/// what tells that a manifest has a route table.
pub proof fn lemma_routes_text(mod_name: Seq<char>)
    ensures
        routes_text(mod_name).len() > 0,
        routes_text(mod_name)[0] == '\n',
        routes_text(mod_name).last() == '\n',
        contains(routes_text(mod_name), routes_marker()),
{
    reveal_strlit("\n");
    reveal_strlit("}\n");
    reveal_strlit("pub fn routes() -> Router");
    reveal_strlit("pub fn routes() -> Router {\n");
    let header = "pub fn routes() -> Router {\n"@;
    let before = Seq::<char>::empty()
        + "\n"@
        + "use axum::Router;\n"@
        + "use axum::routing::{get, post, patch, delete};\n"@
        + "\n"@;
    let behind = Seq::<char>::empty()
        + "    Router::new()\n"@
        + "        .route(\"/\", post("@
        + mod_name
        + "::create).get("@
        + mod_name
        + "::find_all))\n"@
        + "        .route(\"/{id}\", get("@
        + mod_name
        + "::find_one)\n"@
        + "            .patch("@
        + mod_name
        + "::update)\n"@
        + "            .delete("@
        + mod_name
        + "::remove))\n"@
        + "}\n"@;
    assert(header.subrange(0, routes_marker().len() as int) =~= routes_marker());
    lemma_occurrence_is_found(header, routes_marker(), 0);
    assert(routes_text(mod_name) =~= before + header + behind);
    lemma_contains_in_part(before, header, behind, routes_marker());
}

/// The composition root is no manifest, and is told from the file of
/// every artifact by its mark.
pub proof fn lemma_main_path()
    ensures
        main_path().len() == 11,
        mark(main_path()) == 'n',
        !is_manifest(main_path()),
{
    reveal_strlit("src");
    reveal_strlit("main.rs");
    if is_manifest(main_path()) {
        lemma_manifest_mark(main_path());
    }
}

/// The generation of the controller of a module, with its route table,
/// leaves alone what it does not make, in every tree, for every name,
/// and whether it ends well or not: a path that it does not write to is
/// a file afterwards exactly if it was one, with the text that it had;
/// the manifests that it writes to declare what they declared; nothing
/// goes; and where it ends well, the file of the controller is there,
/// with its text.
pub proof fn lemma_module_controller_leaves_alone(t: TreeView, name: Seq<char>, text: Seq<char>)
    requires
        t.consistent(),
    ensures
        same_but(
            t,
            module_controller(t, name, text).tree,
            nested_touched(Kind::Controller, name),
        ),
        careful(
            t,
            module_controller(t, name, text).tree,
            target(Kind::Controller, name, Layout::Nested).file,
        ),
        module_controller(t, name, text).failure is None ==> {
            let u = module_controller(t, name, text).tree;
            let f = target(Kind::Controller, name, Layout::Nested).file;
            u.files.contains_key(f) && u.files[f] == text
        },
{
    let p = target(Kind::Controller, name, Layout::Nested);
    let a = manifest_path(p.module_dir);
    let made = nested_artifact(t, Kind::Controller, name, text);
    lemma_nested_leaves_alone(t, Kind::Controller, name, text);
    lemma_nested_paths(Kind::Controller, name);
    lemma_manifest_marks(p.module_dir, Seq::empty());
    lemma_routes_text(p.stem);
    assert(nested_touched(Kind::Controller, name).contains(a));
    lemma_then_careful(t, made, p.file, a, routes_text(p.stem), routes_marker());
    lemma_then_same_but(
        t,
        made,
        nested_touched(Kind::Controller, name),
        a,
        routes_text(p.stem),
        routes_marker(),
    );
}

/// Of the generation of the controller of a module, where it ends well,
/// for a name that is one line: the controller is all there afterwards,
/// the module's manifest holds a route table, and to generate once more
/// changes nothing.
pub proof fn lemma_module_controller(t: TreeView, name: Seq<char>, text: Seq<char>)
    requires
        t.consistent(),
        one_line(name),
        module_controller(t, name, text).failure is None,
    ensures
        nested_done(module_controller(t, name, text).tree, Kind::Controller, name, text),
        contains(
            module_controller(t, name, text).tree.files[manifest_path(
                target(Kind::Controller, name, Layout::Nested).module_dir,
            )],
            routes_marker(),
        ),
        module_controller(module_controller(t, name, text).tree, name, text)
            == module_controller(t, name, text),
{
    let p = target(Kind::Controller, name, Layout::Nested);
    let a = manifest_path(p.module_dir);
    lemma_nested_artifact(t, Kind::Controller, name, text);
    lemma_nested_leaves_alone(t, Kind::Controller, name, text);
    lemma_nested_paths(Kind::Controller, name);
    lemma_manifest_marks(p.module_dir, Seq::empty());
    lemma_main_path();
    lemma_file_mark(Kind::Controller, name, Layout::Nested);
    lemma_routes_text(p.stem);
    let made = nested_artifact(t, Kind::Controller, name, text);
    let t1 = made.tree;
    let u = module_controller(t, name, text).tree;
    if contains(t1.files[a], routes_marker()) {
        assert(u == t1);
    } else {
        let grown_text = t1.files[a] + routes_text(p.stem);
        lemma_written(t1, a, grown_text);
        lemma_contains_in_part(t1.files[a], routes_text(p.stem), Seq::empty(), routes_marker());
        assert(t1.files[a] + routes_text(p.stem) + Seq::<char>::empty() =~= grown_text);
        lemma_then_careful(t1, done(t1), main_path(), a, routes_text(p.stem), routes_marker());
        lemma_nested_kept(t1, u, main_path(), Kind::Controller, name, text);
    }
    lemma_nested_again(u, Kind::Controller, name, text);
}

/// To wire a module into a composition root twice is to wire it in once,
/// for a name that is plain and a root that holds the declaration of the
/// module, if at all, before the start of its chain. This holds also of
/// the root in which the declaration finds no place while the line that
/// nests the routes goes in.
pub proof fn lemma_module_wired_twice(content: Seq<char>, name: Seq<char>)
    requires
        plain(name),
        declared_before_chain(content, name),
    ensures
        module_wired(module_wired(content, name), name) == module_wired(content, name),
{
    reveal_strlit(";");
    let decl = module_declaration(name);
    let chain = "Router::new()"@;
    let declared = module_declared(content, name);
    let wired = module_wired(content, name);
    lemma_patch_twice(content, name);
    lemma_patch_takes_hold(declared, name);
    lemma_plans_in_bounds(content, name);
    lemma_plans_in_bounds(declared, name);
    match nest_plan(declared, name) {
        Plan::Keep(_) => {},
        Plan::Insert(q, line) => {
            lemma_find_from(declared, chain, 0);
            let r = find(declared, chain)->0;
            lemma_find_from(declared, ";"@, r);
            lemma_terminator_at(declared, q);
            match module_plan(content, name) {
                Plan::Keep(Patch::AnchorMissing) => {
                    assert(declared == content);
                    let u = rfind(content, "use "@)->0;
                    lemma_rfind(content, "use "@);
                    lemma_find_from(content, ";"@, u);
                    lemma_terminator_at(content, q);
                    assert(q < u);
                    lemma_anchor_stays_missing(content, q, line);
                },
                Plan::Keep(_) => {
                    assert(declared == content);
                    assert(contains(content, decl));
                    assert(find(content, chain) == Some(r));
                    let i = choose|i: int|
                        occurs_at(content, decl, i) && i + decl.len() <= r;
                    lemma_splice_keeps_occurrence(content, q, line, decl, i);
                },
                Plan::Insert(at, _) => {
                    lemma_splice(content, at, declared.subrange(at, at + decl.len() + 1));
                    let i = if at == 0 {
                        0
                    } else {
                        at + 1
                    };
                    if at == 0 && rfind(content, "use "@) is None {
                        lemma_splice(content, 0, decl + seq!['\n']);
                        assert(declared.subrange(0, decl.len() as int) =~= decl);
                    } else {
                        let u = rfind(content, "use "@)->0;
                        lemma_rfind(content, "use "@);
                        lemma_find_from(content, ";"@, u);
                        let e = find_from(content, ";"@, u)->0;
                        lemma_terminator_at(content, e);
                        lemma_behind_modules(content, e + 1);
                        lemma_splice(content, at, seq!['\n'] + decl);
                        assert(declared[at - 1] == content[at - 1]);
                        assert(declared.subrange(at, at + decl.len() + 1)[0] == '\n');
                        assert(declared.subrange(at + 1, at + 1 + decl.len()) =~= decl) by {
                            assert(declared.subrange(at + 1, at + 1 + decl.len())
                                =~= declared.subrange(at, at + 1 + decl.len()).subrange(
                                1,
                                1 + decl.len() as int,
                            ));
                        }
                    }
                    let i = if rfind(content, "use "@) is None {
                        0
                    } else {
                        at + 1
                    };
                    assert(occurs_at(declared, decl, i));
                    lemma_declaration_is_not_parted(declared, name, i, r, q);
                    lemma_splice_keeps_occurrence(declared, q, line, decl, i);
                },
            }
        },
    }
}

/// Whether nothing is in the way of the module: nothing is in the way of
/// any of its four artifacts, and the composition root is there.
pub open spec fn module_free(t: TreeView, name: Seq<char>) -> bool {
    &&& nested_free(t, Kind::Entity, name)
    &&& nested_free(t, Kind::Dto, name)
    &&& nested_free(t, Kind::Service, name)
    &&& nested_free(t, Kind::Controller, name)
    &&& t.files.contains_key(main_path())
}

/// Where nothing is in the way of an artifact, nothing is in its way
/// once an artifact of another kind is generated for the same module;
/// and what is in its way then was in its way before.
proof fn lemma_free_kept(t: TreeView, u: TreeView, made: Kind, next: Kind, name: Seq<char>)
    requires
        made != Kind::Middleware,
        next != Kind::Middleware,
        made != next,
        flat(name),
        name != "lib.rs"@,
        nested_frame(t, u, made, name),
        grown(t, u),
    ensures
        nested_free(t, next, name) <==> nested_free(u, next, name),
        t.files.contains_key(main_path()) <==> u.files.contains_key(main_path()),
{
    let m = target(made, name, Layout::Nested);
    let n = target(next, name, Layout::Nested);
    lemma_nested_layout(made, name);
    lemma_nested_layout(next, name);
    lemma_target(made, name, Layout::Nested);
    lemma_target(next, name, Layout::Nested);
    lemma_file_mark(made, name, Layout::Nested);
    lemma_file_mark(next, name, Layout::Nested);
    lemma_fixed_paths();
    lemma_main_path();
    lemma_manifest_marks(m.module_dir, Seq::empty());
    lemma_manifest_marks(m.dir, Seq::empty());
    lemma_manifest_marks(n.dir, Seq::empty());
    reveal_strlit("mod.rs");
    reveal_strlit("dto");
    reveal_strlit("entities");
    let lib = root_manifest_path();
    assert(lib != m.dir && lib != n.dir) by {
        assert(parent(lib) == "src"@);
    }
    assert(manifest_path(m.module_dir) != m.dir && manifest_path(m.module_dir) != n.dir) by {
        lemma_join(m.module_dir, "mod.rs"@);
    }
    assert(!nested_touches(made, name, "src"@));
    assert(!nested_touches(made, name, n.module_dir));
    assert(!nested_touches(made, name, n.dir));
    assert(!nested_touches(made, name, main_path()));
}

/// When the generation of a module ends well: in a tree in which no path
/// is both file and directory, and for a name of one part other than
/// `lib.rs`, exactly when nothing is in the way of any of the four
/// artifacts and the composition root is there.
#[verifier::rlimit(60)]
pub proof fn lemma_module_succeeds(t: TreeView, name: Seq<char>, texts: Texts)
    requires
        t.consistent(),
        flat(name),
        name != "lib.rs"@,
    ensures
        module_scaffold(t, name, texts).failure is None <==> module_free(t, name),
{
    let p = target(Kind::Controller, name, Layout::Nested);
    let a = manifest_path(p.module_dir);
    lemma_main_path();
    lemma_fixed_paths();
    lemma_nested_layout(Kind::Controller, name);
    reveal_strlit("main.rs");
    lemma_join("src"@, "main.rs"@);
    lemma_nested_succeeds(t, Kind::Entity, name, texts.entity);
    lemma_nested_frame(t, Kind::Entity, name, texts.entity);
    lemma_nested_keeps_everything(t, Kind::Entity, name, texts.entity);
    let o1 = nested_artifact(t, Kind::Entity, name, texts.entity);
    lemma_free_kept(t, o1.tree, Kind::Entity, Kind::Dto, name);
    lemma_free_kept(t, o1.tree, Kind::Entity, Kind::Service, name);
    lemma_free_kept(t, o1.tree, Kind::Entity, Kind::Controller, name);
    if o1.failure is None {
        let t1 = o1.tree;
        lemma_nested_succeeds(t1, Kind::Dto, name, texts.dto);
        lemma_nested_frame(t1, Kind::Dto, name, texts.dto);
        lemma_nested_keeps_everything(t1, Kind::Dto, name, texts.dto);
        let o2 = nested_artifact(t1, Kind::Dto, name, texts.dto);
        lemma_free_kept(t1, o2.tree, Kind::Dto, Kind::Service, name);
        lemma_free_kept(t1, o2.tree, Kind::Dto, Kind::Controller, name);
        if o2.failure is None {
            let t2 = o2.tree;
            lemma_nested_succeeds(t2, Kind::Service, name, texts.service);
            lemma_nested_frame(t2, Kind::Service, name, texts.service);
            lemma_nested_keeps_everything(t2, Kind::Service, name, texts.service);
            let o3 = nested_artifact(t2, Kind::Service, name, texts.service);
            lemma_free_kept(t2, o3.tree, Kind::Service, Kind::Controller, name);
            if o3.failure is None {
                let t3 = o3.tree;
                lemma_nested_succeeds(t3, Kind::Controller, name, texts.controller);
                lemma_nested_frame(t3, Kind::Controller, name, texts.controller);
                lemma_nested_keeps_everything(t3, Kind::Controller, name, texts.controller);
                let o4 = nested_artifact(t3, Kind::Controller, name, texts.controller);
                lemma_free_kept(t3, o4.tree, Kind::Controller, Kind::Entity, name);
                if o4.failure is None {
                    let t4 = o4.tree;
                    lemma_nested_succeeds_leaves(t3, Kind::Controller, name, texts.controller);
                    let o5 = module_controller(t3, name, texts.controller);
                    assert(o5.failure is None);
                    assert(o5.tree.dirs == t4.dirs);
                    assert(o5.tree.files.contains_key(main_path()) <==> t4.files.contains_key(
                        main_path(),
                    ));
                    assert(o5.tree.consistent());
                    assert(o5.tree.dirs.contains("src"@));
                }
            }
        }
    }
}

/// The generation of a module takes nothing away, whether it ends well or
/// not: what the tree had, file or directory, it has afterwards, also
/// where a step has failed and the steps before it are not taken back;
/// and no path becomes both file and directory.
pub proof fn lemma_module_keeps_everything(t: TreeView, name: Seq<char>, texts: Texts)
    requires
        t.consistent(),
    ensures
        module_parts(t, name, texts).keeps(t),
        module_scaffold(t, name, texts).keeps(t),
{
    let p = target(Kind::Controller, name, Layout::Nested);
    lemma_nested_keeps_everything(t, Kind::Entity, name, texts.entity);
    let entity = nested_artifact(t, Kind::Entity, name, texts.entity);
    lemma_nested_keeps_everything(entity.tree, Kind::Dto, name, texts.dto);
    let dto = then_nested(entity, Kind::Dto, name, texts.dto);
    lemma_nested_keeps_everything(dto.tree, Kind::Service, name, texts.service);
    let service = then_nested(dto, Kind::Service, name, texts.service);
    lemma_nested_keeps_everything(service.tree, Kind::Controller, name, texts.controller);
    let controller = nested_artifact(service.tree, Kind::Controller, name, texts.controller);
    lemma_then_keeps(
        service.tree,
        controller,
        manifest_path(p.module_dir),
        routes_text(p.stem),
        routes_marker(),
    );
    let parts = module_parts(t, name, texts);
    assert(parts.keeps(t));
    lemma_steps_keep_everything(
        parts.tree,
        main_path(),
        module_wired(parts.tree.files[main_path()], name),
        Seq::empty(),
    );
}

/// Whether `q` is one of the paths that the generation of the four
/// artifacts of the module writes to.
pub open spec fn module_touches(name: Seq<char>, q: Seq<char>) -> bool {
    ||| nested_touches(Kind::Entity, name, q)
    ||| nested_touches(Kind::Dto, name, q)
    ||| nested_touches(Kind::Service, name, q)
    ||| nested_touches(Kind::Controller, name, q)
}

/// The paths that the generation of the four artifacts of the module
/// writes to.
pub open spec fn module_touched(name: Seq<char>) -> Set<Seq<char>> {
    Set::new(|q: Seq<char>| module_touches(name, q))
}

/// Whether the four files of the module are there, each with its text.
pub open spec fn module_files(u: TreeView, name: Seq<char>, texts: Texts) -> bool {
    let e = target(Kind::Entity, name, Layout::Nested).file;
    let d = target(Kind::Dto, name, Layout::Nested).file;
    let s = target(Kind::Service, name, Layout::Nested).file;
    let c = target(Kind::Controller, name, Layout::Nested).file;
    &&& u.files.contains_key(e) && u.files[e] == texts.entity
    &&& u.files.contains_key(d) && u.files[d] == texts.dto
    &&& u.files.contains_key(s) && u.files[s] == texts.service
    &&& u.files.contains_key(c) && u.files[c] == texts.controller
}

/// Whether the four artifacts of the module `name` are all there, with
/// the route table.
pub open spec fn module_done(u: TreeView, name: Seq<char>, texts: Texts) -> bool {
    &&& nested_done(u, Kind::Entity, name, texts.entity)
    &&& nested_done(u, Kind::Dto, name, texts.dto)
    &&& nested_done(u, Kind::Service, name, texts.service)
    &&& nested_done(u, Kind::Controller, name, texts.controller)
    &&& contains(
        u.files[manifest_path(target(Kind::Controller, name, Layout::Nested).module_dir)],
        routes_marker(),
    )
}

/// The files of two artifacts of different kinds are different files,
/// and the file of the one is none of the manifests of the other.
pub proof fn lemma_files_apart(name: Seq<char>, made: Kind, next: Kind)
    requires
        made != Kind::Middleware,
        next != Kind::Middleware,
        made != next,
    ensures
        !nested_touches(next, name, target(made, name, Layout::Nested).file),
        target(made, name, Layout::Nested).file != main_path(),
{
    lemma_nested_paths(made, name);
    lemma_nested_paths(next, name);
    lemma_file_mark(made, name, Layout::Nested);
    lemma_file_mark(next, name, Layout::Nested);
    lemma_main_path();
    lemma_manifest_marks(target(next, name, Layout::Nested).module_dir, Seq::empty());
    lemma_manifest_marks(target(next, name, Layout::Nested).dir, Seq::empty());
}

/// The generation of the four artifacts of a module leaves alone what it
/// does not make, in every tree, for every name, and whether it ends well
/// or not: a path that it does not write to is a file afterwards exactly
/// if it was one, with the text that it had, and the composition root is
/// such a path; and where it ends well, the four files are there, each
/// with its text.
pub proof fn lemma_module_parts_leave_alone(t: TreeView, name: Seq<char>, texts: Texts)
    requires
        t.consistent(),
    ensures
        same_but(t, module_parts(t, name, texts).tree, module_touched(name)),
        !module_touches(name, main_path()),
        module_parts(t, name, texts).failure is None ==> module_files(
            module_parts(t, name, texts).tree,
            name,
            texts,
        ),
{
    let touched = module_touched(name);
    lemma_main_path();
    lemma_files_apart(name, Kind::Entity, Kind::Dto);
    lemma_files_apart(name, Kind::Entity, Kind::Service);
    lemma_files_apart(name, Kind::Entity, Kind::Controller);
    lemma_files_apart(name, Kind::Dto, Kind::Service);
    lemma_files_apart(name, Kind::Dto, Kind::Controller);
    lemma_files_apart(name, Kind::Service, Kind::Controller);
    lemma_files_apart(name, Kind::Controller, Kind::Entity);
    assert(!module_touches(name, main_path())) by {
        let p = target(Kind::Entity, name, Layout::Nested);
        let q = target(Kind::Dto, name, Layout::Nested);
        lemma_manifest_marks(p.module_dir, Seq::empty());
        lemma_manifest_marks(p.dir, Seq::empty());
        lemma_manifest_marks(q.dir, Seq::empty());
        lemma_nested_paths(Kind::Service, name);
        lemma_nested_paths(Kind::Controller, name);
    }
    lemma_nested_leaves_alone(t, Kind::Entity, name, texts.entity);
    lemma_nested_keeps_everything(t, Kind::Entity, name, texts.entity);
    let o1 = nested_artifact(t, Kind::Entity, name, texts.entity);
    assert(same_but(t, o1.tree, touched));
    lemma_nested_leaves_alone(o1.tree, Kind::Dto, name, texts.dto);
    lemma_nested_keeps_everything(o1.tree, Kind::Dto, name, texts.dto);
    let o2 = then_nested(o1, Kind::Dto, name, texts.dto);
    assert(same_but(t, o2.tree, touched));
    lemma_nested_leaves_alone(o2.tree, Kind::Service, name, texts.service);
    lemma_nested_keeps_everything(o2.tree, Kind::Service, name, texts.service);
    let o3 = then_nested(o2, Kind::Service, name, texts.service);
    assert(same_but(t, o3.tree, touched));
    lemma_module_controller_leaves_alone(o3.tree, name, texts.controller);
    assert(same_but(t, module_parts(t, name, texts).tree, touched));
}

/// An artifact that is all there is still all there once an artifact of
/// another kind is generated for the same module.
pub proof fn lemma_kept_by_next(
    t: TreeView,
    name: Seq<char>,
    made: Kind,
    made_text: Seq<char>,
    next: Kind,
    next_text: Seq<char>,
)
    requires
        made != Kind::Middleware,
        next != Kind::Middleware,
        made != next,
        t.consistent(),
        nested_done(t, made, name, made_text),
    ensures
        nested_done(nested_artifact(t, next, name, next_text).tree, made, name, made_text),
{
    lemma_nested_leaves_alone(t, next, name, next_text);
    lemma_nested_paths(next, name);
    lemma_files_apart(name, made, next);
    lemma_nested_kept(
        t,
        nested_artifact(t, next, name, next_text).tree,
        target(next, name, Layout::Nested).file,
        made,
        name,
        made_text,
    );
}

/// An artifact of another kind that is all there is still all there once
/// the controller of the module is generated.
proof fn lemma_controller_keeps(
    t: TreeView,
    name: Seq<char>,
    text: Seq<char>,
    made: Kind,
    made_text: Seq<char>,
)
    requires
        made != Kind::Middleware,
        made != Kind::Controller,
        t.consistent(),
        nested_done(t, made, name, made_text),
    ensures
        nested_done(module_controller(t, name, text).tree, made, name, made_text),
{
    lemma_module_controller_leaves_alone(t, name, text);
    lemma_nested_paths(Kind::Controller, name);
    lemma_files_apart(name, made, Kind::Controller);
    lemma_nested_kept(
        t,
        module_controller(t, name, text).tree,
        target(Kind::Controller, name, Layout::Nested).file,
        made,
        name,
        made_text,
    );
}

/// The four artifacts of a module are generated one after the other, each
/// leaving alone what the others have made: where that ends well, for a
/// name that is one line, all four are all there afterwards.
pub proof fn lemma_module_parts(t: TreeView, name: Seq<char>, texts: Texts)
    requires
        t.consistent(),
        one_line(name),
        module_parts(t, name, texts).failure is None,
    ensures
        module_done(module_parts(t, name, texts).tree, name, texts),
        module_parts(t, name, texts).tree.consistent(),
{
    lemma_nested_artifact(t, Kind::Entity, name, texts.entity);
    lemma_nested_leaves_alone(t, Kind::Entity, name, texts.entity);
    let t1 = nested_artifact(t, Kind::Entity, name, texts.entity).tree;
    lemma_nested_artifact(t1, Kind::Dto, name, texts.dto);
    lemma_nested_leaves_alone(t1, Kind::Dto, name, texts.dto);
    lemma_kept_by_next(t1, name, Kind::Entity, texts.entity, Kind::Dto, texts.dto);
    let t2 = nested_artifact(t1, Kind::Dto, name, texts.dto).tree;
    lemma_nested_artifact(t2, Kind::Service, name, texts.service);
    lemma_nested_leaves_alone(t2, Kind::Service, name, texts.service);
    lemma_kept_by_next(t2, name, Kind::Entity, texts.entity, Kind::Service, texts.service);
    lemma_kept_by_next(t2, name, Kind::Dto, texts.dto, Kind::Service, texts.service);
    let t3 = nested_artifact(t2, Kind::Service, name, texts.service).tree;
    lemma_controller_keeps(t3, name, texts.controller, Kind::Entity, texts.entity);
    lemma_controller_keeps(t3, name, texts.controller, Kind::Dto, texts.dto);
    lemma_controller_keeps(t3, name, texts.controller, Kind::Service, texts.service);
    lemma_module_controller(t3, name, texts.controller);
    lemma_module_controller_leaves_alone(t3, name, texts.controller);
}

/// A module that is all there is not generated again: its four artifacts
/// leave the tree as it is.
pub proof fn lemma_module_parts_again(u: TreeView, name: Seq<char>, texts: Texts)
    requires
        u.consistent(),
        module_done(u, name, texts),
    ensures
        module_parts(u, name, texts) == done(u),
{
    lemma_nested_again(u, Kind::Entity, name, texts.entity);
    lemma_nested_again(u, Kind::Dto, name, texts.dto);
    lemma_nested_again(u, Kind::Service, name, texts.service);
    lemma_nested_again(u, Kind::Controller, name, texts.controller);
}

/// Of the composition root in the generation of a module, whatever the
/// manifests and whatever lines the name has: where the generation ends
/// well, for a name that is plain and a root that holds the declaration
/// of the module, if at all, before the start of its chain, the root is
/// afterwards the root that was there, wired; and a second generation,
/// however it ends, leaves the root as the first has left it, with no
/// second declaration and no second line for the routes.
pub proof fn lemma_module_root(t: TreeView, name: Seq<char>, texts: Texts)
    requires
        t.consistent(),
        plain(name),
        t.files.contains_key(main_path()) ==> declared_before_chain(
            t.files[main_path()],
            name,
        ),
        module_scaffold(t, name, texts).failure is None,
    ensures
        t.files.contains_key(main_path()),
        module_parts(t, name, texts).tree.files[main_path()] == t.files[main_path()],
        module_scaffold(t, name, texts).tree.files.contains_key(main_path()),
        module_scaffold(t, name, texts).tree.files[main_path()] == module_wired(
            t.files[main_path()],
            name,
        ),
        module_scaffold(
            module_scaffold(t, name, texts).tree,
            name,
            texts,
        ).tree.files[main_path()] == module_scaffold(t, name, texts).tree.files[main_path()],
{
    let main = main_path();
    lemma_module_parts_leave_alone(t, name, texts);
    lemma_module_keeps_everything(t, name, texts);
    let t1 = module_parts(t, name, texts).tree;
    let content = t1.files[main];
    assert(content == t.files[main]);
    let wired = module_wired(content, name);
    lemma_written(t1, main, wired);
    let u = module_scaffold(t, name, texts).tree;
    lemma_module_parts_leave_alone(u, name, texts);
    lemma_module_wired_twice(content, name);
    let again = module_parts(u, name, texts);
    assert(again.tree.files[main] == wired);
}

/// Of the generation of a module, where it ends well, for a name that is
/// one line and plain and a composition root that holds the declaration
/// of the module, if at all, before the start of its chain: each of the
/// four artifacts can be reached from the root manifest, link by link;
/// the composition root is the root that was there, wired, and holds the
/// line that nests the routes unless that patch was left out; and to
/// generate the module once more changes nothing, so that every
/// manifest, every file and the composition root are after the second
/// run what they were after the first.
pub proof fn lemma_module_scaffold(t: TreeView, name: Seq<char>, texts: Texts)
    requires
        t.consistent(),
        one_line(name),
        plain(name),
        t.files.contains_key(main_path()) ==> declared_before_chain(
            t.files[main_path()],
            name,
        ),
        module_scaffold(t, name, texts).failure is None,
    ensures
        module_done(module_scaffold(t, name, texts).tree, name, texts),
        nested_chain(module_scaffold(t, name, texts).tree, Kind::Entity, name),
        nested_chain(module_scaffold(t, name, texts).tree, Kind::Dto, name),
        nested_chain(module_scaffold(t, name, texts).tree, Kind::Service, name),
        nested_chain(module_scaffold(t, name, texts).tree, Kind::Controller, name),
        module_scaffold(module_scaffold(t, name, texts).tree, name, texts) == module_scaffold(
            t,
            name,
            texts,
        ),
        ({
            let content = t.files[main_path()];
            let root = module_scaffold(t, name, texts).tree.files[main_path()];
            &&& module_scaffold(t, name, texts).tree.files.contains_key(main_path())
            &&& root == module_wired(content, name)
            &&& status(nest_plan(module_declared(content, name), name)) != Patch::AnchorMissing
                ==> contains(root, nest_line(name))
        }),
{
    let main = main_path();
    lemma_module_root(t, name, texts);
    lemma_patch_takes_hold(module_declared(t.files[main], name), name);
    lemma_module_parts(t, name, texts);
    lemma_main_path();
    lemma_files_apart(name, Kind::Entity, Kind::Dto);
    lemma_files_apart(name, Kind::Dto, Kind::Entity);
    lemma_files_apart(name, Kind::Service, Kind::Entity);
    lemma_files_apart(name, Kind::Controller, Kind::Entity);
    let t1 = module_parts(t, name, texts).tree;
    let content = t1.files[main];
    let wired = module_wired(content, name);
    lemma_written(t1, main, wired);
    let u = written(t1, main, wired).tree;
    assert(u == module_scaffold(t, name, texts).tree);
    lemma_steps_are_careful(t1, main, wired, Seq::empty(), main);
    lemma_nested_kept(t1, u, main, Kind::Entity, name, texts.entity);
    lemma_nested_kept(t1, u, main, Kind::Dto, name, texts.dto);
    lemma_nested_kept(t1, u, main, Kind::Service, name, texts.service);
    lemma_nested_kept(t1, u, main, Kind::Controller, name, texts.controller);
    let a = manifest_path(target(Kind::Controller, name, Layout::Nested).module_dir);
    lemma_manifest_marks(target(Kind::Controller, name, Layout::Nested).module_dir, Seq::empty());
    assert(u.files[a] == t1.files[a]);
    lemma_module_parts_again(u, name, texts);
    lemma_module_wired_twice(content, name);
    lemma_written_again(u, main, wired);
}

/// What the generation of a module tells when it ends well.
#[derive(Clone, Copy, Debug, PartialEq, Eq, Structural)]
pub struct ModuleReport {
    /// How the declaration of the module in the composition root ended.
    pub module: Patch,
    /// How the nesting of the module's routes ended.
    pub route: Patch,
}

/// The texts that the four artifacts of the module `name` are generated
/// with.
pub fn module_texts(name: &str) -> (texts: ModuleTexts)
    ensures
        texts@ == module_texts_of(name@),
{
    ModuleTexts {
        entity: entity_template(name),
        dto: dto_template(name),
        service: service_template(name),
        controller: controller_template(name),
    }
}

/// Generates the module `name` with the given texts: its entity, its
/// data-transfer objects, its service and its controller, in this order,
/// and then its wiring in the composition root `src/main.rs`. A patch
/// whose marker is missing is left out, and the report says so. A step
/// that fails ends the generation; the steps before it are not taken
/// back.
pub fn scaffold_module(tree: &mut SourceTree, name: &str, texts: &ModuleTexts) -> (r: Result<
    ModuleReport,
    ScaffoldError,
>)
    ensures
        final(tree)@ == module_scaffold(old(tree)@, name@, texts@).tree,
        agrees(r, module_scaffold(old(tree)@, name@, texts@).failure),
        r matches Ok(report) ==> {
            let content = module_parts(old(tree)@, name@, texts@).tree.files[main_path()];
            &&& report.module == status(module_plan(content, name@))
            &&& report.route == status(nest_plan(module_declared(content, name@), name@))
        },
{
    match generate_nested(tree, Kind::Entity, name, texts.entity.as_str()) {
        Err(e) => {
            return Err(e);
        },
        Ok(_) => {},
    }
    match generate_nested(tree, Kind::Dto, name, texts.dto.as_str()) {
        Err(e) => {
            return Err(e);
        },
        Ok(_) => {},
    }
    match generate_nested(tree, Kind::Service, name, texts.service.as_str()) {
        Err(e) => {
            return Err(e);
        },
        Ok(_) => {},
    }
    match scaffold_controller(tree, name, texts.controller.as_str()) {
        Err(e) => {
            return Err(e);
        },
        Ok(_) => {},
    }
    let main_rs = join_path("src", "main.rs");
    let content = match tree.read(main_rs.as_str()) {
        Err(e) => {
            return Err(e);
        },
        Ok(c) => c,
    };
    let declared = ensure_module_registered(content.as_str(), name);
    let nested = ensure_route_nested(declared.text.as_str(), name);
    match tree.write(main_rs.as_str(), nested.text.as_str()) {
        Err(e) => {
            return Err(e);
        },
        Ok(_) => {},
    }
    Ok(ModuleReport { module: declared.status, route: nested.status })
}

/// Generates the module `name`: its entity, its data-transfer objects,
/// its service and its controller, in this order, and then its wiring in
/// the composition root `src/main.rs`. A patch whose marker is missing is
/// left out, and the report says so. A step that fails ends the
/// generation; the steps before it are not taken back.
pub fn generate_module(tree: &mut SourceTree, name: String) -> (r: Result<
    ModuleReport,
    ScaffoldError,
>)
    ensures
        final(tree)@ == module_scaffold(old(tree)@, name@, module_texts_of(name@)).tree,
        agrees(r, module_scaffold(old(tree)@, name@, module_texts_of(name@)).failure),
        r matches Ok(report) ==> {
            let content = module_parts(
                old(tree)@,
                name@,
                module_texts_of(name@),
            ).tree.files[main_path()];
            &&& report.module == status(module_plan(content, name@))
            &&& report.route == status(nest_plan(module_declared(content, name@), name@))
        },
{
    let texts = module_texts(name.as_str());
    scaffold_module(tree, name.as_str(), &texts)
}

} // verus!
