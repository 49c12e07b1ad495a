//! Stand-alone artifacts, under the working directory, and middleware.
use crate::commands::templates::generate_item_templates::{
    middleware_dependencies_template, middleware_dependencies_text, middleware_function_template,
    middleware_function_text, simple_controller_template, simple_controller_text,
    simple_dto_template, simple_dto_text, simple_entity_template, simple_entity_text,
    simple_service_template, simple_service_text,
};
use crate::utils::common::capitalized;
use crate::utils::file::{
    current_manifest, current_mod_file, declared_in, ensure_dir, ensure_mod_rs, ensure_pub_mod_decl,
    lemma_declared_in, lemma_declared_in_again, lemma_declared_in_basic, lemma_declared_in_succeeds,
    lemma_fixed_paths, lemma_made_dirs, lemma_made_dirs_again, lemma_manifest_marks,
    lemma_steps_keep_everything, lemma_then_keeps, lemma_with_default, lemma_written,
    lemma_written_again, manifest_header, manifest_path, mark, with_appended, with_default,
};
use crate::utils::manifest::{declares, one_line};
use crate::utils::root::{
    applied, ensure_middleware_registered, ensure_module_registered, has_no, layer_plan,
    lemma_anchor_stays_missing, lemma_patch_takes_hold, lemma_patch_twice, lemma_plans_in_bounds,
    lemma_splice_keeps_occurrence, module_declaration, module_plan, status, Patch, Plan,
};
use crate::utils::target::{
    lemma_file_mark, lemma_stem, lemma_target, resolve, target, Kind, Layout,
};
use crate::utils::text::{
    chars_of, contains, find, find_in, lemma_contains_in_part, lemma_find_from,
    lemma_occurrence_is_found, lemma_rfind, occurs_at, rfind,
};
use crate::utils::tree::{
    agrees, done, flat, is_dir_prefix, join, join_path, lemma_flat_path, lemma_join, made_dirs,
    read_failure, written, Outcome, ScaffoldError, SourceTree, TreeView,
};
use vstd::prelude::*;

verus! {

/// What the generation of a stand-alone artifact does to a tree. The
/// artifact's own directory and its manifest are seen to, the file is
/// written, the manifest declares the file, and the manifest of the
/// working directory, whose last part is `cwd_name`, declares the
/// directory. The first step that fails ends it, and what was done stays
/// done.
pub open spec fn standalone_artifact(
    t: TreeView,
    kind: Kind,
    name: Seq<char>,
    cwd_name: Seq<char>,
    text: Seq<char>,
) -> Outcome {
    let p = target(kind, name, Layout::Standalone);
    done(t).make_dirs(p.dir).manifest(p.dir).write(p.file, text).declare(
        manifest_path(p.dir),
        p.stem,
    ).declare(current_manifest(cwd_name), name)
}

/// Whether the stand-alone artifact of the kind `kind` named `name` can
/// be reached from the manifest of the working directory: that manifest
/// declares the artifact's directory, the directory is there and its
/// manifest declares the file, and the file is there.
pub open spec fn standalone_chain(
    u: TreeView,
    kind: Kind,
    name: Seq<char>,
    cwd_name: Seq<char>,
) -> bool {
    let p = target(kind, name, Layout::Standalone);
    &&& u.files.contains_key(current_manifest(cwd_name))
    &&& declares(u.files[current_manifest(cwd_name)], name)
    &&& u.dirs.contains(p.dir)
    &&& u.files.contains_key(manifest_path(p.dir))
    &&& declares(u.files[manifest_path(p.dir)], p.stem)
    &&& u.files.contains_key(p.file)
}

/// Of the generation of a stand-alone artifact, where it ends well, for
/// a name that is one line, whatever the manifests held: the artifact
/// can be reached from the manifest of the working directory, link by
/// link, and its file holds the text; and to generate it once more
/// changes nothing, so that every manifest and file is after the second
/// run what it was after the first.
pub proof fn lemma_standalone_artifact(
    t: TreeView,
    kind: Kind,
    name: Seq<char>,
    cwd_name: Seq<char>,
    text: Seq<char>,
)
    requires
        kind != Kind::Middleware,
        t.consistent(),
        one_line(name),
        standalone_artifact(t, kind, name, cwd_name, text).failure is None,
    ensures
        standalone_chain(
            standalone_artifact(t, kind, name, cwd_name, text).tree,
            kind,
            name,
            cwd_name,
        ),
        standalone_artifact(t, kind, name, cwd_name, text).tree.files[target(
            kind,
            name,
            Layout::Standalone,
        ).file] == text,
        standalone_artifact(
            standalone_artifact(t, kind, name, cwd_name, text).tree,
            kind,
            name,
            cwd_name,
            text,
        ) == standalone_artifact(t, kind, name, cwd_name, text),
        standalone_artifact(t, kind, name, cwd_name, text).tree.consistent(),
{
    let p = target(kind, name, Layout::Standalone);
    let a = manifest_path(p.dir);
    let up = current_manifest(cwd_name);
    let f = p.file;
    lemma_target(kind, name, Layout::Standalone);
    lemma_file_mark(kind, name, Layout::Standalone);
    lemma_manifest_marks(p.dir, cwd_name);
    lemma_stem(kind, name, Layout::Standalone);
    assert(mark(up) == 'd' || mark(up) == 'b');
    assert(f != a && f != up && a != up);
    lemma_made_dirs(t, p.dir);
    let t1 = made_dirs(t, p.dir).tree;
    lemma_with_default(t1, a, manifest_header(p.dir));
    let t2 = with_default(t1, a, manifest_header(p.dir)).tree;
    lemma_written(t2, f, text);
    let t3 = written(t2, f, text).tree;
    lemma_declared_in(t3, a, p.stem);
    let t4 = declared_in(t3, a, p.stem).tree;
    lemma_declared_in(t4, up, name);
    let u = declared_in(t4, up, name).tree;
    assert(u == standalone_artifact(t, kind, name, cwd_name, text).tree);
    assert(u.files[f] == text);
    assert(u.files[a] == t4.files[a]);
    lemma_made_dirs_again(u, p.dir);
    lemma_written_again(u, f, text);
    lemma_declared_in_again(u, a, p.stem);
    lemma_declared_in_again(u, up, name);
}

/// The generation of a stand-alone artifact takes nothing away, whether
/// it ends well or not: what the tree had, file or directory, it has
/// afterwards, and no path becomes both file and directory.
pub proof fn lemma_standalone_keeps_everything(
    t: TreeView,
    kind: Kind,
    name: Seq<char>,
    cwd_name: Seq<char>,
    text: Seq<char>,
)
    requires
        t.consistent(),
    ensures
        standalone_artifact(t, kind, name, cwd_name, text).keeps(t),
{
    let p = target(kind, name, Layout::Standalone);
    let none = Seq::<char>::empty();
    let o0 = done(t);
    lemma_then_keeps(t, o0, p.dir, none, none);
    let o1 = o0.make_dirs(p.dir);
    lemma_then_keeps(t, o1, p.dir, none, none);
    let o2 = o1.manifest(p.dir);
    lemma_then_keeps(t, o2, p.file, text, none);
    let o3 = o2.write(p.file, text);
    lemma_then_keeps(t, o3, manifest_path(p.dir), p.stem, none);
    let o4 = o3.declare(manifest_path(p.dir), p.stem);
    lemma_then_keeps(t, o4, current_manifest(cwd_name), name, none);
}

/// Whether nothing is in the way of the stand-alone artifact: no file
/// where its directory has to be, and no directory where a file has to
/// be.
pub open spec fn standalone_free(
    t: TreeView,
    kind: Kind,
    name: Seq<char>,
    cwd_name: Seq<char>,
) -> bool {
    let p = target(kind, name, Layout::Standalone);
    &&& !t.files.contains_key(p.dir)
    &&& !t.dirs.contains(manifest_path(p.dir))
    &&& !t.dirs.contains(p.file)
    &&& !t.dirs.contains(current_manifest(cwd_name))
}

/// When the generation of a stand-alone artifact ends well: in a tree in
/// which no path is both file and directory, and for a name of one part
/// other than that of the manifest of the working directory, exactly
/// when nothing is in the way.
pub proof fn lemma_standalone_succeeds(
    t: TreeView,
    kind: Kind,
    name: Seq<char>,
    cwd_name: Seq<char>,
    text: Seq<char>,
)
    requires
        kind != Kind::Middleware,
        t.consistent(),
        flat(name),
        name != current_manifest(cwd_name),
    ensures
        standalone_artifact(t, kind, name, cwd_name, text).failure is None <==> standalone_free(
            t,
            kind,
            name,
            cwd_name,
        ),
{
    let p = target(kind, name, Layout::Standalone);
    let a = manifest_path(p.dir);
    let up = current_manifest(cwd_name);
    let f = p.file;
    lemma_target(kind, name, Layout::Standalone);
    lemma_file_mark(kind, name, Layout::Standalone);
    lemma_manifest_marks(p.dir, cwd_name);
    lemma_fixed_paths();
    lemma_stem(kind, name, Layout::Standalone);
    lemma_flat_path(name);
    lemma_flat_path(up);
    lemma_join(p.dir, "mod.rs"@);
    lemma_join(p.dir, p.stem + ".rs"@);
    assert(mark(up) == 'd' || mark(up) == 'b');
    assert(f != a && f != up && a != up);
    if standalone_free(t, kind, name, cwd_name) {
        lemma_made_dirs(t, p.dir);
        let t1 = made_dirs(t, p.dir).tree;
        assert(!t1.dirs.contains(a));
        lemma_with_default(t1, a, manifest_header(p.dir));
        let t2 = with_default(t1, a, manifest_header(p.dir)).tree;
        assert(t2.files.contains_key(a));
        assert(!t2.dirs.contains(f));
        lemma_written(t2, f, text);
        let t3 = written(t2, f, text).tree;
        lemma_declared_in_succeeds(t3, a, p.stem);
        lemma_declared_in_basic(t3, a, p.stem);
        let t4 = declared_in(t3, a, p.stem).tree;
        assert(t4.dirs =~= t1.dirs) by {
            assert(t3.has(a));
        }
        assert(!t4.dirs.contains(up));
        if t4.has(up) {
            lemma_declared_in_succeeds(t4, up, name);
        } else {
            lemma_written(t4, up, Seq::empty());
        }
    }
    if standalone_artifact(t, kind, name, cwd_name, text).failure is None {
        lemma_made_dirs(t, p.dir);
        let t1 = made_dirs(t, p.dir).tree;
        assert(is_dir_prefix(p.dir, p.dir));
        lemma_with_default(t1, a, manifest_header(p.dir));
        let t2 = with_default(t1, a, manifest_header(p.dir)).tree;
        lemma_written(t2, f, text);
        let t3 = written(t2, f, text).tree;
        lemma_declared_in_basic(t3, a, p.stem);
        let t4 = declared_in(t3, a, p.stem).tree;
        lemma_declared_in_basic(t4, up, name);
    }
}

/// Generates the stand-alone artifact of the kind `kind` named `name`,
/// with `text` as the text of its file, and gives the path of the file.
pub fn generate_standalone(
    tree: &mut SourceTree,
    kind: Kind,
    name: &str,
    cwd_name: &str,
    text: &str,
) -> (r: Result<String, ScaffoldError>)
    ensures
        final(tree)@ == standalone_artifact(old(tree)@, kind, name@, cwd_name@, text@).tree,
        agrees(r, standalone_artifact(old(tree)@, kind, name@, cwd_name@, text@).failure),
        r matches Ok(p) ==> p@ == target(kind, name@, Layout::Standalone).file,
{
    let p = resolve(kind, name, Layout::Standalone);
    match ensure_dir(tree, p.dir.as_str()) {
        Err(e) => {
            return Err(e);
        },
        Ok(_) => {},
    }
    let mod_rs = match ensure_mod_rs(tree, p.dir.as_str()) {
        Err(e) => {
            return Err(e);
        },
        Ok(m) => m,
    };
    match tree.write(p.file.as_str(), text) {
        Err(e) => {
            return Err(e);
        },
        Ok(_) => {},
    }
    match ensure_pub_mod_decl(tree, mod_rs.as_str(), p.stem.as_str()) {
        Err(e) => {
            return Err(e);
        },
        Ok(_) => {},
    }
    let parent_mod = current_mod_file(cwd_name);
    match ensure_pub_mod_decl(tree, parent_mod.as_str(), name) {
        Err(e) => {
            return Err(e);
        },
        Ok(_) => {},
    }
    Ok(p.file)
}

/// What the generation of a stand-alone controller named `name` does to
/// a tree.
pub open spec fn standalone_controller(
    t: TreeView,
    name: Seq<char>,
    cwd_name: Seq<char>,
) -> Outcome {
    standalone_artifact(
        t,
        Kind::Controller,
        name,
        cwd_name,
        simple_controller_text(name, capitalized(name)),
    )
}

/// Generates a stand-alone controller named `name`, in `name/name_controller.rs`
/// under the working directory, whose last part is `cwd_name`.
pub fn generate_controller(tree: &mut SourceTree, name: String, cwd_name: &str) -> (r: Result<
    String,
    ScaffoldError,
>)
    ensures
        final(tree)@ == standalone_controller(old(tree)@, name@, cwd_name@).tree,
        agrees(r, standalone_controller(old(tree)@, name@, cwd_name@).failure),
        r matches Ok(p) ==> p@ == target(Kind::Controller, name@, Layout::Standalone).file,
{
    let text = simple_controller_template(name.as_str());
    generate_standalone(tree, Kind::Controller, name.as_str(), cwd_name, text.as_str())
}

/// What the generation of a stand-alone service named `name` does to a tree.
pub open spec fn standalone_service(t: TreeView, name: Seq<char>, cwd_name: Seq<char>) -> Outcome {
    standalone_artifact(t, Kind::Service, name, cwd_name, simple_service_text(capitalized(name)))
}

/// Generates a stand-alone service named `name`, in `name/name_service.rs`
/// under the working directory, whose last part is `cwd_name`.
pub fn generate_service(tree: &mut SourceTree, name: String, cwd_name: &str) -> (r: Result<
    String,
    ScaffoldError,
>)
    ensures
        final(tree)@ == standalone_service(old(tree)@, name@, cwd_name@).tree,
        agrees(r, standalone_service(old(tree)@, name@, cwd_name@).failure),
        r matches Ok(p) ==> p@ == target(Kind::Service, name@, Layout::Standalone).file,
{
    let text = simple_service_template(name.as_str());
    generate_standalone(tree, Kind::Service, name.as_str(), cwd_name, text.as_str())
}

/// What the generation of a stand-alone data-transfer object named `name` does to a tree.
pub open spec fn standalone_dto(t: TreeView, name: Seq<char>, cwd_name: Seq<char>) -> Outcome {
    standalone_artifact(t, Kind::Dto, name, cwd_name, simple_dto_text(capitalized(name)))
}

/// Generates a stand-alone data-transfer object named `name`, in `name/name_dto.rs`
/// under the working directory, whose last part is `cwd_name`.
pub fn generate_dto(tree: &mut SourceTree, name: String, cwd_name: &str) -> (r: Result<
    String,
    ScaffoldError,
>)
    ensures
        final(tree)@ == standalone_dto(old(tree)@, name@, cwd_name@).tree,
        agrees(r, standalone_dto(old(tree)@, name@, cwd_name@).failure),
        r matches Ok(p) ==> p@ == target(Kind::Dto, name@, Layout::Standalone).file,
{
    let text = simple_dto_template(name.as_str());
    generate_standalone(tree, Kind::Dto, name.as_str(), cwd_name, text.as_str())
}

/// What the generation of a stand-alone entity named `name` does to a tree.
pub open spec fn standalone_entity(t: TreeView, name: Seq<char>, cwd_name: Seq<char>) -> Outcome {
    standalone_artifact(t, Kind::Entity, name, cwd_name, simple_entity_text(capitalized(name)))
}

/// Generates a stand-alone entity named `name`, in `name/name_entity.rs`
/// under the working directory, whose last part is `cwd_name`.
pub fn generate_entity(tree: &mut SourceTree, name: String, cwd_name: &str) -> (r: Result<
    String,
    ScaffoldError,
>)
    ensures
        final(tree)@ == standalone_entity(old(tree)@, name@, cwd_name@).tree,
        agrees(r, standalone_entity(old(tree)@, name@, cwd_name@).failure),
        r matches Ok(p) ==> p@ == target(Kind::Entity, name@, Layout::Standalone).file,
{
    let text = simple_entity_template(name.as_str());
    generate_standalone(tree, Kind::Entity, name.as_str(), cwd_name, text.as_str())
}

/// The path of the composition root.
pub open spec fn main_path() -> Seq<char> {
    join("src"@, "main.rs"@)
}

/// What tells that the middleware function of `name` is defined.
pub open spec fn middleware_marker(name: Seq<char>) -> Seq<char> {
    "pub async fn "@ + name + "_middleware"@
}

/// How the definition of a middleware function came into its file.
#[derive(Clone, Copy, Debug, PartialEq, Eq, Structural)]
pub enum Definition {
    /// The file was not there: it was made, with its imports and the
    /// function.
    Created,
    /// The function was put at the end of the file.
    Added,
    /// The file held the function already.
    AlreadyPresent,
}

/// What the generation of a middleware tells when it ends well.
#[derive(Clone, Copy, Debug, PartialEq, Eq, Structural)]
pub struct MiddlewareReport {
    /// How the function's definition came into its file.
    pub definition: Definition,
    /// How the declaration of the module of the middleware functions
    /// ended.
    pub module: Patch,
    /// How the attachment of the function ended.
    pub layer: Patch,
}

/// The file of the middleware functions once that of `name` is defined:
/// a new file, with the imports, where nothing had its path; else the file
/// that was there, with the function at its end unless it holds the
/// function's header.
pub open spec fn middleware_defined(t: TreeView, name: Seq<char>) -> Outcome {
    let file = target(Kind::Middleware, name, Layout::Nested).file;
    if t.has(file) {
        with_appended(t, file, middleware_marker(name), middleware_function_text(name))
    } else {
        written(
            t,
            file,
            middleware_dependencies_text() + "\n"@ + middleware_function_text(name),
        )
    }
}

/// How the definition of the middleware function of `name` comes into the
/// tree `t`.
pub open spec fn definition_of(t: TreeView, name: Seq<char>) -> Definition {
    let file = target(Kind::Middleware, name, Layout::Nested).file;
    if !t.has(file) {
        Definition::Created
    } else if contains(t.files[file], middleware_marker(name)) {
        Definition::AlreadyPresent
    } else {
        Definition::Added
    }
}

/// The composition root `content` once the module of the middleware
/// functions is declared in it.
pub open spec fn middlewares_declared(content: Seq<char>) -> Seq<char> {
    applied(content, module_plan(content, "middlewares"@))
}

/// The composition root `content` once the middleware of `name` is wired
/// in: the module of the middleware functions is declared, and then the
/// function is attached.
pub open spec fn middleware_wired(content: Seq<char>, name: Seq<char>) -> Seq<char> {
    applied(middlewares_declared(content), layer_plan(middlewares_declared(content), name))
}

/// What `generate_middleware` does to a tree: the function is defined,
/// then the composition root, which must be there, is patched and written
/// back.
pub open spec fn middleware_scaffold(t: TreeView, name: Seq<char>) -> Outcome {
    let defined = middleware_defined(t, name);
    if defined.failure is Some {
        defined
    } else {
        match read_failure(defined.tree, main_path()) {
            Some(f) => Outcome { tree: defined.tree, failure: Some(f) },
            None => written(
                defined.tree,
                main_path(),
                middleware_wired(defined.tree.files[main_path()], name),
            ),
        }
    }
}

/// The text of a middleware function starts with what tells that the
/// function is defined.
pub proof fn lemma_function_has_marker(name: Seq<char>)
    ensures
        contains(middleware_function_text(name), middleware_marker(name)),
{
    reveal_strlit("pub async fn ");
    reveal_strlit("_middleware");
    reveal_strlit("_middleware(req: Request, next: Next) -> Response {\n");
    let text = middleware_function_text(name);
    let marker = middleware_marker(name);
    assert(text.subrange(0, marker.len() as int) =~= marker);
    lemma_occurrence_is_found(text, marker, 0);
}

/// The attachment of a middleware never parts the declaration of the
/// module of the middleware functions: it goes right behind a `)`, and
/// the declaration holds none.
proof fn lemma_middlewares_not_parted(content: Seq<char>, i: int, r: int)
    requires
        occurs_at(content, module_declaration("middlewares"@), i),
        occurs_at(content, "Router::new()"@, r),
    ensures
        r + 13 <= i || i + module_declaration("middlewares"@).len() <= r + 13,
{
    reveal_strlit("mod ");
    reveal_strlit("middlewares");
    reveal_strlit(";");
    reveal_strlit("Router::new()");
    let d = module_declaration("middlewares"@);
    let len = d.len() as int;
    if i < r + 13 < i + len {
        let k = r + 12 - i;
        assert(content.subrange(i, i + len)[k] == content[i + k]);
        assert(content.subrange(r, r + 13)[12] == content[r + 12]);
        assert(d[k] != ')');
        assert(false);
    }
}

/// To wire a middleware into a composition root twice is to wire it in
/// once, whatever the root, for a name that holds no `;`. This holds also
/// of the root in which the declaration of the module of the middleware
/// functions finds no place while the attachment goes in.
pub proof fn lemma_middleware_wired_twice(content: Seq<char>, name: Seq<char>)
    requires
        has_no(name, ';'),
    ensures
        middleware_wired(middleware_wired(content, name), name) == middleware_wired(
            content,
            name,
        ),
{
    let module = "middlewares"@;
    let decl = module_declaration(module);
    let chain = "Router::new()"@;
    let declared = middlewares_declared(content);
    lemma_patch_twice(content, module);
    lemma_patch_takes_hold(content, module);
    lemma_patch_takes_hold(declared, name);
    lemma_plans_in_bounds(declared, name);
    match layer_plan(declared, name) {
        Plan::Keep(_) => {},
        Plan::Insert(at, line) => {
            reveal_strlit("Router::new()");
            lemma_find_from(declared, chain, 0);
            let r = find(declared, chain)->0;
            assert(at == r + 13);
            if status(module_plan(content, module)) == Patch::AnchorMissing {
                reveal_strlit("use ");
                reveal_strlit("    .layer(middleware::from_fn(middlewares::");
                reveal_strlit("_middleware))");
                assert(declared == content);
                let u = rfind(content, "use "@)->0;
                lemma_rfind(content, "use "@);
                if u < at < u + 4 {
                    let k = r + 12 - u;
                    assert(content.subrange(u, u + 4)[k] == content[u + k]);
                    assert(content.subrange(r, r + 13)[12] == content[r + 12]);
                    assert(false);
                }
                assert(has_no(line, ';')) by {
                    let first = "    .layer(middleware::from_fn(middlewares::"@;
                    assert forall|k: int| 0 <= k < line.len() implies line[k] != ';' by {
                        if k >= 1 + first.len() && k < 1 + first.len() + name.len() {
                            assert(line[k] == name[k - 1 - first.len()]);
                        }
                    }
                }
                lemma_anchor_stays_missing(content, at, line);
            } else {
                lemma_find_from(declared, decl, 0);
                let i = find(declared, decl)->0;
                lemma_middlewares_not_parted(declared, i, r);
                lemma_splice_keeps_occurrence(declared, at, line, decl, i);
            }
        },
    }
}

/// Of the generation of a middleware, where it ends well, whatever the
/// tree, for a name that holds no `;`: the file of the middleware
/// functions holds the function, the composition root is the root that
/// was there, wired, and to generate the middleware once more changes
/// nothing: neither the root nor the file of the middleware functions.
pub proof fn lemma_middleware_scaffold(t: TreeView, name: Seq<char>)
    requires
        t.consistent(),
        has_no(name, ';'),
        middleware_scaffold(t, name).failure is None,
    ensures
        ({
            let u = middleware_scaffold(t, name).tree;
            let file = target(Kind::Middleware, name, Layout::Nested).file;
            &&& u.files.contains_key(file)
            &&& contains(u.files[file], middleware_marker(name))
            &&& t.files.contains_key(main_path())
            &&& u.files.contains_key(main_path())
            &&& u.files[main_path()] == middleware_wired(t.files[main_path()], name)
        }),
        middleware_scaffold(middleware_scaffold(t, name).tree, name) == middleware_scaffold(
            t,
            name,
        ),
{
    let file = target(Kind::Middleware, name, Layout::Nested).file;
    let main = main_path();
    let function = middleware_function_text(name);
    let marker = middleware_marker(name);
    reveal_strlit("src");
    reveal_strlit("main.rs");
    reveal_strlit("middlewares");
    reveal_strlit(".rs");
    assert(file.len() == 18);
    assert(main.len() == 11);
    lemma_function_has_marker(name);
    let t1 = middleware_defined(t, name).tree;
    assert(t1.files.contains_key(file) && contains(t1.files[file], marker) && t1.consistent()) by {
        if t.has(file) {
            if !contains(t.files[file], marker) {
                lemma_written(t, file, t.files[file] + function);
                lemma_contains_in_part(t.files[file], function, Seq::empty(), marker);
                assert(t.files[file] + function + Seq::<char>::empty() =~= t.files[file]
                    + function);
            }
        } else {
            let text = middleware_dependencies_text() + "\n"@ + function;
            lemma_written(t, file, text);
            lemma_contains_in_part(
                middleware_dependencies_text() + "\n"@,
                function,
                Seq::empty(),
                marker,
            );
            assert(middleware_dependencies_text() + "\n"@ + function + Seq::<char>::empty()
                =~= text);
        }
    }
    let content = t1.files[main];
    assert(t.files.contains_key(main) && content == t.files[main]);
    lemma_written(t1, main, middleware_wired(content, name));
    let u = written(t1, main, middleware_wired(content, name)).tree;
    assert(u == middleware_scaffold(t, name).tree);
    assert(u.files[file] == t1.files[file]);
    lemma_middleware_wired_twice(content, name);
    assert(middleware_defined(u, name) == done(u));
    lemma_written_again(u, main, middleware_wired(content, name));
}

/// The generation of a middleware takes nothing away, whether it ends
/// well or not: what the tree had, file or directory, it has afterwards,
/// and no path becomes both file and directory.
pub proof fn lemma_middleware_keeps_everything(t: TreeView, name: Seq<char>)
    requires
        t.consistent(),
    ensures
        middleware_scaffold(t, name).keeps(t),
{
    let file = target(Kind::Middleware, name, Layout::Nested).file;
    lemma_steps_keep_everything(
        t,
        file,
        middleware_dependencies_text() + "\n"@ + middleware_function_text(name),
        middleware_marker(name),
    );
    lemma_steps_keep_everything(t, file, middleware_function_text(name), middleware_marker(name));
    let defined = middleware_defined(t, name);
    lemma_steps_keep_everything(
        defined.tree,
        main_path(),
        middleware_wired(defined.tree.files[main_path()], name),
        Seq::empty(),
    );
}

/// When the generation of a middleware ends well: in a tree in which no
/// path is both file and directory, exactly when `src` is a directory,
/// the composition root is a file, and the path of the file of the
/// middleware functions is no directory.
pub proof fn lemma_middleware_succeeds(t: TreeView, name: Seq<char>)
    requires
        t.consistent(),
    ensures
        middleware_scaffold(t, name).failure is None <==> {
            &&& t.dirs.contains("src"@)
            &&& t.files.contains_key(main_path())
            &&& !t.dirs.contains(target(Kind::Middleware, name, Layout::Nested).file)
        },
{
    let file = target(Kind::Middleware, name, Layout::Nested).file;
    let main = main_path();
    reveal_strlit("src");
    reveal_strlit("main.rs");
    reveal_strlit("middlewares");
    reveal_strlit(".rs");
    assert(flat("main.rs"@));
    assert(flat("middlewares"@ + ".rs"@));
    lemma_join("src"@, "main.rs"@);
    lemma_join("src"@, "middlewares"@ + ".rs"@);
    assert(file.len() == 18);
    assert(main.len() == 11);
    let defined = middleware_defined(t, name);
    if defined.failure is None {
        assert(defined.tree.dirs == t.dirs);
        assert(defined.tree.consistent());
        assert(defined.tree.files.contains_key(main) <==> t.files.contains_key(main));
    }
}

/// Defines the middleware function of `name` in `src/middlewares.rs`.
fn define_middleware(tree: &mut SourceTree, name: &str) -> (r: Result<Definition, ScaffoldError>)
    ensures
        final(tree)@ == middleware_defined(old(tree)@, name@).tree,
        agrees(r, middleware_defined(old(tree)@, name@).failure),
        r matches Ok(d) ==> d == definition_of(old(tree)@, name@),
{
    let file = resolve(Kind::Middleware, name, Layout::Nested).file;
    let function = middleware_function_template(name);
    if tree.has(file.as_str()) {
        let content = match tree.read(file.as_str()) {
            Err(e) => {
                return Err(e);
            },
            Ok(c) => c,
        };
        let mut marker = String::new();
        marker.append("pub async fn ");
        marker.append(name);
        marker.append("_middleware");
        assert(marker@ =~= middleware_marker(name@));
        if find_in(&chars_of(content.as_str()), &chars_of(marker.as_str()), 0).is_some() {
            return Ok(Definition::AlreadyPresent);
        }
        let mut grown = content;
        grown.append(function.as_str());
        match tree.write(file.as_str(), grown.as_str()) {
            Err(e) => Err(e),
            Ok(_) => Ok(Definition::Added),
        }
    } else {
        let mut text = middleware_dependencies_template();
        text.append("\n");
        text.append(function.as_str());
        match tree.write(file.as_str(), text.as_str()) {
            Err(e) => Err(e),
            Ok(_) => Ok(Definition::Created),
        }
    }
}

/// Generates the middleware function of `name`: its definition goes into
/// `src/middlewares.rs`, and the composition root `src/main.rs` declares
/// the module of the middleware functions and attaches the function right
/// behind the start of the chain. A patch whose marker is missing is left
/// out, and the report says so.
pub fn generate_middleware(tree: &mut SourceTree, name: String) -> (r: Result<
    MiddlewareReport,
    ScaffoldError,
>)
    ensures
        final(tree)@ == middleware_scaffold(old(tree)@, name@).tree,
        agrees(r, middleware_scaffold(old(tree)@, name@).failure),
        r matches Ok(report) ==> {
            let defined = middleware_defined(old(tree)@, name@).tree;
            let content = defined.files[main_path()];
            &&& report.definition == definition_of(old(tree)@, name@)
            &&& report.module == status(module_plan(content, "middlewares"@))
            &&& report.layer == status(layer_plan(middlewares_declared(content), name@))
        },
{
    let definition = match define_middleware(tree, name.as_str()) {
        Err(e) => {
            return Err(e);
        },
        Ok(d) => d,
    };
    let main_rs = join_path("src", "main.rs");
    let content = match tree.read(main_rs.as_str()) {
        Err(e) => {
            return Err(e);
        },
        Ok(c) => c,
    };
    let declared = ensure_module_registered(content.as_str(), "middlewares");
    let attached = ensure_middleware_registered(declared.text.as_str(), name.as_str());
    match tree.write(main_rs.as_str(), attached.text.as_str()) {
        Err(e) => {
            return Err(e);
        },
        Ok(_) => {},
    }
    Ok(MiddlewareReport { definition, module: declared.status, layer: attached.status })
}

} // verus!
