//! The artifacts of a module, under `src`.
use crate::commands::templates::generate_templates::{
    controller_template, controller_text, dto_template, dto_text, entity_template, entity_text,
    service_template, service_text,
};
use crate::utils::common::{capitalized, str_uppercase};
use crate::utils::file::{
    careful, declared_in, ensure_dir, ensure_mod_rs, ensure_pub_mod_decl, ensure_root_mod,
    is_manifest, lemma_declared_in, lemma_declared_in_again, lemma_declared_in_basic,
    lemma_declared_in_succeeds, lemma_fixed_paths, lemma_made_dirs, lemma_made_dirs_again,
    lemma_manifest_mark, lemma_manifest_marks, lemma_root_declared, lemma_root_declared_again,
    lemma_root_declared_basic, lemma_root_declared_succeeds, lemma_then_careful, lemma_then_keeps,
    lemma_then_same_but, lemma_with_default, lemma_written, lemma_written_again, manifest_header,
    manifest_path, root_declared, root_manifest_path, same_but, with_default,
};
use crate::utils::manifest::{declares, one_line};
use crate::utils::target::{
    lemma_file_mark, lemma_stem, lemma_target, resolve, subdir, subdir_of, target, Kind, Layout,
};
use crate::utils::tree::{
    agrees, done, flat, is_dir_prefix, lemma_join, made_dirs, parent, written, Outcome,
    ScaffoldError, SourceTree, TreeView,
};
use vstd::prelude::*;

verus! {

/// What the generation of an artifact of a module does to a tree. The
/// module's directory and its manifest are seen to, then the module's
/// declaration in the root manifest, then the directory below and its
/// manifest where the kind has one; then the file is written, and last
/// every manifest on the way down declares what lies below it. The first
/// step that fails ends it, and what was done stays done.
pub open spec fn nested_artifact(
    t: TreeView,
    kind: Kind,
    name: Seq<char>,
    text: Seq<char>,
) -> Outcome {
    let p = target(kind, name, Layout::Nested);
    let start = done(t).make_dirs(p.module_dir).manifest(p.module_dir).declare_root(name);
    match subdir(kind, Layout::Nested) {
        None => start.write(p.file, text).declare(manifest_path(p.module_dir), p.stem),
        Some(sub) => start.make_dirs(p.dir).manifest(p.dir).write(p.file, text).declare(
            manifest_path(p.module_dir),
            sub,
        ).declare(manifest_path(p.dir), p.stem),
    }
}

/// Whether the artifact of the kind `kind` of the module `name` can be
/// reached from the root manifest: the root manifest declares the module,
/// the module's directory is there and its manifest declares what lies
/// below, down to the file, and the file is there.
pub open spec fn nested_chain(u: TreeView, kind: Kind, name: Seq<char>) -> bool {
    let p = target(kind, name, Layout::Nested);
    &&& u.files.contains_key(root_manifest_path())
    &&& declares(u.files[root_manifest_path()], name)
    &&& u.dirs.contains(p.module_dir)
    &&& u.files.contains_key(manifest_path(p.module_dir))
    &&& match subdir(kind, Layout::Nested) {
        None => declares(u.files[manifest_path(p.module_dir)], p.stem),
        Some(sub) => {
            &&& declares(u.files[manifest_path(p.module_dir)], sub)
            &&& u.dirs.contains(p.dir)
            &&& u.files.contains_key(manifest_path(p.dir))
            &&& declares(u.files[manifest_path(p.dir)], p.stem)
        },
    }
    &&& u.files.contains_key(p.file)
}

/// Whether `q` is one of the paths that the generation of the artifact
/// writes to: the root manifest, the manifests on the way down, and the
/// file.
pub open spec fn nested_touches(kind: Kind, name: Seq<char>, q: Seq<char>) -> bool {
    let p = target(kind, name, Layout::Nested);
    ||| q == root_manifest_path()
    ||| q == manifest_path(p.module_dir)
    ||| q == manifest_path(p.dir)
    ||| q == p.file
}

/// The paths that the generation of the artifact writes to.
pub open spec fn nested_touched(kind: Kind, name: Seq<char>) -> Set<Seq<char>> {
    Set::new(|q: Seq<char>| nested_touches(kind, name, q))
}

/// Whether the artifact is all there in the tree `u`: its directories,
/// the chain of declarations that leads to it, and its file with the
/// text `text`.
pub open spec fn nested_done(u: TreeView, kind: Kind, name: Seq<char>, text: Seq<char>) -> bool {
    let p = target(kind, name, Layout::Nested);
    &&& forall|d: Seq<char>| is_dir_prefix(p.module_dir, d) ==> u.dirs.contains(d)
    &&& forall|d: Seq<char>| is_dir_prefix(p.dir, d) ==> u.dirs.contains(d)
    &&& forall|d: Seq<char>| is_dir_prefix("src"@, d) ==> u.dirs.contains(d)
    &&& nested_chain(u, kind, name)
    &&& u.files[p.file] == text
    &&& (parent(p.file).len() == 0 || u.dirs.contains(parent(p.file)))
}

/// The paths that the generation of an artifact of a module writes to
/// are four different paths, or three where the kind has no directory of
/// its own; the file is no manifest.
pub proof fn lemma_nested_paths(kind: Kind, name: Seq<char>)
    requires
        kind != Kind::Middleware,
    ensures
        ({
            let p = target(kind, name, Layout::Nested);
            &&& p.file != root_manifest_path()
            &&& p.file != manifest_path(p.module_dir)
            &&& p.file != manifest_path(p.dir)
            &&& !is_manifest(p.file)
            &&& manifest_path(p.module_dir) != root_manifest_path()
            &&& manifest_path(p.dir) != root_manifest_path()
            &&& subdir(kind, Layout::Nested) is Some ==> manifest_path(p.module_dir)
                != manifest_path(p.dir)
            &&& subdir(kind, Layout::Nested) is None ==> p.module_dir == p.dir
            &&& one_line(name) ==> one_line(p.stem)
            &&& subdir(kind, Layout::Nested) matches Some(s) ==> one_line(s)
        }),
{
    lemma_target(kind, name, Layout::Nested);
    lemma_file_mark(kind, name, Layout::Nested);
    let p = target(kind, name, Layout::Nested);
    lemma_manifest_marks(p.module_dir, Seq::empty());
    lemma_manifest_marks(p.dir, Seq::empty());
    lemma_stem(kind, name, Layout::Nested);
    if is_manifest(p.file) {
        lemma_manifest_mark(p.file);
    }
}

/// An artifact that is all there is not generated again: the tree stays
/// as it is.
pub proof fn lemma_nested_again(u: TreeView, kind: Kind, name: Seq<char>, text: Seq<char>)
    requires
        kind != Kind::Middleware,
        u.consistent(),
        nested_done(u, kind, name, text),
    ensures
        nested_artifact(u, kind, name, text) == done(u),
{
    let p = target(kind, name, Layout::Nested);
    lemma_made_dirs_again(u, p.module_dir);
    lemma_root_declared_again(u, name);
    lemma_made_dirs_again(u, p.dir);
    lemma_written_again(u, p.file, text);
    match subdir(kind, Layout::Nested) {
        None => {
            lemma_declared_in_again(u, manifest_path(p.module_dir), p.stem);
        },
        Some(sub) => {
            lemma_declared_in_again(u, manifest_path(p.module_dir), sub);
            lemma_declared_in_again(u, manifest_path(p.dir), p.stem);
        },
    }
}

/// An artifact that is all there is still all there after a careful step
/// that has not written to its file.
pub proof fn lemma_nested_kept(
    t: TreeView,
    u: TreeView,
    w: Seq<char>,
    kind: Kind,
    name: Seq<char>,
    text: Seq<char>,
)
    requires
        kind != Kind::Middleware,
        nested_done(t, kind, name, text),
        careful(t, u, w),
        w != target(kind, name, Layout::Nested).file,
        !is_manifest(w),
    ensures
        nested_done(u, kind, name, text),
{
    let p = target(kind, name, Layout::Nested);
    lemma_nested_paths(kind, name);
    lemma_manifest_marks(p.module_dir, Seq::empty());
    lemma_manifest_marks(p.dir, Seq::empty());
    assert(u.files.contains_key(root_manifest_path()));
    assert(u.files.contains_key(manifest_path(p.module_dir)));
    assert(u.files.contains_key(manifest_path(p.dir)));
    assert(u.files.contains_key(p.file));
}

/// The generation of an artifact of a module leaves alone what it does
/// not make, in every tree, for every name, and whether it ends well or
/// not: a path that it does not write to is a file afterwards exactly if
/// it was one, with the text that it had; the manifests that it writes
/// to declare what they declared; nothing goes; and where it ends well,
/// the file of the artifact is there, with its text.
pub proof fn lemma_nested_leaves_alone(t: TreeView, kind: Kind, name: Seq<char>, text: Seq<char>)
    requires
        kind != Kind::Middleware,
        t.consistent(),
    ensures
        same_but(t, nested_artifact(t, kind, name, text).tree, nested_touched(kind, name)),
        careful(
            t,
            nested_artifact(t, kind, name, text).tree,
            target(kind, name, Layout::Nested).file,
        ),
        nested_artifact(t, kind, name, text).failure is None ==> {
            let u = nested_artifact(t, kind, name, text).tree;
            let f = target(kind, name, Layout::Nested).file;
            u.files.contains_key(f) && u.files[f] == text
        },
{
    let p = target(kind, name, Layout::Nested);
    let a = manifest_path(p.module_dir);
    let b = manifest_path(p.dir);
    let f = p.file;
    let s = nested_touched(kind, name);
    let none = Seq::<char>::empty();
    lemma_nested_paths(kind, name);
    lemma_manifest_marks(p.module_dir, Seq::empty());
    lemma_manifest_marks(p.dir, Seq::empty());
    assert(s.contains(root_manifest_path()) && s.contains(a) && s.contains(b) && s.contains(f));
    let o0 = done(t);
    lemma_then_careful(t, o0, f, p.module_dir, none, none);
    lemma_then_same_but(t, o0, s, p.module_dir, none, none);
    let o1 = o0.make_dirs(p.module_dir);
    lemma_then_careful(t, o1, f, p.module_dir, none, none);
    lemma_then_same_but(t, o1, s, p.module_dir, none, none);
    let o2 = o1.manifest(p.module_dir);
    lemma_then_careful(t, o2, f, none, name, none);
    lemma_then_same_but(t, o2, s, none, name, none);
    let o3 = o2.declare_root(name);
    match subdir(kind, Layout::Nested) {
        None => {
            lemma_then_careful(t, o3, f, none, text, none);
            lemma_then_same_but(t, o3, s, f, text, none);
            let o4 = o3.write(f, text);
            lemma_then_careful(t, o4, f, a, p.stem, none);
            lemma_then_same_but(t, o4, s, a, p.stem, none);
            if o4.declare(a, p.stem).failure is None {
                lemma_written(o3.tree, f, text);
                lemma_declared_in(o4.tree, a, p.stem);
            }
        },
        Some(sub) => {
            lemma_then_careful(t, o3, f, p.dir, none, none);
            lemma_then_same_but(t, o3, s, p.dir, none, none);
            let o4 = o3.make_dirs(p.dir);
            lemma_then_careful(t, o4, f, p.dir, none, none);
            lemma_then_same_but(t, o4, s, p.dir, none, none);
            let o5 = o4.manifest(p.dir);
            lemma_then_careful(t, o5, f, none, text, none);
            lemma_then_same_but(t, o5, s, f, text, none);
            let o6 = o5.write(f, text);
            lemma_then_careful(t, o6, f, a, sub, none);
            lemma_then_same_but(t, o6, s, a, sub, none);
            let o7 = o6.declare(a, sub);
            lemma_then_careful(t, o7, f, b, p.stem, none);
            lemma_then_same_but(t, o7, s, b, p.stem, none);
            if o7.declare(b, p.stem).failure is None {
                lemma_written(o5.tree, f, text);
                lemma_declared_in(o6.tree, a, sub);
                lemma_declared_in(o7.tree, b, p.stem);
            }
        },
    }
}

/// Of the generation of an artifact of a module, where it ends well, for
/// a name that is one line, whatever the manifests held: the artifact is
/// all there afterwards, so that it can be reached from the root
/// manifest, link by link, and its file holds the text; and to generate
/// it once more changes nothing, so that every manifest and file is
/// after the second run what it was after the first.
pub proof fn lemma_nested_artifact(t: TreeView, kind: Kind, name: Seq<char>, text: Seq<char>)
    requires
        kind != Kind::Middleware,
        t.consistent(),
        one_line(name),
        nested_artifact(t, kind, name, text).failure is None,
    ensures
        nested_done(nested_artifact(t, kind, name, text).tree, kind, name, text),
        nested_chain(nested_artifact(t, kind, name, text).tree, kind, name),
        nested_artifact(nested_artifact(t, kind, name, text).tree, kind, name, text)
            == nested_artifact(t, kind, name, text),
{
    let p = target(kind, name, Layout::Nested);
    let lib = root_manifest_path();
    let a = manifest_path(p.module_dir);
    let b = manifest_path(p.dir);
    let f = p.file;
    lemma_nested_paths(kind, name);
    lemma_nested_leaves_alone(t, kind, name, text);
    lemma_made_dirs(t, p.module_dir);
    let t1 = made_dirs(t, p.module_dir).tree;
    lemma_with_default(t1, a, manifest_header(p.module_dir));
    let t2 = with_default(t1, a, manifest_header(p.module_dir)).tree;
    lemma_root_declared(t2, name);
    let t3 = root_declared(t2, name).tree;
    match subdir(kind, Layout::Nested) {
        None => {
            lemma_written(t3, f, text);
            let t4 = written(t3, f, text).tree;
            lemma_declared_in(t4, a, p.stem);
            let u = declared_in(t4, a, p.stem).tree;
            assert(u == nested_artifact(t, kind, name, text).tree);
            assert(u.files[lib] == t3.files[lib]);
            assert(nested_done(u, kind, name, text));
            lemma_nested_again(u, kind, name, text);
        },
        Some(sub) => {
            lemma_made_dirs(t3, p.dir);
            let t4 = made_dirs(t3, p.dir).tree;
            lemma_with_default(t4, b, manifest_header(p.dir));
            let t5 = with_default(t4, b, manifest_header(p.dir)).tree;
            lemma_written(t5, f, text);
            let t6 = written(t5, f, text).tree;
            lemma_declared_in(t6, a, sub);
            let t7 = declared_in(t6, a, sub).tree;
            lemma_declared_in(t7, b, p.stem);
            let u = declared_in(t7, b, p.stem).tree;
            assert(u == nested_artifact(t, kind, name, text).tree);
            assert(u.files[lib] == t3.files[lib]);
            assert(u.files[a] == t7.files[a]);
            assert(nested_done(u, kind, name, text));
            lemma_nested_again(u, kind, name, text);
        },
    }
}

/// The generation of an artifact of a module takes nothing away, whether
/// it ends well or not: what the tree had, file or directory, it has
/// afterwards, and no path becomes both file and directory.
pub proof fn lemma_nested_keeps_everything(
    t: TreeView,
    kind: Kind,
    name: Seq<char>,
    text: Seq<char>,
)
    requires
        t.consistent(),
    ensures
        nested_artifact(t, kind, name, text).keeps(t),
{
    let p = target(kind, name, Layout::Nested);
    let none = Seq::<char>::empty();
    let o0 = done(t);
    lemma_then_keeps(t, o0, p.module_dir, none, none);
    let o1 = o0.make_dirs(p.module_dir);
    lemma_then_keeps(t, o1, p.module_dir, none, none);
    let o2 = o1.manifest(p.module_dir);
    lemma_then_keeps(t, o2, none, name, none);
    let o3 = o2.declare_root(name);
    match subdir(kind, Layout::Nested) {
        None => {
            lemma_then_keeps(t, o3, p.file, text, none);
            let o4 = o3.write(p.file, text);
            lemma_then_keeps(t, o4, manifest_path(p.module_dir), p.stem, none);
        },
        Some(sub) => {
            lemma_then_keeps(t, o3, p.dir, none, none);
            let o4 = o3.make_dirs(p.dir);
            lemma_then_keeps(t, o4, p.dir, none, none);
            let o5 = o4.manifest(p.dir);
            lemma_then_keeps(t, o5, p.file, text, none);
            let o6 = o5.write(p.file, text);
            lemma_then_keeps(t, o6, manifest_path(p.module_dir), sub, none);
            let o7 = o6.declare(manifest_path(p.module_dir), sub);
            lemma_then_keeps(t, o7, manifest_path(p.dir), p.stem, none);
        },
    }
}

/// Whether nothing is in the way of the artifact: no file where a
/// directory has to be, and no directory where a file has to be.
pub open spec fn nested_free(t: TreeView, kind: Kind, name: Seq<char>) -> bool {
    let p = target(kind, name, Layout::Nested);
    &&& !t.files.contains_key("src"@)
    &&& !t.files.contains_key(p.module_dir)
    &&& !t.files.contains_key(p.dir)
    &&& !t.dirs.contains(root_manifest_path())
    &&& !t.dirs.contains(manifest_path(p.module_dir))
    &&& !t.dirs.contains(manifest_path(p.dir))
    &&& !t.dirs.contains(p.file)
}

/// How the paths of an artifact of a module lie, for a name of one part:
/// which directory holds which, and which directories stand above.
pub proof fn lemma_nested_layout(kind: Kind, name: Seq<char>)
    requires
        kind != Kind::Middleware,
        flat(name),
    ensures
        ({
            let p = target(kind, name, Layout::Nested);
            &&& parent(manifest_path(p.module_dir)) == p.module_dir
            &&& parent(manifest_path(p.dir)) == p.dir
            &&& parent(p.file) == p.dir
            &&& forall|d: Seq<char>|
                is_dir_prefix(p.module_dir, d) <==> d == p.module_dir || d == "src"@
            &&& forall|d: Seq<char>|
                is_dir_prefix(p.dir, d) <==> d == p.dir || d == p.module_dir || d == "src"@
            &&& (p.module_dir == root_manifest_path() <==> name == "lib.rs"@)
        }),
{
    let p = target(kind, name, Layout::Nested);
    lemma_fixed_paths();
    lemma_target(kind, name, Layout::Nested);
    lemma_stem(kind, name, Layout::Nested);
    lemma_join("src"@, name);
    lemma_join("src"@, "lib.rs"@);
    lemma_join(p.module_dir, "mod.rs"@);
    lemma_join(p.dir, "mod.rs"@);
    lemma_join(p.dir, p.stem + ".rs"@);
    match subdir(kind, Layout::Nested) {
        Some(sub) => {
            lemma_join(p.module_dir, sub);
        },
        None => {},
    }
    assert forall|d: Seq<char>| is_dir_prefix(p.module_dir, d) <==> d == p.module_dir || d
        == "src"@ by {
        assert(is_dir_prefix("src"@, d) <==> d == "src"@);
    }
    assert forall|d: Seq<char>| is_dir_prefix(p.dir, d) <==> d == p.dir || d == p.module_dir || d
        == "src"@ by {
        assert(is_dir_prefix("src"@, d) <==> d == "src"@);
        assert(is_dir_prefix(p.module_dir, d) <==> d == p.module_dir || d == "src"@);
    }
}

/// When the generation of an artifact of a module ends well: in a tree
/// in which no path is both file and directory, and for a name of one
/// part other than `lib.rs`, exactly when nothing is in the way.
pub proof fn lemma_nested_succeeds(t: TreeView, kind: Kind, name: Seq<char>, text: Seq<char>)
    requires
        kind != Kind::Middleware,
        t.consistent(),
        flat(name),
        name != "lib.rs"@,
    ensures
        nested_artifact(t, kind, name, text).failure is None <==> nested_free(t, kind, name),
{
    let p = target(kind, name, Layout::Nested);
    let lib = root_manifest_path();
    let a = manifest_path(p.module_dir);
    let b = manifest_path(p.dir);
    let f = p.file;
    lemma_nested_layout(kind, name);
    lemma_nested_paths(kind, name);
    lemma_target(kind, name, Layout::Nested);
    lemma_fixed_paths();
    lemma_manifest_marks(p.module_dir, Seq::empty());
    lemma_manifest_marks(p.dir, Seq::empty());
    if nested_free(t, kind, name) {
        lemma_made_dirs(t, p.module_dir);
        let t1 = made_dirs(t, p.module_dir).tree;
        assert(!t1.dirs.contains(a));
        lemma_with_default(t1, a, manifest_header(p.module_dir));
        let t2 = with_default(t1, a, manifest_header(p.module_dir)).tree;
        assert(t2.files.contains_key(a));
        assert(!t2.files.contains_key("src"@));
        assert(!t2.dirs.contains(lib));
        lemma_root_declared_succeeds(t2, name);
        lemma_root_declared_basic(t2, name);
        let t3 = root_declared(t2, name).tree;
        assert(forall|d: Seq<char>| t3.dirs.contains(d) ==> t.dirs.contains(d) || d == "src"@ || d
            == p.module_dir) by {
            lemma_made_dirs(t2, "src"@);
        }
        assert(forall|q: Seq<char>| t3.files.contains_key(q) ==> t.files.contains_key(q) || q == a
            || q == lib) by {
            lemma_made_dirs(t2, "src"@);
        }
        match subdir(kind, Layout::Nested) {
            None => {
                assert(!t3.dirs.contains(f));
                lemma_written(t3, f, text);
                let t4 = written(t3, f, text).tree;
                lemma_declared_in_succeeds(t4, a, p.stem);
            },
            Some(sub) => {
                assert(!t3.files.contains_key(p.dir));
                lemma_made_dirs(t3, p.dir);
                let t4 = made_dirs(t3, p.dir).tree;
                assert(!t4.dirs.contains(b));
                lemma_with_default(t4, b, manifest_header(p.dir));
                let t5 = with_default(t4, b, manifest_header(p.dir)).tree;
                assert(t5.files.contains_key(b));
                assert(!t5.dirs.contains(f));
                lemma_written(t5, f, text);
                let t6 = written(t5, f, text).tree;
                lemma_declared_in_succeeds(t6, a, sub);
                lemma_declared_in_basic(t6, a, sub);
                let t7 = declared_in(t6, a, sub).tree;
                lemma_declared_in_succeeds(t7, b, p.stem);
            },
        }
    }
    if nested_artifact(t, kind, name, text).failure is None {
        lemma_made_dirs(t, p.module_dir);
        let t1 = made_dirs(t, p.module_dir).tree;
        assert(is_dir_prefix(p.module_dir, "src"@));
        assert(is_dir_prefix(p.module_dir, p.module_dir));
        lemma_with_default(t1, a, manifest_header(p.module_dir));
        let t2 = with_default(t1, a, manifest_header(p.module_dir)).tree;
        lemma_root_declared_basic(t2, name);
        let t3 = root_declared(t2, name).tree;
        match subdir(kind, Layout::Nested) {
            None => {
                lemma_written(t3, f, text);
                let t4 = written(t3, f, text).tree;
                lemma_declared_in_basic(t4, a, p.stem);
            },
            Some(sub) => {
                lemma_made_dirs(t3, p.dir);
                let t4 = made_dirs(t3, p.dir).tree;
                assert(is_dir_prefix(p.dir, p.dir));
                lemma_with_default(t4, b, manifest_header(p.dir));
                let t5 = with_default(t4, b, manifest_header(p.dir)).tree;
                lemma_written(t5, f, text);
                let t6 = written(t5, f, text).tree;
                lemma_declared_in_basic(t6, a, sub);
                let t7 = declared_in(t6, a, sub).tree;
                lemma_declared_in_basic(t7, b, p.stem);
            },
        }
    }
}

/// What holds where the generation of an artifact of a module has ended
/// well, for a name of one part: the module's manifest is a file, the
/// module's directory and `src` are directories, and no path is both
/// file and directory.
pub proof fn lemma_nested_succeeds_leaves(t: TreeView, kind: Kind, name: Seq<char>, text: Seq<char>)
    requires
        kind != Kind::Middleware,
        t.consistent(),
        flat(name),
        nested_artifact(t, kind, name, text).failure is None,
    ensures
        ({
            let u = nested_artifact(t, kind, name, text).tree;
            let p = target(kind, name, Layout::Nested);
            &&& u.consistent()
            &&& u.files.contains_key(manifest_path(p.module_dir))
            &&& u.dirs.contains(p.module_dir)
            &&& u.dirs.contains("src"@)
            &&& parent(manifest_path(p.module_dir)) == p.module_dir
        }),
{
    let p = target(kind, name, Layout::Nested);
    let a = manifest_path(p.module_dir);
    let none = Seq::<char>::empty();
    lemma_nested_layout(kind, name);
    lemma_nested_keeps_everything(t, kind, name, text);
    lemma_made_dirs(t, p.module_dir);
    assert(is_dir_prefix(p.module_dir, "src"@));
    let o1 = done(t).make_dirs(p.module_dir);
    lemma_then_keeps(t, done(t), p.module_dir, none, none);
    let o2 = o1.manifest(p.module_dir);
    lemma_then_keeps(t, o1, p.module_dir, none, none);
    let o3 = o2.declare_root(name);
    lemma_then_keeps(o1.tree, o2, none, name, none);
    match subdir(kind, Layout::Nested) {
        None => {
            let o4 = o3.write(p.file, text);
            lemma_then_keeps(o1.tree, o3, p.file, text, none);
            lemma_declared_in_basic(o4.tree, a, p.stem);
            lemma_then_keeps(o1.tree, o4, a, p.stem, none);
        },
        Some(sub) => {
            let o4 = o3.make_dirs(p.dir);
            lemma_then_keeps(o1.tree, o3, p.dir, none, none);
            let o5 = o4.manifest(p.dir);
            lemma_then_keeps(o1.tree, o4, p.dir, none, none);
            let o6 = o5.write(p.file, text);
            lemma_then_keeps(o1.tree, o5, p.file, text, none);
            lemma_declared_in_basic(o6.tree, a, sub);
            let o7 = o6.declare(a, sub);
            lemma_then_keeps(o1.tree, o6, a, sub, none);
            lemma_then_keeps(o7.tree, done(o7.tree), manifest_path(p.dir), p.stem, none);
            lemma_then_keeps(o1.tree, o7, manifest_path(p.dir), p.stem, none);
        },
    }
}

/// Whether the tree `u` has, beyond what the tree `t` has, nothing but
/// what the generation of the artifact makes: its directories and the
/// paths that it writes to.
pub open spec fn nested_frame(t: TreeView, u: TreeView, kind: Kind, name: Seq<char>) -> bool {
    let p = target(kind, name, Layout::Nested);
    &&& forall|q: Seq<char>|
        u.files.contains_key(q) ==> t.files.contains_key(q) || nested_touches(kind, name, q)
    &&& forall|d: Seq<char>|
        u.dirs.contains(d) ==> t.dirs.contains(d) || d == "src"@ || d == p.module_dir || d
            == p.dir
}

/// The generation of an artifact of a module, for a name of one part,
/// makes nothing but its directories and the paths that it writes to,
/// whether it ends well or not.
pub proof fn lemma_nested_frame(t: TreeView, kind: Kind, name: Seq<char>, text: Seq<char>)
    requires
        kind != Kind::Middleware,
        t.consistent(),
        flat(name),
    ensures
        nested_frame(t, nested_artifact(t, kind, name, text).tree, kind, name),
{
    let p = target(kind, name, Layout::Nested);
    let a = manifest_path(p.module_dir);
    let b = manifest_path(p.dir);
    lemma_nested_layout(kind, name);
    lemma_fixed_paths();
    lemma_nested_keeps_everything(t, kind, name, text);
    let none = Seq::<char>::empty();
    let o1 = done(t).make_dirs(p.module_dir);
    lemma_then_keeps(t, done(t), p.module_dir, none, none);
    assert(nested_frame(t, o1.tree, kind, name));
    let o2 = o1.manifest(p.module_dir);
    lemma_then_keeps(t, o1, p.module_dir, none, none);
    assert(nested_frame(t, o2.tree, kind, name));
    let o3 = o2.declare_root(name);
    lemma_then_keeps(t, o2, none, name, none);
    assert(nested_frame(t, o3.tree, kind, name)) by {
        if o2.failure is None && made_dirs(o2.tree, "src"@).failure is None {
            lemma_made_dirs(o2.tree, "src"@);
        }
    }
    match subdir(kind, Layout::Nested) {
        None => {
            let o4 = o3.write(p.file, text);
            lemma_then_keeps(t, o3, p.file, text, none);
            assert(nested_frame(t, o4.tree, kind, name));
            lemma_then_keeps(t, o4, a, p.stem, none);
            if o4.failure is None && !o4.tree.has(a) {
                lemma_made_dirs(o4.tree, p.module_dir);
            }
        },
        Some(sub) => {
            let o4 = o3.make_dirs(p.dir);
            lemma_then_keeps(t, o3, p.dir, none, none);
            assert(nested_frame(t, o4.tree, kind, name));
            let o5 = o4.manifest(p.dir);
            lemma_then_keeps(t, o4, p.dir, none, none);
            assert(nested_frame(t, o5.tree, kind, name));
            let o6 = o5.write(p.file, text);
            lemma_then_keeps(t, o5, p.file, text, none);
            assert(nested_frame(t, o6.tree, kind, name));
            let o7 = o6.declare(a, sub);
            lemma_then_keeps(t, o6, a, sub, none);
            if o6.failure is None && !o6.tree.has(a) {
                lemma_made_dirs(o6.tree, p.module_dir);
            }
            assert(nested_frame(t, o7.tree, kind, name));
            lemma_then_keeps(t, o7, b, p.stem, none);
            if o7.failure is None && !o7.tree.has(b) {
                lemma_made_dirs(o7.tree, p.dir);
            }
        },
    }
}

/// Generates the artifact of the kind `kind` of the module `name`, with
/// `text` as the text of its file, and gives the path of the file.
pub fn generate_nested(tree: &mut SourceTree, kind: Kind, name: &str, text: &str) -> (r: Result<
    String,
    ScaffoldError,
>)
    ensures
        final(tree)@ == nested_artifact(old(tree)@, kind, name@, text@).tree,
        agrees(r, nested_artifact(old(tree)@, kind, name@, text@).failure),
        r matches Ok(p) ==> p@ == target(kind, name@, Layout::Nested).file,
{
    let p = resolve(kind, name, Layout::Nested);
    match ensure_dir(tree, p.module_dir.as_str()) {
        Err(e) => {
            return Err(e);
        },
        Ok(_) => {},
    }
    let mod_rs = match ensure_mod_rs(tree, p.module_dir.as_str()) {
        Err(e) => {
            return Err(e);
        },
        Ok(m) => m,
    };
    match ensure_root_mod(tree, name) {
        Err(e) => {
            return Err(e);
        },
        Ok(_) => {},
    }
    match subdir_of(kind, Layout::Nested) {
        None => {
            match tree.write(p.file.as_str(), text) {
                Err(e) => {
                    return Err(e);
                },
                Ok(_) => {},
            }
            match ensure_pub_mod_decl(tree, mod_rs.as_str(), p.stem.as_str()) {
                Err(e) => {
                    return Err(e);
                },
                Ok(_) => {},
            }
        },
        Some(sub) => {
            match ensure_dir(tree, p.dir.as_str()) {
                Err(e) => {
                    return Err(e);
                },
                Ok(_) => {},
            }
            let sub_mod_rs = match ensure_mod_rs(tree, p.dir.as_str()) {
                Err(e) => {
                    return Err(e);
                },
                Ok(m) => m,
            };
            match tree.write(p.file.as_str(), text) {
                Err(e) => {
                    return Err(e);
                },
                Ok(_) => {},
            }
            match ensure_pub_mod_decl(tree, mod_rs.as_str(), sub.as_str()) {
                Err(e) => {
                    return Err(e);
                },
                Ok(_) => {},
            }
            match ensure_pub_mod_decl(tree, sub_mod_rs.as_str(), p.stem.as_str()) {
                Err(e) => {
                    return Err(e);
                },
                Ok(_) => {},
            }
        },
    }
    Ok(p.file)
}

/// What the generation of the controller of the module `name` does to a
/// tree.
pub open spec fn nested_controller(t: TreeView, name: Seq<char>) -> Outcome {
    nested_artifact(t, Kind::Controller, name, controller_text(name, capitalized(name)))
}

/// What the generation of the service of the module `name` does to a
/// tree.
pub open spec fn nested_service(t: TreeView, name: Seq<char>) -> Outcome {
    nested_artifact(
        t,
        Kind::Service,
        name,
        service_text(name, capitalized(name), str_uppercase(name)),
    )
}

/// What the generation of the data-transfer objects of the module `name`
/// does to a tree.
pub open spec fn nested_dto(t: TreeView, name: Seq<char>) -> Outcome {
    nested_artifact(t, Kind::Dto, name, dto_text(capitalized(name)))
}

/// What the generation of the entity of the module `name` does to a tree.
pub open spec fn nested_entity(t: TreeView, name: Seq<char>) -> Outcome {
    nested_artifact(t, Kind::Entity, name, entity_text(capitalized(name)))
}

/// Generates the controller of the module `name`, in
/// `src/name/name_controller.rs`.
pub fn generate_controller(tree: &mut SourceTree, name: String) -> (r: Result<
    String,
    ScaffoldError,
>)
    ensures
        final(tree)@ == nested_controller(old(tree)@, name@).tree,
        agrees(r, nested_controller(old(tree)@, name@).failure),
        r matches Ok(p) ==> p@ == target(Kind::Controller, name@, Layout::Nested).file,
{
    let text = controller_template(name.as_str());
    generate_nested(tree, Kind::Controller, name.as_str(), text.as_str())
}

/// Generates the service of the module `name`, in
/// `src/name/name_service.rs`.
pub fn generate_service(tree: &mut SourceTree, name: String) -> (r: Result<String, ScaffoldError>)
    ensures
        final(tree)@ == nested_service(old(tree)@, name@).tree,
        agrees(r, nested_service(old(tree)@, name@).failure),
        r matches Ok(p) ==> p@ == target(Kind::Service, name@, Layout::Nested).file,
{
    let text = service_template(name.as_str());
    generate_nested(tree, Kind::Service, name.as_str(), text.as_str())
}

/// Generates the data-transfer objects of the module `name`, in
/// `src/name/dto/name_dto.rs`.
pub fn generate_dto(tree: &mut SourceTree, name: String) -> (r: Result<String, ScaffoldError>)
    ensures
        final(tree)@ == nested_dto(old(tree)@, name@).tree,
        agrees(r, nested_dto(old(tree)@, name@).failure),
        r matches Ok(p) ==> p@ == target(Kind::Dto, name@, Layout::Nested).file,
{
    let text = dto_template(name.as_str());
    generate_nested(tree, Kind::Dto, name.as_str(), text.as_str())
}

/// Generates the entity of the module `name`, in
/// `src/name/entities/name_entity.rs`.
pub fn generate_entity(tree: &mut SourceTree, name: String) -> (r: Result<String, ScaffoldError>)
    ensures
        final(tree)@ == nested_entity(old(tree)@, name@).tree,
        agrees(r, nested_entity(old(tree)@, name@).failure),
        r matches Ok(p) ==> p@ == target(Kind::Entity, name@, Layout::Nested).file,
{
    let text = entity_template(name.as_str());
    generate_nested(tree, Kind::Entity, name.as_str(), text.as_str())
}

} // verus!
