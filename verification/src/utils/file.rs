//! Directories and manifests of a source tree: each is made when it is
//! first needed, and a declaration is written once.
use crate::utils::manifest::{
    declaration, declare, declares, is_declared, lemma_append_keeps_lines, lemma_declare_declares,
    lemma_declare_keeps, one_line, with_declaration,
};
use crate::utils::text::{
    chars_of, contains, extend_range, find_in, lemma_rfind, occurs_at, rfind, same_chars, string_of,
};
use crate::utils::tree::{
    agrees, done, file_name, file_name_of, flat, is_dir_prefix, join, join_path, lemma_flat_path,
    lemma_join, made_dirs, parent, parent_of, read_failure, written, ErrorKind, Outcome,
    ScaffoldError, SourceTree, TreeView,
};
use vstd::prelude::*;

verus! {

/// The directory of the module `module`: `module` inside `src`.
pub open spec fn module_dir_path(module: Seq<char>) -> Seq<char> {
    join("src"@, module)
}

/// The path of the manifest of the directory `dir`.
pub open spec fn manifest_path(dir: Seq<char>) -> Seq<char> {
    join(dir, "mod.rs"@)
}

/// The path of the root manifest.
pub open spec fn root_manifest_path() -> Seq<char> {
    join("src"@, "lib.rs"@)
}

/// The name that the header of a manifest shows for the directory `dir`:
/// its last part, and a question mark where that is empty or `..`.
pub open spec fn shown_name(dir: Seq<char>) -> Seq<char> {
    let name = file_name(dir);
    if name.len() == 0 || name == ".."@ {
        "?"@
    } else {
        name
    }
}

/// The text that a new manifest of the directory `dir` starts with.
pub open spec fn manifest_header(dir: Seq<char>) -> Seq<char> {
    "// module: "@ + shown_name(dir) + "\n\n"@
}

/// The text that a new root manifest starts with.
pub open spec fn root_manifest_header() -> Seq<char> {
    "// auto-generated lib.rs\n\n"@
}

/// The manifest that declares what is made in the working directory: the
/// root manifest where that directory is named `src`, and else the
/// directory's own manifest.
pub open spec fn current_manifest(cwd_name: Seq<char>) -> Seq<char> {
    if cwd_name == "src"@ {
        "lib.rs"@
    } else {
        "mod.rs"@
    }
}

/// The file `p` is there afterwards: written with `text` where nothing had
/// that path, and left alone where something had.
pub open spec fn with_default(t: TreeView, p: Seq<char>, text: Seq<char>) -> Outcome {
    if t.has(p) {
        done(t)
    } else {
        written(t, p, text)
    }
}

/// The file `p` is there afterwards: where nothing had that path, the
/// directories above it are made and the file starts empty.
pub open spec fn with_file(t: TreeView, p: Seq<char>) -> Outcome {
    if t.has(p) {
        done(t)
    } else {
        let above = if parent(p).len() == 0 {
            done(t)
        } else {
            made_dirs(t, parent(p))
        };
        if above.failure is Some {
            above
        } else {
            written(above.tree, p, Seq::empty())
        }
    }
}

/// The manifest `m`, which is read, declares `child` afterwards: the
/// declaration is appended as a line of its own where no line of the
/// manifest is that declaration, and nothing is written where one is.
pub open spec fn with_declared(t: TreeView, m: Seq<char>, child: Seq<char>) -> Outcome {
    match read_failure(t, m) {
        Some(f) => Outcome { tree: t, failure: Some(f) },
        None => if declares(t.files[m], child) {
            done(t)
        } else {
            written(t, m, with_declaration(t.files[m], child))
        },
    }
}

/// What `ensure_pub_mod_decl` does to a tree.
pub open spec fn declared_in(t: TreeView, m: Seq<char>, child: Seq<char>) -> Outcome {
    let made = with_file(t, m);
    if made.failure is Some {
        made
    } else {
        with_declared(made.tree, m, child)
    }
}

/// What `ensure_root_mod` does to a tree.
pub open spec fn root_declared(t: TreeView, module: Seq<char>) -> Outcome {
    let dir = made_dirs(t, "src"@);
    if dir.failure is Some {
        dir
    } else {
        let made = with_default(dir.tree, root_manifest_path(), root_manifest_header());
        if made.failure is Some {
            made
        } else {
            with_declared(made.tree, root_manifest_path(), module)
        }
    }
}

/// The file `p`, which is read, gets `text` at its end unless it holds
/// `marker` somewhere.
pub open spec fn with_appended(
    t: TreeView,
    p: Seq<char>,
    marker: Seq<char>,
    text: Seq<char>,
) -> Outcome {
    match read_failure(t, p) {
        Some(f) => Outcome { tree: t, failure: Some(f) },
        None => if contains(t.files[p], marker) {
            done(t)
        } else {
            written(t, p, t.files[p] + text)
        },
    }
}

impl Outcome {
    /// Then the directory `p` is made, with those above it.
    pub open spec fn make_dirs(self, p: Seq<char>) -> Outcome {
        if self.failure is Some {
            self
        } else {
            made_dirs(self.tree, p)
        }
    }

    /// Then the directory `dir` gets a manifest, if it has none.
    pub open spec fn manifest(self, dir: Seq<char>) -> Outcome {
        if self.failure is Some {
            self
        } else {
            with_default(self.tree, manifest_path(dir), manifest_header(dir))
        }
    }

    /// Then `text` is written to the file `p`.
    pub open spec fn write(self, p: Seq<char>, text: Seq<char>) -> Outcome {
        if self.failure is Some {
            self
        } else {
            written(self.tree, p, text)
        }
    }

    /// Then `child` is declared in the manifest `m`.
    pub open spec fn declare(self, m: Seq<char>, child: Seq<char>) -> Outcome {
        if self.failure is Some {
            self
        } else {
            declared_in(self.tree, m, child)
        }
    }

    /// Then `module` is declared in the root manifest.
    pub open spec fn declare_root(self, module: Seq<char>) -> Outcome {
        if self.failure is Some {
            self
        } else {
            root_declared(self.tree, module)
        }
    }

    /// Then `text` is appended to the file `p` unless it holds `marker`.
    pub open spec fn append_unless(
        self,
        p: Seq<char>,
        marker: Seq<char>,
        text: Seq<char>,
    ) -> Outcome {
        if self.failure is Some {
            self
        } else {
            with_appended(self.tree, p, marker, text)
        }
    }
}

/// Whether the tree `u` has all that the tree `t` has: every directory,
/// and every file, whatever its text.
pub open spec fn grown(t: TreeView, u: TreeView) -> bool {
    &&& forall|d: Seq<char>| t.dirs.contains(d) ==> u.dirs.contains(d)
    &&& forall|p: Seq<char>| t.files.contains_key(p) ==> u.files.contains_key(p)
}

/// The character of a path by which its kind is told: the one before the
/// ending `.rs`.
pub open spec fn mark(p: Seq<char>) -> char {
    p[p.len() - 4]
}

/// Whether the path is that of a manifest: its last part is `mod.rs` or
/// `lib.rs`.
pub open spec fn is_manifest(p: Seq<char>) -> bool {
    file_name(p) == "mod.rs"@ || file_name(p) == "lib.rs"@
}

/// Whether the manifest `after` declares all that the manifest `before`
/// declares.
pub open spec fn gains(before: Seq<char>, after: Seq<char>) -> bool {
    forall|x: Seq<char>| declares(before, x) ==> declares(after, x)
}

/// Whether the tree `u` is the tree `t` but for the files of the set
/// `touched`: every other path is a file of both or of neither, with the
/// same text.
pub open spec fn same_but(t: TreeView, u: TreeView, touched: Set<Seq<char>>) -> bool {
    forall|q: Seq<char>|
        #![trigger u.files.contains_key(q)]
        #![trigger u.files[q]]
        !touched.contains(q) ==> (u.files.contains_key(q) <==> t.files.contains_key(q))
            && u.files[q] == t.files[q]
}

/// Whether the step from the tree `t` to the tree `u` has left alone what
/// it found, but for the file `w`: every other file holds what it held,
/// or is a manifest that has gained; a file that is new is `w` or a
/// manifest; and no path is both file and directory afterwards.
pub open spec fn careful(t: TreeView, u: TreeView, w: Seq<char>) -> bool {
    &&& grown(t, u)
    &&& u.consistent()
    &&& forall|q: Seq<char>|
        #![trigger t.files.contains_key(q)]
        #![trigger u.files[q]]
        t.files.contains_key(q) && q != w ==> u.files[q] == t.files[q] || (is_manifest(q)
            && gains(t.files[q], u.files[q]))
    &&& forall|q: Seq<char>|
        #![trigger u.files.contains_key(q)]
        u.files.contains_key(q) && !t.files.contains_key(q) ==> q == w || is_manifest(q)
}

/// One careful step after another is a careful step.
pub proof fn lemma_careful_steps(t: TreeView, u: TreeView, v: TreeView, w: Seq<char>)
    requires
        careful(t, u, w),
        careful(u, v, w),
    ensures
        careful(t, v, w),
{
    assert forall|q: Seq<char>| t.files.contains_key(q) && q != w implies v.files[q]
        == t.files[q] || (is_manifest(q) && gains(t.files[q], v.files[q])) by {
        assert(u.files.contains_key(q));
        if u.files[q] != t.files[q] && v.files[q] != u.files[q] {
            assert(gains(t.files[q], u.files[q]));
            assert(gains(u.files[q], v.files[q]));
            assert forall|x: Seq<char>| declares(t.files[q], x) implies declares(
                v.files[q],
                x,
            ) by {
                assert(declares(u.files[q], x));
            }
        }
    }
    assert forall|q: Seq<char>| v.files.contains_key(q) && !t.files.contains_key(q) implies q
        == w || is_manifest(q) by {
        if u.files.contains_key(q) {
        } else {
        }
    }
}

/// A manifest gains by a declaration.
pub proof fn lemma_gains_by_declaration(content: Seq<char>, child: Seq<char>)
    ensures
        gains(content, with_declaration(content, child)),
{
    assert forall|x: Seq<char>| declares(content, x) implies declares(
        with_declaration(content, child),
        x,
    ) by {
        lemma_declare_keeps(content, x, child);
    }
}

/// A manifest gains by more text behind it that starts on a new line.
pub proof fn lemma_gains_by_text(content: Seq<char>, more: Seq<char>)
    requires
        more.len() > 0,
        more[0] == '\n',
    ensures
        gains(content, content + more),
{
    assert forall|x: Seq<char>| declares(content, x) implies declares(content + more, x) by {
        lemma_append_keeps_lines(content, more, declaration(x));
    }
}

/// A path that is a manifest ends with `mod.rs` or `lib.rs`, so that its
/// mark is `d` or `b`.
pub proof fn lemma_manifest_mark(p: Seq<char>)
    requires
        is_manifest(p),
    ensures
        p.len() >= 6,
        mark(p) == 'd' || mark(p) == 'b',
{
    reveal_strlit("mod.rs");
    reveal_strlit("lib.rs");
    lemma_rfind(p, seq!['/']);
    match rfind(p, seq!['/']) {
        Some(i) => {
            let name = file_name(p);
            assert(occurs_at(p, seq!['/'], i));
            assert(name == p.subrange(i + 1, p.len() as int));
            assert(name.len() == 6);
            assert(name[2] == p[i + 1 + 2]);
        },
        None => {
            assert(file_name(p) == p);
        },
    }
}

/// The paths of the manifests are manifests, and how long they are.
pub proof fn lemma_manifest_marks(dir: Seq<char>, cwd_name: Seq<char>)
    ensures
        manifest_path(dir).len() == dir.len() + 7,
        root_manifest_path().len() == 10,
        current_manifest(cwd_name).len() == 6,
        mark(manifest_path(dir)) == 'd',
        mark(root_manifest_path()) == 'b',
        mark(current_manifest(cwd_name)) == 'd' || mark(current_manifest(cwd_name)) == 'b',
        is_manifest(manifest_path(dir)),
        is_manifest(root_manifest_path()),
        is_manifest(current_manifest(cwd_name)),
{
    reveal_strlit("src");
    reveal_strlit("mod.rs");
    reveal_strlit("lib.rs");
    lemma_join(dir, "mod.rs"@);
    lemma_join("src"@, "lib.rs"@);
    lemma_flat_path("mod.rs"@);
    lemma_flat_path("lib.rs"@);
}

/// What the making of directories does where it ends well: no file
/// changes, no directory goes, and the directory and those above it are
/// there.
pub proof fn lemma_made_dirs(t: TreeView, p: Seq<char>)
    requires
        t.consistent(),
        made_dirs(t, p).failure is None,
    ensures
        made_dirs(t, p).tree.files == t.files,
        made_dirs(t, p).tree.consistent(),
        grown(t, made_dirs(t, p).tree),
        forall|d: Seq<char>| is_dir_prefix(p, d) ==> made_dirs(t, p).tree.dirs.contains(d),
        made_dirs(t, p).tree.dirs.contains(p),
{
    assert(is_dir_prefix(p, p));
}

/// Directories that are there are not made again.
pub proof fn lemma_made_dirs_again(t: TreeView, p: Seq<char>)
    requires
        t.consistent(),
        forall|d: Seq<char>| is_dir_prefix(p, d) ==> t.dirs.contains(d),
    ensures
        made_dirs(t, p) == done(t),
{
    assert(t.dirs.union(Set::new(|d: Seq<char>| is_dir_prefix(p, d))) =~= t.dirs);
}

/// What the writing of a file does where it ends well: the file holds the
/// text, no other file changes, and no directory comes or goes.
pub proof fn lemma_written(t: TreeView, p: Seq<char>, c: Seq<char>)
    requires
        t.consistent(),
        written(t, p, c).failure is None,
    ensures
        written(t, p, c).tree.dirs == t.dirs,
        written(t, p, c).tree.files == t.files.insert(p, c),
        written(t, p, c).tree.consistent(),
        grown(t, written(t, p, c).tree),
        !t.dirs.contains(p),
        parent(p).len() == 0 || t.dirs.contains(parent(p)),
{
}

/// A file that holds the text already is the same once the text is
/// written again.
pub proof fn lemma_written_again(t: TreeView, p: Seq<char>, c: Seq<char>)
    requires
        t.consistent(),
        t.files.contains_key(p),
        t.files[p] == c,
        parent(p).len() == 0 || t.dirs.contains(parent(p)),
    ensures
        written(t, p, c) == done(t),
{
    assert(t.files.insert(p, c) =~= t.files);
}

/// What `with_default` does where it ends well: the path is there; if it
/// was not, it is a file with the given text now; nothing else changes.
pub proof fn lemma_with_default(t: TreeView, p: Seq<char>, text: Seq<char>)
    requires
        t.consistent(),
        with_default(t, p, text).failure is None,
    ensures
        with_default(t, p, text).tree.has(p),
        with_default(t, p, text).tree.dirs == t.dirs,
        with_default(t, p, text).tree.consistent(),
        grown(t, with_default(t, p, text).tree),
        forall|q: Seq<char>|
            q != p && with_default(t, p, text).tree.files.contains_key(q)
                ==> t.files.contains_key(q) && with_default(t, p, text).tree.files[q]
                == t.files[q],
        forall|q: Seq<char>|
            t.files.contains_key(q) ==> with_default(t, p, text).tree.files[q] == t.files[q],
        !t.files.contains_key(p) && with_default(t, p, text).tree.files.contains_key(p)
            ==> with_default(t, p, text).tree.files[p] == text,
{
}

/// What the declaring of a child in a manifest that is there does where
/// it ends well: the manifest declares the child, if the name is one
/// line; it declares what it declared; and nothing else changes.
pub proof fn lemma_with_declared(t: TreeView, m: Seq<char>, child: Seq<char>)
    requires
        t.consistent(),
        with_declared(t, m, child).failure is None,
    ensures
        t.files.contains_key(m),
        with_declared(t, m, child).tree.files.contains_key(m),
        with_declared(t, m, child).tree.files[m] == with_declaration(t.files[m], child),
        one_line(child) ==> declares(with_declared(t, m, child).tree.files[m], child),
        with_declared(t, m, child).tree.dirs == t.dirs,
        with_declared(t, m, child).tree.consistent(),
        grown(t, with_declared(t, m, child).tree),
        forall|q: Seq<char>|
            q != m ==> (with_declared(t, m, child).tree.files.contains_key(q)
                <==> t.files.contains_key(q)) && with_declared(t, m, child).tree.files[q]
                == t.files[q],
{
    if one_line(child) {
        lemma_declare_declares(t.files[m], child);
    }
}

/// What `ensure_pub_mod_decl` does where it ends well: the manifest is
/// there and declares the child, if the name is one line; where it was
/// there before, it declares what it declared; and no other file
/// changes.
pub proof fn lemma_declared_in(t: TreeView, m: Seq<char>, child: Seq<char>)
    requires
        t.consistent(),
        declared_in(t, m, child).failure is None,
    ensures
        declared_in(t, m, child).tree.files.contains_key(m),
        one_line(child) ==> declares(declared_in(t, m, child).tree.files[m], child),
        t.files.contains_key(m) ==> declared_in(t, m, child).tree.files[m] == with_declaration(
            t.files[m],
            child,
        ),
        declared_in(t, m, child).tree.consistent(),
        grown(t, declared_in(t, m, child).tree),
        forall|q: Seq<char>|
            q != m && t.files.contains_key(q) ==> declared_in(t, m, child).tree.files[q]
                == t.files[q],
        forall|q: Seq<char>|
            q != m && declared_in(t, m, child).tree.files.contains_key(q)
                ==> t.files.contains_key(q),
{
    let made = with_file(t, m);
    if !t.has(m) {
        if parent(m).len() != 0 {
            lemma_made_dirs(t, parent(m));
        }
        let above = if parent(m).len() == 0 {
            done(t)
        } else {
            made_dirs(t, parent(m))
        };
        lemma_written(above.tree, m, Seq::empty());
    }
    lemma_with_declared(made.tree, m, child);
}

/// To declare a child a second time changes nothing, whatever the
/// manifest held before the first time, for a name that is one line:
/// where `ensure_pub_mod_decl` has ended well, it ends well again and
/// leaves the manifest as it is.
pub proof fn lemma_declared_in_twice(t: TreeView, m: Seq<char>, child: Seq<char>)
    requires
        t.consistent(),
        one_line(child),
        declared_in(t, m, child).failure is None,
    ensures
        declared_in(declared_in(t, m, child).tree, m, child) == declared_in(t, m, child),
{
    lemma_declared_in(t, m, child);
}

/// To declare a module in the root manifest a second time changes
/// nothing, whatever the manifest held before the first time, for a name
/// that is one line.
pub proof fn lemma_root_declared_twice(t: TreeView, module: Seq<char>)
    requires
        t.consistent(),
        one_line(module),
        root_declared(t, module).failure is None,
    ensures
        root_declared(root_declared(t, module).tree, module) == root_declared(t, module),
{
    lemma_root_declared(t, module);
    lemma_root_declared_again(root_declared(t, module).tree, module);
}

/// A child that is declared is not declared again.
pub proof fn lemma_declared_in_again(t: TreeView, m: Seq<char>, child: Seq<char>)
    requires
        t.files.contains_key(m),
        declares(t.files[m], child),
    ensures
        declared_in(t, m, child) == done(t),
        with_declared(t, m, child) == done(t),
{
}

/// What `ensure_root_mod` does where it ends well: the root manifest is
/// there and declares the module, if the name is one line; `src` is
/// there; and no other file changes.
pub proof fn lemma_root_declared(t: TreeView, module: Seq<char>)
    requires
        t.consistent(),
        root_declared(t, module).failure is None,
    ensures
        root_declared(t, module).tree.files.contains_key(root_manifest_path()),
        one_line(module) ==> declares(
            root_declared(t, module).tree.files[root_manifest_path()],
            module,
        ),
        root_declared(t, module).tree.consistent(),
        grown(t, root_declared(t, module).tree),
        forall|d: Seq<char>|
            is_dir_prefix("src"@, d) ==> root_declared(t, module).tree.dirs.contains(d),
        forall|q: Seq<char>|
            q != root_manifest_path() && t.files.contains_key(q) ==> root_declared(
                t,
                module,
            ).tree.files[q] == t.files[q],
        forall|q: Seq<char>|
            q != root_manifest_path() && root_declared(t, module).tree.files.contains_key(q)
                ==> t.files.contains_key(q),
{
    let lib = root_manifest_path();
    lemma_made_dirs(t, "src"@);
    let dir = made_dirs(t, "src"@);
    lemma_with_default(dir.tree, lib, root_manifest_header());
    let made = with_default(dir.tree, lib, root_manifest_header());
    lemma_with_declared(made.tree, lib, module);
}

/// A module that the root manifest declares is not declared again.
pub proof fn lemma_root_declared_again(t: TreeView, module: Seq<char>)
    requires
        t.consistent(),
        forall|d: Seq<char>| is_dir_prefix("src"@, d) ==> t.dirs.contains(d),
        t.files.contains_key(root_manifest_path()),
        declares(t.files[root_manifest_path()], module),
    ensures
        root_declared(t, module) == done(t),
{
    lemma_made_dirs_again(t, "src"@);
}

/// The parts that the fixed paths are made of have no `/` in them, and
/// the root manifest lies in `src`.
pub proof fn lemma_fixed_paths()
    ensures
        flat("src"@),
        flat("mod.rs"@),
        flat("lib.rs"@),
        "src"@.len() == 3,
        parent(root_manifest_path()) == "src"@,
        forall|d: Seq<char>| is_dir_prefix("src"@, d) <==> d == "src"@,
{
    reveal_strlit("src");
    reveal_strlit("mod.rs");
    reveal_strlit("lib.rs");
    lemma_flat_path("src"@);
    lemma_join("src"@, "lib.rs"@);
}

/// What a declaration in a manifest does where it ends well, whatever
/// the manifest held: the manifest is there, nothing goes, and no path
/// is both file and directory.
pub proof fn lemma_declared_in_basic(t: TreeView, m: Seq<char>, child: Seq<char>)
    requires
        t.consistent(),
        declared_in(t, m, child).failure is None,
    ensures
        declared_in(t, m, child).tree.files.contains_key(m),
        declared_in(t, m, child).tree.consistent(),
        grown(t, declared_in(t, m, child).tree),
{
    if !t.has(m) {
        if parent(m).len() != 0 {
            lemma_made_dirs(t, parent(m));
        }
    }
}

/// What the declaration of a module in the root manifest does where it
/// ends well, whatever the manifest held: the manifest is there, nothing
/// goes, and no path is both file and directory.
pub proof fn lemma_root_declared_basic(t: TreeView, module: Seq<char>)
    requires
        t.consistent(),
        root_declared(t, module).failure is None,
    ensures
        root_declared(t, module).tree.files.contains_key(root_manifest_path()),
        root_declared(t, module).tree.consistent(),
        grown(t, root_declared(t, module).tree),
        !t.files.contains_key("src"@),
{
    lemma_made_dirs(t, "src"@);
    assert(is_dir_prefix("src"@, "src"@));
}

/// A declaration in a manifest that is there ends well, if the directory
/// that holds the manifest is there.
pub proof fn lemma_declared_in_succeeds(t: TreeView, m: Seq<char>, child: Seq<char>)
    requires
        t.consistent(),
        t.files.contains_key(m),
        parent(m).len() == 0 || t.dirs.contains(parent(m)),
    ensures
        declared_in(t, m, child).failure is None,
{
}

/// The declaration of a module in the root manifest ends well where
/// `src` is no file and the path of the root manifest is no directory.
pub proof fn lemma_root_declared_succeeds(t: TreeView, module: Seq<char>)
    requires
        t.consistent(),
        !t.files.contains_key("src"@),
        !t.dirs.contains(root_manifest_path()),
    ensures
        root_declared(t, module).failure is None,
{
    lemma_fixed_paths();
    lemma_manifest_marks(Seq::empty(), Seq::empty());
    lemma_made_dirs(t, "src"@);
    let t1 = made_dirs(t, "src"@).tree;
    assert(root_manifest_path().len() == 10);
    assert(!t1.dirs.contains(root_manifest_path()));
    let made = with_default(t1, root_manifest_path(), root_manifest_header());
    assert(made.failure is None);
    assert(made.tree.files.contains_key(root_manifest_path()));
}

/// No step takes anything away, whether it ends well or not: what the
/// tree had, file or directory, it has after the step; and no path
/// becomes both file and directory.
pub proof fn lemma_steps_keep_everything(
    t: TreeView,
    p: Seq<char>,
    text: Seq<char>,
    marker: Seq<char>,
)
    requires
        t.consistent(),
    ensures
        grown(t, made_dirs(t, p).tree) && made_dirs(t, p).tree.consistent(),
        grown(t, written(t, p, text).tree) && written(t, p, text).tree.consistent(),
        grown(t, with_default(t, p, text).tree) && with_default(t, p, text).tree.consistent(),
        grown(t, with_file(t, p).tree) && with_file(t, p).tree.consistent(),
        grown(t, with_declared(t, p, text).tree) && with_declared(t, p, text).tree.consistent(),
        grown(t, declared_in(t, p, text).tree) && declared_in(t, p, text).tree.consistent(),
        grown(t, root_declared(t, text).tree) && root_declared(t, text).tree.consistent(),
        grown(t, with_appended(t, p, marker, text).tree) && with_appended(
            t,
            p,
            marker,
            text,
        ).tree.consistent(),
{
    if made_dirs(t, parent(p)).failure is None {
        lemma_made_dirs(t, parent(p));
    }
    if made_dirs(t, "src"@).failure is None {
        lemma_made_dirs(t, "src"@);
    }
}

impl Outcome {
    /// Whether the outcome has all that the tree `t` had, with no path
    /// both file and directory.
    pub open spec fn keeps(self, t: TreeView) -> bool {
        grown(t, self.tree) && self.tree.consistent()
    }
}

/// A step that follows an outcome which has kept everything keeps
/// everything.
pub proof fn lemma_then_keeps(
    t: TreeView,
    o: Outcome,
    p: Seq<char>,
    text: Seq<char>,
    marker: Seq<char>,
)
    requires
        o.keeps(t),
    ensures
        o.make_dirs(p).keeps(t),
        o.manifest(p).keeps(t),
        o.write(p, text).keeps(t),
        o.declare(p, text).keeps(t),
        o.declare_root(text).keeps(t),
        o.append_unless(p, marker, text).keeps(t),
{
    lemma_steps_keep_everything(o.tree, p, text, marker);
    lemma_steps_keep_everything(o.tree, manifest_path(p), manifest_header(p), marker);
}

/// Every step is careful, whether it ends well or not: a step that
/// writes a file is careful but for that file, and a step on a manifest
/// is careful altogether, as a manifest only ever gains.
pub proof fn lemma_steps_are_careful(
    t: TreeView,
    p: Seq<char>,
    text: Seq<char>,
    marker: Seq<char>,
    w: Seq<char>,
)
    requires
        t.consistent(),
    ensures
        careful(t, made_dirs(t, p).tree, w),
        careful(t, written(t, p, text).tree, p),
        is_manifest(p) ==> careful(t, with_default(t, p, text).tree, w),
        is_manifest(p) ==> careful(t, declared_in(t, p, text).tree, w),
        careful(t, root_declared(t, text).tree, w),
        is_manifest(p) && text.len() > 0 && text[0] == '\n' ==> careful(
            t,
            with_appended(t, p, marker, text).tree,
            w,
        ),
{
    lemma_steps_keep_everything(t, p, text, marker);
    lemma_manifest_marks(Seq::empty(), Seq::empty());
    let lib = root_manifest_path();
    if t.files.contains_key(p) {
        lemma_gains_by_declaration(t.files[p], text);
        if text.len() > 0 && text[0] == '\n' {
            lemma_gains_by_text(t.files[p], text);
        }
    }
    if t.files.contains_key(lib) {
        lemma_gains_by_declaration(t.files[lib], text);
    }
    if made_dirs(t, parent(p)).failure is None {
        lemma_made_dirs(t, parent(p));
    }
    if made_dirs(t, "src"@).failure is None {
        lemma_made_dirs(t, "src"@);
    }
}

/// A step that follows careful steps makes careful steps of them: a
/// directory made, a manifest seen to, the one file `w` written, a
/// child declared, a text put behind a manifest on a new line.
pub proof fn lemma_then_careful(
    t: TreeView,
    o: Outcome,
    w: Seq<char>,
    p: Seq<char>,
    text: Seq<char>,
    marker: Seq<char>,
)
    requires
        careful(t, o.tree, w),
    ensures
        careful(t, o.make_dirs(p).tree, w),
        careful(t, o.manifest(p).tree, w),
        careful(t, o.write(w, text).tree, w),
        is_manifest(p) ==> careful(t, o.declare(p, text).tree, w),
        careful(t, o.declare_root(text).tree, w),
        is_manifest(p) && text.len() > 0 && text[0] == '\n' ==> careful(
            t,
            o.append_unless(p, marker, text).tree,
            w,
        ),
{
    lemma_manifest_marks(p, Seq::empty());
    lemma_steps_are_careful(o.tree, p, text, marker, w);
    lemma_steps_are_careful(o.tree, manifest_path(p), manifest_header(p), marker, w);
    lemma_steps_are_careful(o.tree, w, text, marker, w);
    lemma_careful_steps(t, o.tree, o.make_dirs(p).tree, w);
    lemma_careful_steps(t, o.tree, o.manifest(p).tree, w);
    lemma_careful_steps(t, o.tree, o.write(w, text).tree, w);
    lemma_careful_steps(t, o.tree, o.declare_root(text).tree, w);
    if is_manifest(p) {
        lemma_careful_steps(t, o.tree, o.declare(p, text).tree, w);
        if text.len() > 0 && text[0] == '\n' {
            lemma_careful_steps(t, o.tree, o.append_unless(p, marker, text).tree, w);
        }
    }
}

/// A step touches no file but its own, whether it ends well or not: what
/// follows steps that left all files alone but those of a set leaves
/// them alone too, if the file of the step is in the set.
pub proof fn lemma_then_same_but(
    t: TreeView,
    o: Outcome,
    touched: Set<Seq<char>>,
    p: Seq<char>,
    text: Seq<char>,
    marker: Seq<char>,
)
    requires
        same_but(t, o.tree, touched),
    ensures
        same_but(t, o.make_dirs(p).tree, touched),
        touched.contains(manifest_path(p)) ==> same_but(t, o.manifest(p).tree, touched),
        touched.contains(p) ==> same_but(t, o.write(p, text).tree, touched),
        touched.contains(p) ==> same_but(t, o.declare(p, text).tree, touched),
        touched.contains(root_manifest_path()) ==> same_but(
            t,
            o.declare_root(text).tree,
            touched,
        ),
        touched.contains(p) ==> same_but(t, o.append_unless(p, marker, text).tree, touched),
{
}

/// The directory of the module `module`.
pub fn module_dir(module: &str) -> (r: String)
    ensures
        r@ == module_dir_path(module@),
{
    join_path("src", module)
}

/// The manifest that declares what is made in the working directory, whose
/// last part is `cwd_name`.
pub fn current_mod_file(cwd_name: &str) -> (r: String)
    ensures
        r@ == current_manifest(cwd_name@),
{
    if same_chars(&chars_of(cwd_name), &chars_of("src")) {
        "lib.rs".to_owned()
    } else {
        "mod.rs".to_owned()
    }
}

/// The directories of `p` whose `/` stands before the index `i`.
spec fn prefixes_before(p: Seq<char>, i: int) -> Set<Seq<char>> {
    Set::new(
        |d: Seq<char>|
            exists|k: int|
                0 < k < i && k < p.len() && p[k] == '/' && d == #[trigger] p.subrange(0, k),
    )
}

/// The first `i` characters of `chars`, as a string.
fn prefix_of(chars: &Vec<char>, i: usize) -> (r: String)
    requires
        i <= chars.len(),
    ensures
        r@ == chars@.subrange(0, i as int),
{
    let mut out: Vec<char> = Vec::new();
    extend_range(&mut out, chars, 0, i);
    string_of(&out)
}

/// Makes the directory `path`, and every directory above it that is
/// missing; a directory that is there stays as it is. It fails, and leaves
/// the tree as it was, where `path` or a directory above it is a file.
pub fn ensure_dir(tree: &mut SourceTree, path: &str) -> (r: Result<String, ScaffoldError>)
    ensures
        final(tree)@ == made_dirs(old(tree)@, path@).tree,
        agrees(r, made_dirs(old(tree)@, path@).failure),
        r matches Ok(p) ==> p@ == path@,
{
    let chars = chars_of(path);
    let n: usize = chars.len();
    let mut i: usize = 1;
    while i < n
        invariant
            n == chars.len(),
            chars@ == path@,
            1 <= i,
            *tree == *old(tree),
            forall|k: int|
                0 < k < i && k < n && chars[k] == '/' ==> !tree@.files.contains_key(
                    #[trigger] chars@.subrange(0, k),
                ),
        decreases n - i,
    {
        if chars[i] == '/' {
            let prefix = prefix_of(&chars, i);
            if tree.is_file(prefix.as_str()) {
                assert(is_dir_prefix(path@, prefix@));
                return Err(
                    ScaffoldError { kind: ErrorKind::NotADirectory, path: path.to_owned() },
                );
            }
        }
        i += 1;
    }
    if tree.is_file(path) {
        assert(is_dir_prefix(path@, path@));
        return Err(ScaffoldError { kind: ErrorKind::NotADirectory, path: path.to_owned() });
    }
    assert(!(exists|d: Seq<char>| is_dir_prefix(path@, d) && tree@.files.contains_key(d)));
    let mut i: usize = 1;
    while i < n
        invariant
            n == chars.len(),
            chars@ == path@,
            1 <= i,
            tree@.files == old(tree)@.files,
            tree@.dirs == old(tree)@.dirs.union(prefixes_before(path@, i as int)),
            forall|d: Seq<char>| is_dir_prefix(path@, d) ==> !tree@.files.contains_key(d),
        decreases n - i,
    {
        if chars[i] == '/' {
            let prefix = prefix_of(&chars, i);
            assert(is_dir_prefix(path@, prefix@));
            let taken = tree.add_dir(prefix.as_str());
            assert(taken);
            assert(prefixes_before(path@, i + 1) =~= prefixes_before(path@, i as int).insert(
                prefix@,
            ));
            assert(old(tree)@.dirs.union(prefixes_before(path@, i as int)).insert(prefix@)
                =~= old(tree)@.dirs.union(prefixes_before(path@, i + 1)));
        } else {
            assert(prefixes_before(path@, i + 1) =~= prefixes_before(path@, i as int));
        }
        i += 1;
    }
    assert(is_dir_prefix(path@, path@));
    let taken = tree.add_dir(path);
    assert(taken);
    assert(tree@.dirs =~= old(tree)@.dirs.union(Set::new(|d: Seq<char>| is_dir_prefix(path@, d))));
    Ok(path.to_owned())
}

/// The text that a new manifest of the directory `dir` starts with.
pub fn manifest_header_of(dir: &str) -> (r: String)
    ensures
        r@ == manifest_header(dir@),
{
    let name = file_name_of(dir);
    let chars = chars_of(name.as_str());
    let mut r = String::new();
    r.append("// module: ");
    if chars.len() == 0 || same_chars(&chars, &chars_of("..")) {
        r.append("?");
    } else {
        r.append(name.as_str());
    }
    r.append("\n\n");
    r
}

/// Sees to it that the directory `dir` has a manifest: a new one, with its
/// header, where nothing has that path. It gives the manifest's path.
pub fn ensure_mod_rs(tree: &mut SourceTree, dir: &str) -> (r: Result<String, ScaffoldError>)
    ensures
        final(tree)@ == with_default(
            old(tree)@,
            manifest_path(dir@),
            manifest_header(dir@),
        ).tree,
        agrees(r, with_default(old(tree)@, manifest_path(dir@), manifest_header(dir@)).failure),
        r matches Ok(p) ==> p@ == manifest_path(dir@),
{
    let mod_rs = join_path(dir, "mod.rs");
    if !tree.has(mod_rs.as_str()) {
        let header = manifest_header_of(dir);
        match tree.write(mod_rs.as_str(), header.as_str()) {
            Err(e) => {
                return Err(e);
            },
            Ok(_) => {},
        }
    }
    Ok(mod_rs)
}

/// Reads the manifest `manifest` and appends the declaration of `child`
/// where no line of it is that declaration.
fn declare_in(tree: &mut SourceTree, manifest: &str, child: &str) -> (r: Result<
    (),
    ScaffoldError,
>)
    ensures
        final(tree)@ == with_declared(old(tree)@, manifest@, child@).tree,
        agrees(r, with_declared(old(tree)@, manifest@, child@).failure),
{
    let content = match tree.read(manifest) {
        Err(e) => {
            return Err(e);
        },
        Ok(c) => c,
    };
    if is_declared(content.as_str(), child) {
        return Ok(());
    }
    let grown = declare(content.as_str(), child);
    tree.write(manifest, grown.as_str())
}

/// Declares the child module `child_mod` in the manifest `mod_rs`, once.
/// A manifest that is not there is made first, empty, with the directories
/// above it. Where a line of the manifest, without the white space around
/// it, is the declaration already, nothing is written. Else the
/// declaration is appended as a line of its own: a last line of the
/// manifest that no line feed ends is ended first, so that no declaration
/// is lost and a second call finds the line.
pub fn ensure_pub_mod_decl(tree: &mut SourceTree, mod_rs: &str, child_mod: &str) -> (r: Result<
    (),
    ScaffoldError,
>)
    ensures
        final(tree)@ == declared_in(old(tree)@, mod_rs@, child_mod@).tree,
        agrees(r, declared_in(old(tree)@, mod_rs@, child_mod@).failure),
{
    if !tree.has(mod_rs) {
        let above = parent_of(mod_rs);
        if above.as_str().unicode_len() != 0 {
            match ensure_dir(tree, above.as_str()) {
                Err(e) => {
                    return Err(e);
                },
                Ok(_) => {},
            }
        }
        match tree.write(mod_rs, "") {
            Err(e) => {
                return Err(e);
            },
            Ok(_) => {},
        }
        assert(""@ =~= Seq::<char>::empty()) by {
            reveal_strlit("");
        }
    }
    declare_in(tree, mod_rs, child_mod)
}

/// Declares the module `module_name` in the root manifest, once. The
/// directory `src` and the root manifest are made where they are missing.
pub fn ensure_root_mod(tree: &mut SourceTree, module_name: &str) -> (r: Result<
    (),
    ScaffoldError,
>)
    ensures
        final(tree)@ == root_declared(old(tree)@, module_name@).tree,
        agrees(r, root_declared(old(tree)@, module_name@).failure),
{
    match ensure_dir(tree, "src") {
        Err(e) => {
            return Err(e);
        },
        Ok(_) => {},
    }
    let lib_rs = join_path("src", "lib.rs");
    if !tree.has(lib_rs.as_str()) {
        match tree.write(lib_rs.as_str(), "// auto-generated lib.rs\n\n") {
            Err(e) => {
                return Err(e);
            },
            Ok(_) => {},
        }
    }
    declare_in(tree, lib_rs.as_str(), module_name)
}

/// Appends `text` to the file `path`, which is read, unless the file holds
/// `marker` somewhere.
pub fn append_unless_present(tree: &mut SourceTree, path: &str, marker: &str, text: &str) -> (r:
    Result<(), ScaffoldError>)
    ensures
        final(tree)@ == with_appended(old(tree)@, path@, marker@, text@).tree,
        agrees(r, with_appended(old(tree)@, path@, marker@, text@).failure),
{
    let content = match tree.read(path) {
        Err(e) => {
            return Err(e);
        },
        Ok(c) => c,
    };
    if find_in(&chars_of(content.as_str()), &chars_of(marker), 0).is_some() {
        return Ok(());
    }
    let mut grown = content;
    grown.append(text);
    tree.write(path, grown.as_str())
}

} // verus!
