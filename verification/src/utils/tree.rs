//! The source tree: directories and files by path, and what can go wrong
//! with a path.
use crate::utils::text::{
    chars_of, extend_range, extend_str, lemma_rfind, occurs_at, rfind, rfind_in, string_of,
};
use vstd::prelude::*;

verus! {

/// What went wrong with a path.
#[derive(Clone, Copy, Debug, PartialEq, Eq, Structural)]
pub enum ErrorKind {
    /// A path that has to be a directory is a file.
    NotADirectory,
    /// A path that has to be a file is a directory.
    IsADirectory,
    /// The file, or the directory that should hold it, is not there.
    NotFound,
}

/// A failed step: what went wrong, and with which path.
#[derive(Debug)]
pub struct ScaffoldError {
    pub kind: ErrorKind,
    pub path: String,
}

/// A failed step, in specifications.
pub struct Failure {
    pub kind: ErrorKind,
    pub path: Seq<char>,
}

impl View for ScaffoldError {
    type V = Failure;

    open spec fn view(&self) -> Failure {
        Failure { kind: self.kind, path: self.path@ }
    }
}

/// The words that stand before the path in the message of an error.
pub open spec fn kind_text(kind: ErrorKind) -> Seq<char> {
    match kind {
        ErrorKind::NotADirectory => "not a directory: "@,
        ErrorKind::IsADirectory => "is a directory: "@,
        ErrorKind::NotFound => "no such file or directory: "@,
    }
}

impl ScaffoldError {
    /// The message of the error: what went wrong, then the path.
    pub fn message(&self) -> (r: String)
        ensures
            r@ == kind_text(self.kind) + self.path@,
    {
        let mut r = String::new();
        match self.kind {
            ErrorKind::NotADirectory => r.append("not a directory: "),
            ErrorKind::IsADirectory => r.append("is a directory: "),
            ErrorKind::NotFound => r.append("no such file or directory: "),
        }
        assert(r@ =~= kind_text(self.kind));
        r.append(self.path.as_str());
        r
    }
}

/// Whether the result of a step tells of the failure `failure`, or of none.
pub open spec fn agrees<T>(r: Result<T, ScaffoldError>, failure: Option<Failure>) -> bool {
    match r {
        Ok(_) => failure is None,
        Err(e) => failure == Some(e@),
    }
}

/// A source tree, in specifications: the directories that exist, and the
/// text of each file. Paths are relative to the root of the tree, with `/`
/// between their parts.
pub struct TreeView {
    pub dirs: Set<Seq<char>>,
    pub files: Map<Seq<char>, Seq<char>>,
}

impl TreeView {
    /// Whether something, file or directory, has the path `p`.
    pub open spec fn has(self, p: Seq<char>) -> bool {
        self.files.contains_key(p) || self.dirs.contains(p)
    }

    /// No path is both a file and a directory.
    pub open spec fn consistent(self) -> bool {
        forall|p: Seq<char>| !(self.dirs.contains(p) && self.files.contains_key(p))
    }
}

/// Where a step has led: the tree after it, and the failure that ended it,
/// if one did.
pub struct Outcome {
    pub tree: TreeView,
    pub failure: Option<Failure>,
}

/// The step that ends well in the tree `t`.
pub open spec fn done(t: TreeView) -> Outcome {
    Outcome { tree: t, failure: None }
}

/// The step that fails in the tree `t`.
pub open spec fn failed(t: TreeView, kind: ErrorKind, path: Seq<char>) -> Outcome {
    Outcome { tree: t, failure: Some(Failure { kind, path }) }
}

/// The path of the directory that holds `p`: what stands before the last
/// `/`, and nothing where `p` has none.
pub open spec fn parent(p: Seq<char>) -> Seq<char> {
    match rfind(p, seq!['/']) {
        Some(i) => p.subrange(0, i),
        None => Seq::empty(),
    }
}

/// The last part of the path `p`: what stands after the last `/`.
pub open spec fn file_name(p: Seq<char>) -> Seq<char> {
    match rfind(p, seq!['/']) {
        Some(i) => p.subrange(i + 1, p.len() as int),
        None => p,
    }
}

/// The path of `name` inside the directory `dir`.
pub open spec fn join(dir: Seq<char>, name: Seq<char>) -> Seq<char> {
    dir + seq!['/'] + name
}

/// Whether `d` is the path `p` or a directory above it.
pub open spec fn is_dir_prefix(p: Seq<char>, d: Seq<char>) -> bool {
    d == p || exists|i: int| 0 < i < p.len() && p[i] == '/' && d == #[trigger] p.subrange(0, i)
}

/// Whether the name has no `/` in it, so that it is one part of a path.
pub open spec fn flat(name: Seq<char>) -> bool {
    forall|k: int| 0 <= k < name.len() ==> name[k] != '/'
}

/// A path of one part lies at the root of the tree, and is its own last
/// part.
pub proof fn lemma_flat_path(p: Seq<char>)
    requires
        flat(p),
    ensures
        parent(p).len() == 0,
        file_name(p) == p,
        forall|d: Seq<char>| is_dir_prefix(p, d) <==> d == p,
{
    lemma_rfind(p, seq!['/']);
    if rfind(p, seq!['/']) is Some {
        let i = rfind(p, seq!['/'])->0;
        assert(p.subrange(i, i + 1)[0] == '/');
    }
}

/// What is joined can be taken apart: the path of a name of one part
/// inside a directory has that directory above it and that name as its
/// last part, and the directories above it are the directory and those
/// above the directory.
pub proof fn lemma_join(dir: Seq<char>, name: Seq<char>)
    requires
        flat(name),
    ensures
        join(dir, name).len() == dir.len() + 1 + name.len(),
        parent(join(dir, name)) == dir,
        file_name(join(dir, name)) == name,
        dir.len() > 0 ==> forall|d: Seq<char>|
            #![trigger is_dir_prefix(join(dir, name), d)]
            is_dir_prefix(join(dir, name), d) <==> d == join(dir, name) || is_dir_prefix(dir, d),
{
    let p = join(dir, name);
    let n = dir.len() as int;
    lemma_rfind(p, seq!['/']);
    assert(p.subrange(n, n + 1) =~= seq!['/']);
    assert(occurs_at(p, seq!['/'], n));
    let i = rfind(p, seq!['/'])->0;
    if i > n {
        assert(p.subrange(i, i + 1)[0] == '/');
        assert(p[i] == name[i - n - 1]);
    }
    assert(i == n);
    assert(p.subrange(0, n) =~= dir);
    assert(p.subrange(n + 1, p.len() as int) =~= name);
    if dir.len() > 0 {
        assert forall|d: Seq<char>| is_dir_prefix(p, d) <==> d == p || is_dir_prefix(dir, d) by {
            if is_dir_prefix(p, d) && d != p {
                let k = choose|k: int| 0 < k < p.len() && p[k] == '/' && d == p.subrange(0, k);
                if k > n {
                    assert(p[k] == name[k - n - 1]);
                }
                if k < n {
                    assert(p.subrange(0, k) =~= dir.subrange(0, k));
                    assert(dir[k] == p[k]);
                }
            }
            if is_dir_prefix(dir, d) {
                if d == dir {
                    assert(p[n] == '/');
                    assert(d == p.subrange(0, n));
                } else {
                    let k = choose|k: int|
                        0 < k < dir.len() && dir[k] == '/' && d == dir.subrange(0, k);
                    assert(p.subrange(0, k) =~= dir.subrange(0, k));
                    assert(p[k] == dir[k]);
                    assert(d == p.subrange(0, k));
                }
            }
        }
    }
}

/// Why the file `p` cannot be read, if it cannot.
pub open spec fn read_failure(t: TreeView, p: Seq<char>) -> Option<Failure> {
    if t.files.contains_key(p) {
        None
    } else if t.dirs.contains(p) {
        Some(Failure { kind: ErrorKind::IsADirectory, path: p })
    } else {
        Some(Failure { kind: ErrorKind::NotFound, path: p })
    }
}

/// Why the file `p` cannot be written, if it cannot: it is a directory, or
/// the directory that should hold it is a file or is not there. The root
/// of the tree is always there.
pub open spec fn write_failure(t: TreeView, p: Seq<char>) -> Option<Failure> {
    if t.dirs.contains(p) {
        Some(Failure { kind: ErrorKind::IsADirectory, path: p })
    } else if parent(p).len() == 0 || t.dirs.contains(parent(p)) {
        None
    } else if t.files.contains_key(parent(p)) {
        Some(Failure { kind: ErrorKind::NotADirectory, path: p })
    } else {
        Some(Failure { kind: ErrorKind::NotFound, path: p })
    }
}

/// Writing the text `c` to the file `p`.
pub open spec fn written(t: TreeView, p: Seq<char>, c: Seq<char>) -> Outcome {
    match write_failure(t, p) {
        Some(f) => Outcome { tree: t, failure: Some(f) },
        None => done(TreeView { dirs: t.dirs, files: t.files.insert(p, c) }),
    }
}

/// Making the directory `p` and every directory above it that is missing.
/// It fails where one of them is a file.
pub open spec fn made_dirs(t: TreeView, p: Seq<char>) -> Outcome {
    if exists|d: Seq<char>| is_dir_prefix(p, d) && t.files.contains_key(d) {
        failed(t, ErrorKind::NotADirectory, p)
    } else {
        done(
            TreeView {
                dirs: t.dirs.union(Set::new(|d: Seq<char>| is_dir_prefix(p, d))),
                files: t.files,
            },
        )
    }
}

/// The one character that parts a path.
fn slash() -> (r: Vec<char>)
    ensures
        r@ == seq!['/'],
{
    let mut r: Vec<char> = Vec::new();
    r.push('/');
    assert(r@ =~= seq!['/']);
    r
}

/// The path of the directory that holds `path`.
pub fn parent_of(path: &str) -> (r: String)
    ensures
        r@ == parent(path@),
{
    let chars = chars_of(path);
    let mut out: Vec<char> = Vec::new();
    match rfind_in(&chars, &slash()) {
        Some(i) => {
            extend_range(&mut out, &chars, 0, i);
        },
        None => {},
    }
    assert(out@ =~= parent(path@));
    string_of(&out)
}

/// The last part of `path`.
pub fn file_name_of(path: &str) -> (r: String)
    ensures
        r@ == file_name(path@),
{
    let chars = chars_of(path);
    let mut out: Vec<char> = Vec::new();
    match rfind_in(&chars, &slash()) {
        Some(i) => {
            extend_range(&mut out, &chars, i + 1, chars.len());
        },
        None => {
            extend_range(&mut out, &chars, 0, chars.len());
        },
    }
    assert(out@ =~= file_name(path@));
    string_of(&out)
}

/// The path of `name` inside the directory `dir`.
pub fn join_path(dir: &str, name: &str) -> (r: String)
    ensures
        r@ == join(dir@, name@),
{
    let mut out: Vec<char> = Vec::new();
    extend_str(&mut out, dir);
    out.push('/');
    extend_str(&mut out, name);
    assert(out@ =~= join(dir@, name@));
    string_of(&out)
}

/// One file of a tree.
pub struct FileEntry {
    path: String,
    content: String,
}

/// A source tree held in memory: the directories that exist and the text of
/// each file, by path. No path of a tree is both a file and a directory:
/// every tree starts so and no step changes it.
pub struct SourceTree {
    dirs: Vec<String>,
    files: Vec<FileEntry>,
}

/// The directories that the list names.
pub closed spec fn dirs_of(dirs: Seq<String>) -> Set<Seq<char>> {
    Set::new(|p: Seq<char>| exists|i: int| 0 <= i < dirs.len() && #[trigger] dirs[i]@ == p)
}

/// The files that the list holds; of two entries with one path the later
/// one counts.
pub closed spec fn files_of(entries: Seq<FileEntry>) -> Map<Seq<char>, Seq<char>>
    decreases entries.len(),
{
    if entries.len() == 0 {
        Map::empty()
    } else {
        files_of(entries.drop_last()).insert(entries.last().path@, entries.last().content@)
    }
}

proof fn lemma_files_of_absent(entries: Seq<FileEntry>, p: Seq<char>)
    requires
        forall|j: int| 0 <= j < entries.len() ==> entries[j].path@ != p,
    ensures
        !files_of(entries).contains_key(p),
    decreases entries.len(),
{
    if entries.len() > 0 {
        lemma_files_of_absent(entries.drop_last(), p);
    }
}

proof fn lemma_files_of_present(entries: Seq<FileEntry>, p: Seq<char>, i: int)
    requires
        0 <= i < entries.len(),
        entries[i].path@ == p,
        forall|j: int| i < j < entries.len() ==> entries[j].path@ != p,
    ensures
        files_of(entries).contains_key(p),
        files_of(entries)[p] == entries[i].content@,
    decreases entries.len(),
{
    if i < entries.len() - 1 {
        lemma_files_of_present(entries.drop_last(), p, i);
    }
}

proof fn lemma_files_of_update(entries: Seq<FileEntry>, i: int, e: FileEntry)
    requires
        0 <= i < entries.len(),
        entries[i].path@ == e.path@,
        forall|j: int| i < j < entries.len() ==> entries[j].path@ != e.path@,
    ensures
        files_of(entries.update(i, e)) == files_of(entries).insert(e.path@, e.content@),
    decreases entries.len(),
{
    let changed = entries.update(i, e);
    if i == entries.len() - 1 {
        assert(changed.drop_last() =~= entries.drop_last());
        assert(files_of(changed) =~= files_of(entries).insert(e.path@, e.content@));
    } else {
        lemma_files_of_update(entries.drop_last(), i, e);
        assert(changed.drop_last() =~= entries.drop_last().update(i, e));
        assert(files_of(changed) =~= files_of(entries).insert(e.path@, e.content@));
    }
}

proof fn lemma_files_of_push(entries: Seq<FileEntry>, e: FileEntry)
    ensures
        files_of(entries.push(e)) == files_of(entries).insert(e.path@, e.content@),
{
    assert(entries.push(e).drop_last() =~= entries);
}

proof fn lemma_files_of_dom(entries: Seq<FileEntry>, p: Seq<char>)
    ensures
        files_of(entries).contains_key(p) <==> exists|j: int|
            0 <= j < entries.len() && #[trigger] entries[j].path@ == p,
    decreases entries.len(),
{
    if entries.len() > 0 {
        let front = entries.drop_last();
        lemma_files_of_dom(front, p);
        if entries.last().path@ == p {
            assert(entries[entries.len() - 1].path@ == p);
        } else if files_of(front).contains_key(p) {
            let j = choose|j: int| 0 <= j < front.len() && #[trigger] front[j].path@ == p;
            assert(entries[j].path@ == p);
        } else if exists|j: int| 0 <= j < entries.len() && #[trigger] entries[j].path@ == p {
            let j = choose|j: int| 0 <= j < entries.len() && #[trigger] entries[j].path@ == p;
            assert(front[j].path@ == p);
        }
    }
}

impl View for SourceTree {
    type V = TreeView;

    closed spec fn view(&self) -> TreeView {
        TreeView { dirs: dirs_of(self.dirs@), files: files_of(self.files@) }
    }
}

impl SourceTree {
    /// No path of a tree is both a file and a directory.
    #[verifier::type_invariant]
    spec fn sound(self) -> bool {
        self@.consistent()
    }

    /// Tells what holds of every tree: no path is both a file and a
    /// directory.
    pub fn consistency(&self)
        ensures
            self@.consistent(),
    {
        proof {
            use_type_invariant(self);
        }
    }

    /// The tree with no file and no directory.
    pub fn new() -> (tree: SourceTree)
        ensures
            tree@.dirs == Set::<Seq<char>>::empty(),
            tree@.files == Map::<Seq<char>, Seq<char>>::empty(),
    {
        let tree = SourceTree { dirs: Vec::new(), files: Vec::new() };
        assert(tree@.dirs =~= Set::<Seq<char>>::empty());
        tree
    }

    /// The index of the entry that counts for `path`.
    fn position(&self, path: &String) -> (r: Option<usize>)
        ensures
            match r {
                Some(i) => i < self.files.len() && self.files[i as int].path@ == path@
                    && self@.files.contains_key(path@) && self@.files[path@]
                    == self.files[i as int].content@ && forall|j: int|
                    i < j < self.files.len() ==> self.files[j].path@ != path@,
                None => !self@.files.contains_key(path@),
            },
    {
        let mut i: usize = self.files.len();
        while i > 0
            invariant
                i <= self.files.len(),
                forall|j: int| i <= j < self.files.len() ==> self.files[j].path@ != path@,
            decreases i,
        {
            i -= 1;
            if self.files[i].path == *path {
                proof {
                    lemma_files_of_present(self.files@, path@, i as int);
                }
                return Some(i);
            }
        }
        proof {
            lemma_files_of_absent(self.files@, path@);
        }
        None
    }

    /// Whether `path` is a directory of the tree.
    pub fn is_dir(&self, path: &str) -> (r: bool)
        ensures
            r == self@.dirs.contains(path@),
    {
        let wanted = path.to_owned();
        let mut i: usize = 0;
        while i < self.dirs.len()
            invariant
                i <= self.dirs.len(),
                wanted@ == path@,
                forall|j: int| 0 <= j < i ==> self.dirs[j]@ != path@,
            decreases self.dirs.len() - i,
        {
            if self.dirs[i] == wanted {
                return true;
            }
            i += 1;
        }
        false
    }

    /// Whether `path` is a file of the tree.
    pub fn is_file(&self, path: &str) -> (r: bool)
        ensures
            r == self@.files.contains_key(path@),
    {
        let wanted = path.to_owned();
        self.position(&wanted).is_some()
    }

    /// Whether `path` is a file or a directory of the tree.
    pub fn has(&self, path: &str) -> (r: bool)
        ensures
            r == self@.has(path@),
    {
        self.is_file(path) || self.is_dir(path)
    }

    /// The text of the file `path`, if the tree has that file.
    pub fn content(&self, path: &str) -> (r: Option<String>)
        ensures
            match r {
                Some(c) => self@.files.contains_key(path@) && self@.files[path@] == c@,
                None => !self@.files.contains_key(path@),
            },
    {
        let wanted = path.to_owned();
        match self.position(&wanted) {
            Some(i) => Some(self.files[i].content.clone()),
            None => None,
        }
    }

    /// Takes the directory `path` into the tree as it is, whatever stands
    /// above it, and says whether it did: a path that is a file of the
    /// tree is not taken as a directory.
    pub fn add_dir(&mut self, path: &str) -> (taken: bool)
        ensures
            taken == !old(self)@.files.contains_key(path@),
            final(self)@.dirs == if taken {
                old(self)@.dirs.insert(path@)
            } else {
                old(self)@.dirs
            },
            final(self)@.files == old(self)@.files,
    {
        proof {
            use_type_invariant(&*self);
        }
        if self.is_file(path) {
            return false;
        }
        if self.is_dir(path) {
            assert(self@.dirs.insert(path@) =~= self@.dirs);
            return true;
        }
        let ghost before = self.dirs@;
        let ghost held = self@;
        assert(held.consistent());
        let mut dirs: Vec<String> = Vec::new();
        std::mem::swap(&mut dirs, &mut self.dirs);
        dirs.push(path.to_owned());
        proof {
            let after = dirs@;
            assert(files_of(self.files@) == held.files);
            assert(dirs_of(before) == held.dirs);
            assert(after[after.len() - 1]@ == path@);
            assert forall|p: Seq<char>| dirs_of(after).contains(p) <==> dirs_of(before).insert(
                path@,
            ).contains(p) by {
                if dirs_of(before).contains(p) {
                    let i = choose|i: int| 0 <= i < before.len() && #[trigger] before[i]@ == p;
                    assert(after[i]@ == p);
                }
                if dirs_of(after).contains(p) {
                    let i = choose|i: int| 0 <= i < after.len() && #[trigger] after[i]@ == p;
                    if i < before.len() {
                        assert(before[i]@ == p);
                    }
                }
            }
            assert(dirs_of(after) =~= dirs_of(before).insert(path@));
            assert(TreeView { dirs: dirs_of(after), files: held.files }.consistent());
        }
        self.dirs = dirs;
        true
    }

    /// Takes the file `path` with the text `content` into the tree as it
    /// is, and says whether it did: a file that the tree had under that
    /// path is replaced, and a path that is a directory of the tree is
    /// not taken as a file.
    pub fn add_file(&mut self, path: &str, content: &str) -> (taken: bool)
        ensures
            taken == !old(self)@.dirs.contains(path@),
            final(self)@.dirs == old(self)@.dirs,
            final(self)@.files == if taken {
                old(self)@.files.insert(path@, content@)
            } else {
                old(self)@.files
            },
    {
        proof {
            use_type_invariant(&*self);
        }
        if self.is_dir(path) {
            return false;
        }
        let entry = FileEntry { path: path.to_owned(), content: content.to_owned() };
        let found = self.position(&entry.path);
        let ghost before = self.files@;
        let mut files: Vec<FileEntry> = Vec::new();
        std::mem::swap(&mut files, &mut self.files);
        match found {
            Some(i) => {
                proof {
                    lemma_files_of_update(before, i as int, entry);
                }
                files.set(i, entry);
            },
            None => {
                proof {
                    lemma_files_of_push(before, entry);
                }
                files.push(entry);
            },
        }
        self.files = files;
        true
    }

    /// Reads the file `path`.
    pub fn read(&self, path: &str) -> (r: Result<String, ScaffoldError>)
        ensures
            agrees(r, read_failure(self@, path@)),
            r matches Ok(c) ==> c@ == self@.files[path@],
    {
        match self.content(path) {
            Some(c) => Ok(c),
            None => {
                if self.is_dir(path) {
                    Err(ScaffoldError { kind: ErrorKind::IsADirectory, path: path.to_owned() })
                } else {
                    Err(ScaffoldError { kind: ErrorKind::NotFound, path: path.to_owned() })
                }
            },
        }
    }

    /// Writes `content` to the file `path`, in place of what the file
    /// held. The directory that holds the file must be there.
    pub fn write(&mut self, path: &str, content: &str) -> (r: Result<(), ScaffoldError>)
        ensures
            final(self)@ == written(old(self)@, path@, content@).tree,
            agrees(r, written(old(self)@, path@, content@).failure),
    {
        if self.is_dir(path) {
            return Err(ScaffoldError { kind: ErrorKind::IsADirectory, path: path.to_owned() });
        }
        let above = parent_of(path);
        if above.as_str().unicode_len() == 0 || self.is_dir(above.as_str()) {
            let taken = self.add_file(path, content);
            assert(taken);
            assert(self@ == written(old(self)@, path@, content@).tree);
            Ok(())
        } else if self.is_file(above.as_str()) {
            Err(ScaffoldError { kind: ErrorKind::NotADirectory, path: path.to_owned() })
        } else {
            Err(ScaffoldError { kind: ErrorKind::NotFound, path: path.to_owned() })
        }
    }

    /// The directories of the tree.
    pub fn dir_paths(&self) -> (r: Vec<String>)
        ensures
            forall|p: Seq<char>|
                self@.dirs.contains(p) <==> exists|i: int| 0 <= i < r.len() && #[trigger] r[i]@ == p,
    {
        let mut r: Vec<String> = Vec::new();
        let mut i: usize = 0;
        while i < self.dirs.len()
            invariant
                i <= self.dirs.len(),
                r.len() == i,
                forall|j: int| 0 <= j < i ==> r[j]@ == self.dirs[j]@,
            decreases self.dirs.len() - i,
        {
            r.push(self.dirs[i].clone());
            i += 1;
        }
        proof {
            assert forall|p: Seq<char>| self@.dirs.contains(p) <==> exists|i: int|
                0 <= i < r.len() && #[trigger] r[i]@ == p by {
                if self@.dirs.contains(p) {
                    let i = choose|i: int| 0 <= i < self.dirs.len() && #[trigger] self.dirs[i]@ == p;
                    assert(r[i]@ == p);
                }
                if exists|i: int| 0 <= i < r.len() && #[trigger] r[i]@ == p {
                    let i = choose|i: int| 0 <= i < r.len() && #[trigger] r[i]@ == p;
                    assert(self.dirs[i]@ == p);
                }
            }
        }
        r
    }

    /// The paths of the files of the tree.
    pub fn file_paths(&self) -> (r: Vec<String>)
        ensures
            forall|p: Seq<char>|
                self@.files.contains_key(p) <==> exists|i: int|
                    0 <= i < r.len() && #[trigger] r[i]@ == p,
    {
        let mut r: Vec<String> = Vec::new();
        let mut i: usize = 0;
        while i < self.files.len()
            invariant
                i <= self.files.len(),
                r.len() == i,
                forall|j: int| 0 <= j < i ==> r[j]@ == self.files[j].path@,
            decreases self.files.len() - i,
        {
            r.push(self.files[i].path.clone());
            i += 1;
        }
        proof {
            assert forall|p: Seq<char>| self@.files.contains_key(p) <==> exists|i: int|
                0 <= i < r.len() && #[trigger] r[i]@ == p by {
                lemma_files_of_dom(self.files@, p);
                if self@.files.contains_key(p) {
                    let i = choose|i: int|
                        0 <= i < self.files.len() && #[trigger] self.files[i].path@ == p;
                    assert(r[i]@ == p);
                }
                if exists|i: int| 0 <= i < r.len() && #[trigger] r[i]@ == p {
                    let i = choose|i: int| 0 <= i < r.len() && #[trigger] r[i]@ == p;
                    assert(self.files[i].path@ == p);
                }
            }
        }
        r
    }
}

} // verus!
