//! Where an artifact goes in the tree.
use crate::utils::manifest::one_line;
use crate::utils::tree::{flat, join, join_path};
use vstd::prelude::*;

verus! {

/// The kinds of artifact.
#[derive(Clone, Copy, Debug, PartialEq, Eq, Structural)]
pub enum Kind {
    Controller,
    Service,
    Dto,
    Entity,
    Middleware,
}

/// Where an artifact lives: in a directory of its own under the working
/// directory, or inside the directory of its module under `src`.
#[derive(Clone, Copy, Debug, PartialEq, Eq, Structural)]
pub enum Layout {
    Standalone,
    Nested,
}

/// Where an artifact goes.
pub struct TargetPath {
    /// The directory of the module.
    pub module_dir: String,
    /// The directory that holds the file: the module's, or one below it.
    pub dir: String,
    /// The name under which the file is declared in its manifest.
    pub stem: String,
    /// The path of the file.
    pub file: String,
}

/// Where an artifact goes, in specifications.
pub struct Target {
    pub module_dir: Seq<char>,
    pub dir: Seq<char>,
    pub stem: Seq<char>,
    pub file: Seq<char>,
}

impl View for TargetPath {
    type V = Target;

    open spec fn view(&self) -> Target {
        Target {
            module_dir: self.module_dir@,
            dir: self.dir@,
            stem: self.stem@,
            file: self.file@,
        }
    }
}

/// What the file of an artifact of the kind `kind` has behind the name.
pub open spec fn suffix(kind: Kind) -> Seq<char> {
    match kind {
        Kind::Controller => "_controller"@,
        Kind::Service => "_service"@,
        Kind::Dto => "_dto"@,
        Kind::Entity => "_entity"@,
        Kind::Middleware => "_middleware"@,
    }
}

/// The directory below the module's in which an artifact of the kind
/// `kind` lives, where it has one: data-transfer objects and entities of a
/// module have.
pub open spec fn subdir(kind: Kind, layout: Layout) -> Option<Seq<char>> {
    match (layout, kind) {
        (Layout::Nested, Kind::Dto) => Some("dto"@),
        (Layout::Nested, Kind::Entity) => Some("entities"@),
        _ => None,
    }
}

/// The path of the file `stem.rs` in the directory `dir`.
pub open spec fn source_file(dir: Seq<char>, stem: Seq<char>) -> Seq<char> {
    join(dir, stem + ".rs"@)
}

/// Where the artifact of the kind `kind` named `name` goes. The
/// middleware functions of all names share the one file
/// `src/middlewares.rs`.
pub open spec fn target(kind: Kind, name: Seq<char>, layout: Layout) -> Target {
    if kind == Kind::Middleware {
        Target {
            module_dir: "src"@,
            dir: "src"@,
            stem: "middlewares"@,
            file: source_file("src"@, "middlewares"@),
        }
    } else {
        let module_dir = match layout {
            Layout::Standalone => name,
            Layout::Nested => join("src"@, name),
        };
        let dir = match subdir(kind, layout) {
            Some(sub) => join(module_dir, sub),
            None => module_dir,
        };
        let stem = name + suffix(kind);
        Target { module_dir, dir, stem, file: source_file(dir, stem) }
    }
}

/// How long the paths of an artifact are, and that what is put around
/// the name has no line feed in it.
pub proof fn lemma_target(kind: Kind, name: Seq<char>, layout: Layout)
    requires
        kind != Kind::Middleware,
    ensures
        ({
            let p = target(kind, name, layout);
            let sub = match subdir(kind, layout) {
                Some(s) => s.len() + 1,
                None => 0,
            };
            &&& p.module_dir.len() == name.len() + (if layout == Layout::Nested {
                4nat
            } else {
                0nat
            })
            &&& p.dir.len() == p.module_dir.len() + sub
            &&& p.stem.len() == name.len() + suffix(kind).len()
            &&& p.file.len() == p.dir.len() + p.stem.len() + 4
        }),
        suffix(kind).len() == match kind {
            Kind::Controller => 11nat,
            Kind::Service => 8nat,
            Kind::Dto => 4nat,
            Kind::Entity => 7nat,
            Kind::Middleware => 11nat,
        },
        subdir(kind, layout) matches Some(s) ==> s.len() == (if kind == Kind::Dto {
            3nat
        } else {
            8nat
        }) && one_line(s) && flat(s),
        forall|k: int| 0 <= k < suffix(kind).len() ==> suffix(kind)[k] != '\n',
{
    reveal_strlit("src");
    reveal_strlit(".rs");
    reveal_strlit("_controller");
    reveal_strlit("_service");
    reveal_strlit("_dto");
    reveal_strlit("_entity");
    reveal_strlit("dto");
    reveal_strlit("entities");
}

/// The character before the ending `.rs` of the file of an artifact: the
/// last one of what stands behind the name.
pub proof fn lemma_file_mark(kind: Kind, name: Seq<char>, layout: Layout)
    requires
        kind != Kind::Middleware,
    ensures
        target(kind, name, layout).file.len() >= 8,
        target(kind, name, layout).file[target(kind, name, layout).file.len() - 4] == match kind {
            Kind::Controller => 'r',
            Kind::Service => 'e',
            Kind::Dto => 'o',
            _ => 'y',
        },
{
    lemma_target(kind, name, layout);
    reveal_strlit(".rs");
    reveal_strlit("_controller");
    reveal_strlit("_service");
    reveal_strlit("_dto");
    reveal_strlit("_entity");
    let p = target(kind, name, layout);
    let n = p.file.len() as int;
    assert(p.file[n - 4] == (p.stem + ".rs"@)[p.stem.len() - 1]);
    assert(p.stem[p.stem.len() - 1] == suffix(kind)[suffix(kind).len() - 1]);
}

/// What is put around the name brings neither a line feed nor a `/`: the
/// name under which the file is declared is one line if the name is, and
/// the name of the file is one part of a path if the name is.
pub proof fn lemma_stem(kind: Kind, name: Seq<char>, layout: Layout)
    requires
        kind != Kind::Middleware,
    ensures
        one_line(name) ==> one_line(target(kind, name, layout).stem),
        flat(name) ==> flat(target(kind, name, layout).stem + ".rs"@),
{
    lemma_target(kind, name, layout);
    reveal_strlit(".rs");
    reveal_strlit("_controller");
    reveal_strlit("_service");
    reveal_strlit("_dto");
    reveal_strlit("_entity");
    let stem = target(kind, name, layout).stem;
    let file = stem + ".rs"@;
    if one_line(name) {
        assert forall|k: int| 0 <= k < stem.len() implies stem[k] != '\n' by {
            if k < name.len() {
                assert(stem[k] == name[k]);
            } else {
                assert(stem[k] == suffix(kind)[k - name.len()]);
            }
        }
    }
    if flat(name) {
        assert forall|k: int| 0 <= k < file.len() implies file[k] != '/' by {
            if k < name.len() {
                assert(file[k] == name[k]);
            } else if k < stem.len() {
                assert(file[k] == suffix(kind)[k - name.len()]);
            } else {
                assert(file[k] == ".rs"@[k - stem.len()]);
            }
        }
    }
}

/// The directory below the module's for the kind `kind`, if it has one.
pub fn subdir_of(kind: Kind, layout: Layout) -> (r: Option<String>)
    ensures
        match r {
            Some(s) => subdir(kind, layout) == Some(s@),
            None => subdir(kind, layout) is None,
        },
{
    match layout {
        Layout::Standalone => None,
        Layout::Nested => match kind {
            Kind::Dto => Some("dto".to_owned()),
            Kind::Entity => Some("entities".to_owned()),
            _ => None,
        },
    }
}

/// The path of the file `stem.rs` in the directory `dir`.
pub fn source_file_of(dir: &str, stem: &str) -> (r: String)
    ensures
        r@ == source_file(dir@, stem@),
{
    let mut file = stem.to_owned();
    file.append(".rs");
    join_path(dir, file.as_str())
}

/// Says where the artifact of the kind `kind` named `name` goes. Nothing
/// is made or looked up.
pub fn resolve(kind: Kind, name: &str, layout: Layout) -> (r: TargetPath)
    ensures
        r@ == target(kind, name@, layout),
{
    match kind {
        Kind::Middleware => {
            return TargetPath {
                module_dir: "src".to_owned(),
                dir: "src".to_owned(),
                stem: "middlewares".to_owned(),
                file: source_file_of("src", "middlewares"),
            };
        },
        _ => {},
    }
    let module_dir = match layout {
        Layout::Standalone => name.to_owned(),
        Layout::Nested => join_path("src", name),
    };
    let dir = match subdir_of(kind, layout) {
        Some(sub) => join_path(module_dir.as_str(), sub.as_str()),
        None => module_dir.clone(),
    };
    let mut stem = name.to_owned();
    match kind {
        Kind::Controller => stem.append("_controller"),
        Kind::Service => stem.append("_service"),
        Kind::Dto => stem.append("_dto"),
        Kind::Entity => stem.append("_entity"),
        Kind::Middleware => stem.append("_middleware"),
    }
    let file = source_file_of(dir.as_str(), stem.as_str());
    TargetPath { module_dir, dir, stem, file }
}

} // verus!
