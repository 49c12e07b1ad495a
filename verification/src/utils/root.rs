//! The composition root as a text: where declarations, routes and
//! middleware go, and that a patch keeps what was there.
use crate::utils::manifest::is_line;
use crate::utils::text::{
    chars_of, contains, extend_range, extend_str, find, find_from, find_in, lemma_find_from,
    lemma_occurrence_is_found, lemma_rfind, lemma_splice, matches_at, occurs_at, rfind, rfind_in,
    splice, splice_in, string_of,
};
use vstd::prelude::*;

verus! {

/// How a patch of the composition root ended.
#[derive(Clone, Copy, Debug, PartialEq, Eq, Structural)]
pub enum Patch {
    /// The text was put in.
    Applied,
    /// The root held the text already, and stays as it was.
    AlreadyPresent,
    /// The marker that tells where the text goes was not found, and the
    /// root stays as it was.
    AnchorMissing,
}

/// What a patch decides for a root: to leave it, or to put one text in at
/// one place.
pub enum Plan {
    Keep(Patch),
    Insert(int, Seq<char>),
}

/// The root `content` once the plan is carried out. All that was in the
/// root stays, in its order: a text is only ever put in between.
pub open spec fn applied(content: Seq<char>, plan: Plan) -> Seq<char> {
    match plan {
        Plan::Keep(_) => content,
        Plan::Insert(at, text) => splice(content, at, text),
    }
}

/// How the plan ends.
pub open spec fn status(plan: Plan) -> Patch {
    match plan {
        Plan::Keep(s) => s,
        Plan::Insert(_, _) => Patch::Applied,
    }
}

/// A composition root after a patch, and how the patch ended.
pub struct Patched {
    pub text: String,
    pub status: Patch,
}

/// The declaration of the module `name` in the composition root.
pub open spec fn module_declaration(name: Seq<char>) -> Seq<char> {
    "mod "@ + name + ";"@
}

/// The line that nests the routes of the module `name` under `/name`.
pub open spec fn nest_line(name: Seq<char>) -> Seq<char> {
    "        .nest(\"/"@ + name + "\", "@ + name + "::routes())"@
}

/// The line that attaches the middleware function of `name`.
pub open spec fn layer_line(name: Seq<char>) -> Seq<char> {
    "    .layer(middleware::from_fn(middlewares::"@ + name + "_middleware))"@
}

/// Where a line `mod name;` ends that starts at the index `p` with its
/// line feed: behind the first `;` that follows `mod `, if neither a line
/// feed nor a `{` stands before that `;`. Where no such line starts at
/// `p` there is no end.
pub open spec fn module_line_end(content: Seq<char>, p: int) -> Option<int> {
    if occurs_at(content, "\nmod "@, p) {
        match find_from(content, ";"@, p + 5) {
            Some(q) => if p + 5 <= q < content.len() && (forall|k: int|
                p + 5 <= k < q ==> content[k] != '\n' && content[k] != '{') {
                Some(q + 1)
            } else {
                None
            },
            None => None,
        }
    } else {
        None
    }
}

/// The index behind the lines `mod name;` that follow the index `p`
/// directly, one after the other; `p` itself where none does.
pub open spec fn behind_modules(content: Seq<char>, p: int) -> int
    decreases content.len() - p,
{
    match module_line_end(content, p) {
        Some(q) => behind_modules(content, q),
        None => p,
    }
}

/// Where the declaration of the module `name` goes: nowhere if the root
/// holds it; else on a line of its own behind the `;` that ends the last
/// `use `, and behind the lines `mod name;` that follow that `;`
/// directly, so that the declarations stand in the order in which they
/// came; before everything else where the root has no `use `; and
/// nowhere where no `;` ends the last `use `. A `mod ` elsewhere in the
/// root tells nothing.
pub open spec fn module_plan(content: Seq<char>, name: Seq<char>) -> Plan {
    let decl = module_declaration(name);
    if contains(content, decl) {
        Plan::Keep(Patch::AlreadyPresent)
    } else {
        match rfind(content, "use "@) {
            Some(u) => match find_from(content, ";"@, u) {
                Some(e) => Plan::Insert(behind_modules(content, e + 1), seq!['\n'] + decl),
                None => Plan::Keep(Patch::AnchorMissing),
            },
            None => Plan::Insert(0, decl + seq!['\n']),
        }
    }
}

/// Where the line that nests the routes of `name` goes: nowhere if the
/// root holds it; else on a line of its own before the first `;` that
/// follows the first `Router::new()`; and nowhere where either is missing.
pub open spec fn nest_plan(content: Seq<char>, name: Seq<char>) -> Plan {
    let line = nest_line(name);
    if contains(content, line) {
        Plan::Keep(Patch::AlreadyPresent)
    } else {
        match find(content, "Router::new()"@) {
            Some(r) => match find_from(content, ";"@, r) {
                Some(e) => Plan::Insert(e, seq!['\n'] + line),
                None => Plan::Keep(Patch::AnchorMissing),
            },
            None => Plan::Keep(Patch::AnchorMissing),
        }
    }
}

/// Where the line that attaches the middleware of `name` goes: nowhere if
/// the root holds it; else on a line of its own right behind the first
/// `Router::new()`; and nowhere where the root has none.
pub open spec fn layer_plan(content: Seq<char>, name: Seq<char>) -> Plan {
    let line = layer_line(name);
    if contains(content, line) {
        Plan::Keep(Patch::AlreadyPresent)
    } else {
        match find(content, "Router::new()"@) {
            Some(r) => Plan::Insert(r + "Router::new()"@.len(), seq!['\n'] + line),
            None => Plan::Keep(Patch::AnchorMissing),
        }
    }
}

/// `behind_modules` stays in the root, goes on only, and stands behind a
/// `;` if it started behind one.
pub proof fn lemma_behind_modules(content: Seq<char>, p: int)
    requires
        0 <= p <= content.len(),
    ensures
        p <= behind_modules(content, p) <= content.len(),
        p > 0 && content[p - 1] == ';' ==> content[behind_modules(content, p) - 1] == ';',
    decreases content.len() - p,
{
    match module_line_end(content, p) {
        Some(q) => {
            lemma_find_from(content, ";"@, p + 5);
            lemma_terminator_at(content, q - 1);
            lemma_behind_modules(content, q);
        },
        None => {},
    }
}

/// Whether the plan puts its text in at a place that the root has.
pub open spec fn in_bounds(content: Seq<char>, plan: Plan) -> bool {
    plan matches Plan::Insert(at, _) ==> 0 <= at <= content.len()
}

/// The three patches put their text in at a place that the root has.
pub proof fn lemma_plans_in_bounds(content: Seq<char>, name: Seq<char>)
    ensures
        in_bounds(content, module_plan(content, name)),
        in_bounds(content, nest_plan(content, name)),
        in_bounds(content, layer_plan(content, name)),
{
    reveal_strlit(";");
    lemma_rfind(content, "use "@);
    match rfind(content, "use "@) {
        Some(u) => {
            lemma_find_from(content, ";"@, u);
            match find_from(content, ";"@, u) {
                Some(e) => {
                    lemma_behind_modules(content, e + 1);
                },
                None => {},
            }
        },
        None => {},
    }
    lemma_find_from(content, "Router::new()"@, 0);
    match find(content, "Router::new()"@) {
        Some(r) => {
            lemma_find_from(content, ";"@, r);
        },
        None => {},
    }
}

/// Whether the plan keeps the text of the root: the patched root is the
/// root itself, or the root with the one text of the plan put in at one
/// place, all that stood before that place still before it and all that
/// stood behind it still behind it, character by character.
pub open spec fn keeps_the_text(content: Seq<char>, plan: Plan) -> bool {
    match plan {
        Plan::Keep(_) => applied(content, plan) == content,
        Plan::Insert(at, text) => {
            let patched = applied(content, plan);
            &&& 0 <= at <= content.len()
            &&& patched.len() == content.len() + text.len()
            &&& patched.subrange(0, at) == content.subrange(0, at)
            &&& patched.subrange(at, at + text.len()) == text
            &&& patched.subrange(at + text.len(), patched.len() as int) == content.subrange(
                at,
                content.len() as int,
            )
        },
    }
}

/// Whether the plan keeps the line `content[i..j]` of the root: a line
/// that ends before the place where the text is put in is still that
/// line, and a line that starts behind that place is still that line,
/// further down by the length of the text. Of the line at that place the
/// plan says nothing: it is parted by what comes in.
pub open spec fn keeps_the_line(content: Seq<char>, plan: Plan, i: int, j: int) -> bool {
    match plan {
        Plan::Keep(_) => is_line(applied(content, plan), i, j),
        Plan::Insert(at, text) => {
            let patched = applied(content, plan);
            &&& j < at ==> is_line(patched, i, j) && patched.subrange(i, j) == content.subrange(
                i,
                j,
            )
            &&& at < i ==> is_line(patched, i + text.len(), j + text.len()) && patched.subrange(
                i + text.len(),
                j + text.len(),
            ) == content.subrange(i, j)
        },
    }
}

/// A plan that puts its text in at a place that the root has keeps the
/// text of the root.
pub proof fn lemma_plan_keeps_the_text(content: Seq<char>, plan: Plan)
    requires
        in_bounds(content, plan),
    ensures
        keeps_the_text(content, plan),
{
    match plan {
        Plan::Keep(_) => {},
        Plan::Insert(at, text) => {
            lemma_splice(content, at, text);
        },
    }
}

/// A plan that puts its text in at a place that the root has keeps the
/// lines of the root.
pub proof fn lemma_plan_keeps_the_line(content: Seq<char>, plan: Plan, i: int, j: int)
    requires
        in_bounds(content, plan),
        is_line(content, i, j),
    ensures
        keeps_the_line(content, plan, i, j),
{
    match plan {
        Plan::Keep(_) => {},
        Plan::Insert(at, text) => {
            let patched = applied(content, plan);
            let n = text.len() as int;
            lemma_splice(content, at, text);
            if j < at {
                assert(patched.subrange(i, j) =~= content.subrange(i, j));
            }
            if at < i {
                assert(patched[i + n - 1] == content[i - 1]);
                assert forall|k: int| i + n <= k < j + n implies patched[k] != '\n' by {
                    assert(patched[(k - n) + n] == content[k - n]);
                }
                if j < content.len() {
                    assert(patched[j + n] == content[j]);
                }
                assert(patched.subrange(i + n, j + n) =~= content.subrange(i, j)) by {
                    assert forall|k: int| 0 <= k < j - i implies patched.subrange(i + n, j + n)[k]
                        == content.subrange(i, j)[k] by {
                        assert(patched[(i + k) + n] == content[i + k]);
                    }
                }
            }
        },
    }
}

/// No patch of the composition root deletes or reorders what the root
/// held: whatever the root and the name, each of the three patches
/// leaves the root as it is or puts its one text in at one place, and all
/// that the root held stands around that place as it stood.
pub proof fn lemma_patches_keep_the_text(content: Seq<char>, name: Seq<char>)
    ensures
        keeps_the_text(content, module_plan(content, name)),
        keeps_the_text(content, nest_plan(content, name)),
        keeps_the_text(content, layer_plan(content, name)),
{
    lemma_plans_in_bounds(content, name);
    lemma_plan_keeps_the_text(content, module_plan(content, name));
    lemma_plan_keeps_the_text(content, nest_plan(content, name));
    lemma_plan_keeps_the_text(content, layer_plan(content, name));
}

/// No patch of the composition root deletes or reorders the lines of the
/// root: whatever the root and the name, every line of the root but the
/// one at the place of the patch is a line of the patched root, with the
/// same text, before or behind what was put in as it stood before or
/// behind that place.
pub proof fn lemma_patches_keep_the_lines(content: Seq<char>, name: Seq<char>, i: int, j: int)
    requires
        is_line(content, i, j),
    ensures
        keeps_the_line(content, module_plan(content, name), i, j),
        keeps_the_line(content, nest_plan(content, name), i, j),
        keeps_the_line(content, layer_plan(content, name), i, j),
{
    lemma_plans_in_bounds(content, name);
    lemma_plan_keeps_the_line(content, module_plan(content, name), i, j);
    lemma_plan_keeps_the_line(content, nest_plan(content, name), i, j);
    lemma_plan_keeps_the_line(content, layer_plan(content, name), i, j);
}

/// Once a text is put in on a line of its own, the root holds it.
pub proof fn lemma_inserted_is_held(content: Seq<char>, at: int, line: Seq<char>)
    requires
        0 <= at <= content.len(),
    ensures
        contains(splice(content, at, seq!['\n'] + line), line),
        contains(splice(content, at, line + seq!['\n']), line),
{
    let a = splice(content, at, seq!['\n'] + line);
    lemma_splice(content, at, seq!['\n'] + line);
    assert(a.subrange(at + 1, at + 1 + line.len()) =~= a.subrange(
        at,
        at + 1 + line.len(),
    ).subrange(1, 1 + line.len() as int));
    assert((seq!['\n'] + line).subrange(1, 1 + line.len() as int) =~= line);
    assert(occurs_at(a, line, at + 1));
    lemma_occurrence_is_found(a, line, at + 1);
    let b = splice(content, at, line + seq!['\n']);
    lemma_splice(content, at, line + seq!['\n']);
    assert(b.subrange(at, at + line.len()) =~= b.subrange(at, at + line.len() + 1).subrange(
        0,
        line.len() as int,
    ));
    assert((line + seq!['\n']).subrange(0, line.len() as int) =~= line);
    assert(occurs_at(b, line, at));
    lemma_occurrence_is_found(b, line, at);
}

/// A patch that is not left out takes hold: unless its marker is missing,
/// the patched root holds the text of the patch.
pub proof fn lemma_patch_takes_hold(content: Seq<char>, name: Seq<char>)
    ensures
        status(module_plan(content, name)) != Patch::AnchorMissing ==> contains(
            applied(content, module_plan(content, name)),
            module_declaration(name),
        ),
        status(nest_plan(content, name)) != Patch::AnchorMissing ==> contains(
            applied(content, nest_plan(content, name)),
            nest_line(name),
        ),
        status(layer_plan(content, name)) != Patch::AnchorMissing ==> contains(
            applied(content, layer_plan(content, name)),
            layer_line(name),
        ),
{
    lemma_plans_in_bounds(content, name);
    match module_plan(content, name) {
        Plan::Insert(at, _) => {
            lemma_inserted_is_held(content, at, module_declaration(name));
        },
        _ => {},
    }
    match nest_plan(content, name) {
        Plan::Insert(at, _) => {
            lemma_inserted_is_held(content, at, nest_line(name));
        },
        _ => {},
    }
    match layer_plan(content, name) {
        Plan::Insert(at, _) => {
            lemma_inserted_is_held(content, at, layer_line(name));
        },
        _ => {},
    }
}

/// Each patch, made a second time, changes nothing: a root that was
/// patched holds the text, and a root that holds the text is left alone.
pub proof fn lemma_patch_twice(content: Seq<char>, name: Seq<char>)
    ensures
        ({
            let once = applied(content, module_plan(content, name));
            applied(once, module_plan(once, name)) == once
        }),
        ({
            let once = applied(content, nest_plan(content, name));
            applied(once, nest_plan(once, name)) == once
        }),
        ({
            let once = applied(content, layer_plan(content, name));
            applied(once, layer_plan(once, name)) == once
        }),
{
    lemma_patch_takes_hold(content, name);
}

/// Where the declaration of a module goes, in every root that does not
/// hold it: before everything else where the root has no `use `; and
/// else on a line of its own behind a `;`, which is the `;` that ends the
/// last `use ` unless lines `mod name;` follow that `;` directly.
pub proof fn lemma_module_patch_place(content: Seq<char>, name: Seq<char>)
    ensures
        module_plan(content, name) matches Plan::Insert(at, text) ==> match rfind(
            content,
            "use "@,
        ) {
            None => at == 0 && text == module_declaration(name) + seq!['\n'],
            Some(u) => {
                let e = find_from(content, ";"@, u)->0;
                &&& find_from(content, ";"@, u) is Some
                &&& u + 4 <= e < at <= content.len()
                &&& content[e] == ';'
                &&& content[at - 1] == ';'
                &&& module_line_end(content, e + 1) is None ==> at == e + 1
                &&& text == seq!['\n'] + module_declaration(name)
            },
        },
        keeps_the_text(content, module_plan(content, name)),
{
    reveal_strlit("use ");
    lemma_patches_keep_the_text(content, name);
    lemma_rfind(content, "use "@);
    match rfind(content, "use "@) {
        Some(u) => {
            lemma_find_from(content, ";"@, u);
            match find_from(content, ";"@, u) {
                Some(e) => {
                    lemma_terminator_at(content, e);
                    lemma_behind_modules(content, e + 1);
                    if e < u + 4 {
                        assert(content.subrange(u, u + 4)[e - u] == content[e]);
                        assert(false);
                    }
                },
                None => {},
            }
        },
        None => {},
    }
}

/// Where the patches of the chain put their lines, in every root: the
/// line that nests the routes stands before the first `;` behind the
/// first `Router::new()`, with that `;` right behind it; the line that
/// attaches a middleware stands right behind the first `Router::new()`;
/// the first `Router::new()` is where it was; and what followed the place
/// of the line follows the line, unchanged.
pub proof fn lemma_chain_patches_place(content: Seq<char>, name: Seq<char>)
    ensures
        nest_plan(content, name) matches Plan::Insert(q, text) ==> {
            let patched = applied(content, nest_plan(content, name));
            &&& text == seq!['\n'] + nest_line(name)
            &&& find(content, "Router::new()"@) is Some
            &&& find(patched, "Router::new()"@) == find(content, "Router::new()"@)
            &&& find(content, "Router::new()"@)->0 + 13 <= q < content.len()
            &&& content[q] == ';'
            &&& forall|k: int|
                find(content, "Router::new()"@)->0 <= k < q ==> content[k] != ';'
            &&& patched.subrange(0, q) == content.subrange(0, q)
            &&& patched.subrange(q, q + text.len()) == text
            &&& patched.subrange(q + text.len(), patched.len() as int) == content.subrange(
                q,
                content.len() as int,
            )
        },
        layer_plan(content, name) matches Plan::Insert(at, text) ==> {
            let patched = applied(content, layer_plan(content, name));
            &&& text == seq!['\n'] + layer_line(name)
            &&& find(content, "Router::new()"@) is Some
            &&& find(patched, "Router::new()"@) == find(content, "Router::new()"@)
            &&& at == find(content, "Router::new()"@)->0 + 13
            &&& patched.subrange(0, at) == content.subrange(0, at)
            &&& patched.subrange(at, at + text.len()) == text
            &&& patched.subrange(at + text.len(), patched.len() as int) == content.subrange(
                at,
                content.len() as int,
            )
        },
{
    reveal_strlit("Router::new()");
    let chain = "Router::new()"@;
    lemma_plans_in_bounds(content, name);
    lemma_find_from(content, chain, 0);
    if find(content, chain) is Some {
        let r = find(content, chain)->0;
        lemma_find_from(content, ";"@, r);
        match nest_plan(content, name) {
            Plan::Insert(q, text) => {
                lemma_terminator_at(content, q);
                if q < r + 13 {
                    assert(content.subrange(r, r + 13)[q - r] == content[q]);
                    assert(false);
                }
                assert forall|k: int| r <= k < q implies content[k] != ';' by {
                    lemma_terminator_at(content, k);
                }
                lemma_first_chain_stays(content, q, text);
            },
            _ => {},
        }
        match layer_plan(content, name) {
            Plan::Insert(at, text) => {
                lemma_first_chain_stays(content, at, text);
            },
            _ => {},
        }
    }
}

/// The first `Router::new()` of a root is where it was once a text is
/// put in behind it.
proof fn lemma_first_chain_stays(content: Seq<char>, at: int, text: Seq<char>)
    requires
        find(content, "Router::new()"@) is Some,
        find(content, "Router::new()"@)->0 + 13 <= at <= content.len(),
    ensures
        find(splice(content, at, text), "Router::new()"@) == find(content, "Router::new()"@),
        keeps_the_text(content, Plan::Insert(at, text)),
{
    reveal_strlit("Router::new()");
    let chain = "Router::new()"@;
    let patched = splice(content, at, text);
    let r = find(content, chain)->0;
    lemma_find_from(content, chain, 0);
    lemma_splice(content, at, text);
    lemma_splice_keeps_occurrence(content, at, text, chain, r);
    lemma_find_from(patched, chain, 0);
    let j = find(patched, chain)->0;
    if j < r {
        assert(patched.subrange(j, j + 13) =~= content.subrange(j, j + 13));
        assert(occurs_at(content, chain, j));
        assert(false);
    }
}

/// A line that is put in at the end of a line stands on a line of its
/// own and parts no line: where the place of a patch is the end of the
/// root or a line feed, and the line that is put in is not empty and has
/// no line feed,
/// the line is a line of the patched root, and every line of the root is
/// a line of the patched root, with the same text, before the new line
/// or behind it as it stood before or behind the place.
pub proof fn lemma_line_put_in(content: Seq<char>, at: int, line: Seq<char>, i: int, j: int)
    requires
        0 <= at <= content.len(),
        at == content.len() || content[at] == '\n',
        line.len() > 0,
        forall|k: int| 0 <= k < line.len() ==> line[k] != '\n',
    ensures
        is_line(splice(content, at, seq!['\n'] + line), at + 1, at + 1 + line.len()),
        splice(content, at, seq!['\n'] + line).subrange(at + 1, at + 1 + line.len()) == line,
        is_line(content, i, j) ==> j <= at || at < i,
        is_line(content, i, j) ==> keeps_the_line(
            content,
            Plan::Insert(at, seq!['\n'] + line),
            i,
            j,
        ),
        is_line(content, i, j) && j == at ==> is_line(
            splice(content, at, seq!['\n'] + line),
            i,
            j,
        ) && splice(content, at, seq!['\n'] + line).subrange(i, j) == content.subrange(i, j),
{
    let text = seq!['\n'] + line;
    let n = text.len() as int;
    let patched = splice(content, at, text);
    lemma_splice(content, at, text);
    assert(patched.subrange(at, at + n)[0] == text[0]);
    assert(patched[at] == '\n');
    assert forall|k: int| at + 1 <= k < at + n implies patched[k] != '\n' by {
        assert(patched.subrange(at, at + n)[k - at] == text[k - at]);
        assert(text[k - at] == line[k - at - 1]);
    }
    if at < content.len() {
        assert(patched[at + n] == content[at]);
    }
    assert(patched.subrange(at + 1, at + 1 + line.len()) =~= line) by {
        assert(patched.subrange(at + 1, at + n) =~= patched.subrange(at, at + n).subrange(1, n));
        assert(text.subrange(1, n) =~= line);
    }
    if is_line(content, i, j) {
        lemma_plan_keeps_the_line(content, Plan::Insert(at, text), i, j);
        if j == at {
            assert(patched.subrange(i, j) =~= content.subrange(i, j));
            if i > 0 {
                assert(patched[i - 1] == content[i - 1]);
            }
            assert forall|k: int| i <= k < j implies patched[k] != '\n' by {
                assert(patched[k] == content[k]);
            }
        }
    }
}

/// Whether the text has no character `c` in it.
pub open spec fn has_no(s: Seq<char>, c: char) -> bool {
    forall|k: int| 0 <= k < s.len() ==> s[k] != c
}

/// Whether the name is plain enough for the wiring of a module: it holds
/// no `;` and no `Router::new()`.
pub open spec fn plain(name: Seq<char>) -> bool {
    has_no(name, ';') && !contains(name, "Router::new()"@)
}

/// Whether the declaration of the module `name`, where the root holds
/// it, stands before the start of the chain, where the root has one.
pub open spec fn declared_before_chain(content: Seq<char>, name: Seq<char>) -> bool {
    contains(content, module_declaration(name)) ==> match find(content, "Router::new()"@) {
        Some(r) => exists|i: int|
            occurs_at(content, module_declaration(name), i) && i + module_declaration(name).len()
                <= r,
        None => true,
    }
}

/// A `;` stands at an index exactly where the character there is `;`.
pub proof fn lemma_terminator_at(s: Seq<char>, j: int)
    ensures
        occurs_at(s, ";"@, j) <==> 0 <= j < s.len() && s[j] == ';',
{
    reveal_strlit(";");
    if 0 <= j < s.len() {
        assert(s.subrange(j, j + 1)[0] == s[j]);
        if s[j] == ';' {
            assert(s.subrange(j, j + 1) =~= ";"@);
        }
    }
}

/// What stands in a text clear of the place where another text is put
/// in, the text holds afterwards: where it stood, or further down by the
/// length of what came in.
pub proof fn lemma_splice_keeps_occurrence(
    s: Seq<char>,
    at: int,
    ins: Seq<char>,
    pat: Seq<char>,
    i: int,
)
    requires
        0 <= at <= s.len(),
        occurs_at(s, pat, i),
        i + pat.len() <= at || at <= i,
    ensures
        i + pat.len() <= at ==> occurs_at(splice(s, at, ins), pat, i),
        at <= i ==> occurs_at(splice(s, at, ins), pat, i + ins.len()),
        contains(splice(s, at, ins), pat),
{
    let r = splice(s, at, ins);
    lemma_splice(s, at, ins);
    if i + pat.len() <= at {
        assert(r.subrange(i, i + pat.len()) =~= s.subrange(i, i + pat.len()));
        lemma_occurrence_is_found(r, pat, i);
    }
    if at <= i {
        let n = ins.len() as int;
        assert(r.subrange(i + n, i + n + pat.len()) =~= s.subrange(i, i + pat.len())) by {
            assert forall|k: int| 0 <= k < pat.len() implies #[trigger] r.subrange(
                i + n,
                i + n + pat.len(),
            )[k] == s.subrange(i, i + pat.len())[k] by {
                assert(r[(i + k) + n] == s[i + k]);
            }
        }
        lemma_occurrence_is_found(r, pat, i + n);
    }
}

/// An anchor that is missing stays missing: where no `;` follows the
/// last `use ` of a root, none follows the last `use ` of the root with
/// a text put in before that `use `, or behind it if the text holds no
/// `;`.
pub proof fn lemma_anchor_stays_missing(content: Seq<char>, at: int, ins: Seq<char>)
    requires
        rfind(content, "use "@) is Some,
        find_from(content, ";"@, rfind(content, "use "@)->0) is None,
        0 <= at <= content.len(),
        at <= rfind(content, "use "@)->0 || (at >= rfind(content, "use "@)->0 + 4 && has_no(
            ins,
            ';',
        )),
    ensures
        rfind(splice(content, at, ins), "use "@) is Some,
        find_from(
            splice(content, at, ins),
            ";"@,
            rfind(splice(content, at, ins), "use "@)->0,
        ) is None,
{
    reveal_strlit("use ");
    let u = rfind(content, "use "@)->0;
    let n = ins.len() as int;
    let patched = splice(content, at, ins);
    lemma_rfind(content, "use "@);
    lemma_find_from(content, ";"@, u);
    lemma_splice(content, at, ins);
    let stays = if at <= u {
        u + n
    } else {
        u
    };
    lemma_splice_keeps_occurrence(content, at, ins, "use "@, u);
    assert(occurs_at(patched, "use "@, stays));
    lemma_rfind(patched, "use "@);
    let v = rfind(patched, "use "@)->0;
    assert(v >= stays);
    lemma_find_from(patched, ";"@, v);
    if find_from(patched, ";"@, v) is Some {
        let j = find_from(patched, ";"@, v)->0;
        lemma_terminator_at(patched, j);
        if j < at {
            assert(patched[j] == content[j]);
            lemma_terminator_at(content, j);
        } else if j < at + n {
            assert(patched.subrange(at, at + n)[j - at] == ins[j - at]);
        } else {
            assert(patched[(j - n) + n] == content[j - n]);
            lemma_terminator_at(content, j - n);
        }
        assert(false);
    }
}

/// The line that nests the routes is never put into a declaration that
/// stands at the start of the root or on a line of its own behind a `;`:
/// the first `;` behind the start of the chain is not inside the
/// declaration, if the name is plain.
pub proof fn lemma_declaration_is_not_parted(
    content: Seq<char>,
    name: Seq<char>,
    i: int,
    r: int,
    q: int,
)
    requires
        plain(name),
        occurs_at(content, module_declaration(name), i),
        i == 0 || (i >= 2 && content[i - 2] == ';' && content[i - 1] == '\n'),
        occurs_at(content, "Router::new()"@, r),
        r <= q,
        occurs_at(content, ";"@, q),
        forall|j: int| r <= j < q ==> !occurs_at(content, ";"@, j),
    ensures
        q <= i || i + module_declaration(name).len() <= q,
{
    reveal_strlit("mod ");
    reveal_strlit(";");
    reveal_strlit("Router::new()");
    let d = module_declaration(name);
    let chain = "Router::new()"@;
    let len = d.len() as int;
    lemma_terminator_at(content, q);
    if i < q < i + len {
        assert forall|k: int| 0 <= k < len implies content[i + k] == #[trigger] d[k] by {
            assert(content.subrange(i, i + len)[k] == content[i + k]);
        }
        assert forall|k: int| 0 <= k < 13 implies content[r + k] == #[trigger] chain[k] by {
            assert(content.subrange(r, r + 13)[k] == content[r + k]);
        }
        if q < i + len - 1 {
            let k = q - i;
            assert(content[i + k] == d[k]);
            if k >= 4 {
                assert(d[k] == name[k - 4]);
            }
            assert(false);
        }
        if r <= q < r + 13 {
            assert(content[r + (q - r)] == chain[q - r]);
            assert(false);
        }
        if i >= 2 && r <= i - 2 {
            lemma_terminator_at(content, i - 2);
            assert(false);
        }
        if i >= 2 && r == i - 1 {
            assert(content[r + 0] == chain[0]);
            assert(false);
        }
        assert(r >= i);
        if r < i + 4 {
            assert(content[r + 0] == chain[0]);
            assert(content[i + (r - i)] == d[r - i]);
            assert(false);
        }
        assert(name.subrange(r - i - 4, r - i - 4 + 13) =~= chain) by {
            assert forall|k: int| 0 <= k < 13 implies name.subrange(r - i - 4, r - i - 4 + 13)[k]
                == chain[k] by {
                assert(content[r + k] == chain[k]);
                assert(content[i + (r - i + k)] == d[r - i + k]);
                assert(d[r - i + k] == name[r - i + k - 4]);
            }
        }
        lemma_occurrence_is_found(name, chain, r - i - 4);
        assert(false);
    }
}

/// The root as it is, with the status `status`.
fn kept(chars: &Vec<char>, status: Patch) -> (r: Patched)
    ensures
        r.text@ == chars@,
        r.status == status,
{
    Patched { text: string_of(chars), status }
}

/// The root with `text` put in before the index `at`.
fn inserted(chars: &Vec<char>, at: usize, text: &Vec<char>) -> (r: Patched)
    requires
        at <= chars.len(),
    ensures
        r.text@ == splice(chars@, at as int, text@),
        r.status == Patch::Applied,
{
    Patched { text: string_of(&splice_in(chars, at, text)), status: Patch::Applied }
}

/// A line feed and then `line`.
fn on_new_line(line: &Vec<char>) -> (r: Vec<char>)
    ensures
        r@ == seq!['\n'] + line@,
{
    let mut r: Vec<char> = Vec::new();
    r.push('\n');
    extend_range(&mut r, line, 0, line.len());
    assert(r@ =~= seq!['\n'] + line@);
    r
}

/// Where the line `mod name;` ends that starts at `p` with its line
/// feed, if one does.
fn module_line_end_in(chars: &Vec<char>, p: usize) -> (r: Option<usize>)
    ensures
        match r {
            Some(q) => p < q <= chars.len() && module_line_end(chars@, p as int) == Some(
                q as int,
            ),
            None => module_line_end(chars@, p as int) is None,
        },
{
    let start = chars_of("\nmod ");
    proof {
        reveal_strlit("\nmod ");
    }
    assert(start@.len() == 5);
    if !matches_at(chars, &start, p) {
        return None;
    }
    assert(occurs_at(chars@, "\nmod "@, p as int));
    assert(p + 5 <= chars.len());
    match find_in(chars, &chars_of(";"), p + 5) {
        Some(q) => {
            proof {
                reveal_strlit(";");
            }
            let mut k: usize = p + 5;
            while k < q
                invariant
                    p + 5 <= k <= q < chars.len(),
                    occurs_at(chars@, "\nmod "@, p as int),
                    find_from(chars@, ";"@, p + 5) == Some(q as int),
                    forall|j: int| p + 5 <= j < k ==> chars[j] != '\n' && chars[j] != '{',
                decreases q - k,
            {
                if chars[k] == '\n' || chars[k] == '{' {
                    return None;
                }
                k += 1;
            }
            Some(q + 1)
        },
        None => None,
    }
}

/// The index behind the lines `mod name;` that follow `p` directly.
fn behind_modules_in(chars: &Vec<char>, p: usize) -> (r: usize)
    requires
        p <= chars.len(),
    ensures
        r == behind_modules(chars@, p as int),
        p <= r <= chars.len(),
{
    let mut at: usize = p;
    loop
        invariant
            p <= at <= chars.len(),
            behind_modules(chars@, p as int) == behind_modules(chars@, at as int),
        decreases chars.len() - at,
    {
        match module_line_end_in(chars, at) {
            Some(q) => {
                at = q;
            },
            None => {
                return at;
            },
        }
    }
}

/// Declares the module `name` in the composition root `content`, once.
pub fn ensure_module_registered(content: &str, name: &str) -> (r: Patched)
    ensures
        r.text@ == applied(content@, module_plan(content@, name@)),
        r.status == status(module_plan(content@, name@)),
{
    let chars = chars_of(content);
    let mut decl: Vec<char> = Vec::new();
    extend_str(&mut decl, "mod ");
    extend_str(&mut decl, name);
    extend_str(&mut decl, ";");
    assert(decl@ =~= module_declaration(name@));
    if find_in(&chars, &decl, 0).is_some() {
        return kept(&chars, Patch::AlreadyPresent);
    }
    match rfind_in(&chars, &chars_of("use ")) {
        Some(u) => match find_in(&chars, &chars_of(";"), u) {
            Some(e) => {
                proof {
                    reveal_strlit(";");
                }
                let at = behind_modules_in(&chars, e + 1);
                inserted(&chars, at, &on_new_line(&decl))
            },
            None => kept(&chars, Patch::AnchorMissing),
        },
        None => {
            decl.push('\n');
            assert(decl@ =~= module_declaration(name@) + seq!['\n']);
            inserted(&chars, 0, &decl)
        },
    }
}

/// Nests the routes of the module `name` in the composition root
/// `content`, once.
pub fn ensure_route_nested(content: &str, name: &str) -> (r: Patched)
    ensures
        r.text@ == applied(content@, nest_plan(content@, name@)),
        r.status == status(nest_plan(content@, name@)),
{
    let chars = chars_of(content);
    let mut line: Vec<char> = Vec::new();
    extend_str(&mut line, "        .nest(\"/");
    extend_str(&mut line, name);
    extend_str(&mut line, "\", ");
    extend_str(&mut line, name);
    extend_str(&mut line, "::routes())");
    assert(line@ =~= nest_line(name@));
    if find_in(&chars, &line, 0).is_some() {
        return kept(&chars, Patch::AlreadyPresent);
    }
    match find_in(&chars, &chars_of("Router::new()"), 0) {
        Some(start) => match find_in(&chars, &chars_of(";"), start) {
            Some(e) => inserted(&chars, e, &on_new_line(&line)),
            None => kept(&chars, Patch::AnchorMissing),
        },
        None => kept(&chars, Patch::AnchorMissing),
    }
}

/// Attaches the middleware function of `name` in the composition root
/// `content`, once.
pub fn ensure_middleware_registered(content: &str, name: &str) -> (r: Patched)
    ensures
        r.text@ == applied(content@, layer_plan(content@, name@)),
        r.status == status(layer_plan(content@, name@)),
{
    let chars = chars_of(content);
    let mut line: Vec<char> = Vec::new();
    extend_str(&mut line, "    .layer(middleware::from_fn(middlewares::");
    extend_str(&mut line, name);
    extend_str(&mut line, "_middleware))");
    assert(line@ =~= layer_line(name@));
    if find_in(&chars, &line, 0).is_some() {
        return kept(&chars, Patch::AlreadyPresent);
    }
    let token = chars_of("Router::new()");
    match find_in(&chars, &token, 0) {
        Some(start) => inserted(&chars, start + token.len(), &on_new_line(&line)),
        None => kept(&chars, Patch::AnchorMissing),
    }
}

} // verus!
