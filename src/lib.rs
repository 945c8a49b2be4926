//! Finds software projects in a directory tree, classifies them by ecosystem
//! and framework, measures their build artifacts and plans their removal.
//!
//! The filesystem is read by the caller: this crate decides, from directory
//! listings and sizes handed to it, what is a project and what was reclaimed.
pub mod clean;
pub mod project;
pub mod utils;

use project::{
    first_marker, get_project, marker_base_type, project_of, Project, ProjectView, WalkedDir,
};
use utils::{content_names, ContentType};
use vstd::prelude::*;

verus! {

/// Why a scan could not be made.
#[derive(Debug, Clone)]
pub enum Error {
    /// The scan root could not be read; the message says why.
    Io(String),
}

/// The projects among `dirs`, in walk order.
pub open spec fn projects_in(dirs: Seq<WalkedDir>) -> Seq<ProjectView>
    decreases dirs.len(),
{
    if dirs.len() == 0 {
        Seq::empty()
    } else {
        let rest = projects_in(dirs.drop_last());
        match project_of(dirs.last()) {
            Some(p) => rest.push(p),
            None => rest,
        }
    }
}

/// The values of a sequence of projects.
pub open spec fn projects_view(ps: Seq<Project>) -> Seq<ProjectView> {
    ps.map_values(|p: Project| p@)
}

/// Assembles the result of a scan: the walk of the root either failed as a
/// whole, or met `dirs`, each of which is classified on its own. Directories
/// inside a project are examined like any other.
pub fn list_projects(walk: Result<Vec<WalkedDir>, Error>) -> (r: Result<Vec<Project>, Error>)
    ensures
        match walk {
            Ok(dirs) => r is Ok && projects_view(r->Ok_0@) == projects_in(dirs@),
            Err(e) => r is Err && r->Err_0 == e,
        },
{
    let dirs = match walk {
        Ok(dirs) => dirs,
        Err(e) => return Err(e),
    };
    let mut projects: Vec<Project> = Vec::new();
    let mut i: usize = 0;
    while i < dirs.len()
        invariant
            i <= dirs@.len(),
            projects_view(projects@) == projects_in(dirs@.subrange(0, i as int)),
        decreases dirs@.len() - i,
    {
        let ghost prev = projects@;
        match get_project(&dirs[i]) {
            Some(p) => {
                projects.push(p);
                assert(projects_view(projects@) =~= projects_view(prev).push(p@));
            },
            None => {},
        }
        assert(dirs@.subrange(0, i + 1).drop_last() =~= dirs@.subrange(0, i as int));
        i = i + 1;
    }
    assert(dirs@.subrange(0, dirs@.len() as int) =~= dirs@);
    Ok(projects)
}

/// Directories are classified independently: the projects of two walks one
/// after the other are those of the first followed by those of the second.
pub proof fn lemma_projects_concat(a: Seq<WalkedDir>, b: Seq<WalkedDir>)
    ensures
        projects_in(a + b) == projects_in(a) + projects_in(b),
    decreases b.len(),
{
    if b.len() == 0 {
        assert(a + b =~= a);
        assert(projects_in(a) + projects_in(b) =~= projects_in(a));
    } else {
        lemma_projects_concat(a, b.drop_last());
        assert((a + b).drop_last() =~= a + b.drop_last());
        assert((a + b).last() == b.last());
        match project_of(b.last()) {
            Some(p) => {
                assert(projects_in(a + b) =~= projects_in(a) + projects_in(b));
            },
            None => {},
        }
    }
}

proof fn lemma_projects_single(dir: WalkedDir)
    ensures
        projects_in(seq![dir]) == match project_of(dir) {
            Some(p) => seq![p],
            None => Seq::<ProjectView>::empty(),
        },
{
    let s = seq![dir];
    assert(s.drop_last() =~= Seq::<WalkedDir>::empty());
    assert(projects_in(s.drop_last()) == Seq::<ProjectView>::empty());
    assert(s.last() == dir);
    match project_of(dir) {
        Some(p) => {
            assert(projects_in(s) =~= seq![p]);
        },
        None => {},
    }
}

proof fn lemma_first_marker_at(names: Seq<Seq<char>>, i: int)
    requires
        0 <= i < names.len(),
        marker_base_type(names[i]) is Some,
        forall|j: int| 0 <= j < i ==> marker_base_type(#[trigger] names[j]) is None,
    ensures
        first_marker(names) == marker_base_type(names[i]),
    decreases i,
{
    if i > 0 {
        assert(marker_base_type(names[0]) is None);
        let rest = names.drop_first();
        assert forall|j: int| 0 <= j < i - 1 implies marker_base_type(#[trigger] rest[j]) is None by {
            assert(rest[j] == names[j + 1]);
        }
        lemma_first_marker_at(rest, i - 1);
    }
}

proof fn lemma_no_first_marker(names: Seq<Seq<char>>)
    requires
        forall|j: int| 0 <= j < names.len() ==> marker_base_type(#[trigger] names[j]) is None,
    ensures
        first_marker(names) is None,
    decreases names.len(),
{
    if names.len() > 0 {
        let rest = names.drop_first();
        assert(marker_base_type(names[0]) is None);
        assert forall|j: int| 0 <= j < rest.len() implies marker_base_type(#[trigger] rest[j]) is None by {
            assert(rest[j] == names[j + 1]);
        }
        lemma_no_first_marker(rest);
    }
}

/// A directory whose regular files hold exactly one marker is reported as
/// exactly one project, of the base type that marker names.
pub proof fn lemma_single_marker_one_project(dir: WalkedDir, i: int)
    requires
        dir.listing is Some,
        0 <= i < content_names(dir.listing->Some_0@, ContentType::Files).len(),
        marker_base_type(content_names(dir.listing->Some_0@, ContentType::Files)[i]) is Some,
        forall|j: int|
            0 <= j < content_names(dir.listing->Some_0@, ContentType::Files).len() && j != i
                ==> marker_base_type(
                #[trigger] content_names(dir.listing->Some_0@, ContentType::Files)[j],
            ) is None,
    ensures
        projects_in(seq![dir]).len() == 1,
        projects_in(seq![dir])[0].path == dir.path@,
        Some(projects_in(seq![dir])[0].base_type) == marker_base_type(
            content_names(dir.listing->Some_0@, ContentType::Files)[i],
        ),
{
    let names = content_names(dir.listing->Some_0@, ContentType::Files);
    lemma_first_marker_at(names, i);
    lemma_projects_single(dir);
}

/// A directory none of whose regular files is a marker is no project.
pub proof fn lemma_no_marker_no_project(dir: WalkedDir)
    requires
        dir.listing is Some,
        forall|j: int|
            0 <= j < content_names(dir.listing->Some_0@, ContentType::Files).len()
                ==> marker_base_type(
                #[trigger] content_names(dir.listing->Some_0@, ContentType::Files)[j],
            ) is None,
    ensures
        projects_in(seq![dir]).len() == 0,
{
    lemma_no_first_marker(content_names(dir.listing->Some_0@, ContentType::Files));
    lemma_projects_single(dir);
}

/// Two project roots met by one walk, one of them inside the other's tree or
/// not, are both reported, as two entries in walk order.
pub proof fn lemma_nested_projects_both_reported(dirs: Seq<WalkedDir>, i: int, j: int)
    requires
        0 <= i < j < dirs.len(),
        project_of(dirs[i]) is Some,
        project_of(dirs[j]) is Some,
    ensures
        exists|k1: int, k2: int|
            0 <= k1 < k2 < projects_in(dirs).len() && projects_in(dirs)[k1] == project_of(
                dirs[i],
            )->Some_0 && projects_in(dirs)[k2] == project_of(dirs[j])->Some_0,
{
    let a = dirs.subrange(0, i);
    let b = dirs.subrange(i, i + 1);
    let c = dirs.subrange(i + 1, j);
    let d = dirs.subrange(j, j + 1);
    let e = dirs.subrange(j + 1, dirs.len() as int);
    assert(dirs =~= a + b + c + d + e);
    lemma_projects_concat(a, b);
    lemma_projects_concat(a + b, c);
    lemma_projects_concat(a + b + c, d);
    lemma_projects_concat(a + b + c + d, e);
    assert(b =~= seq![dirs[i]]);
    assert(d =~= seq![dirs[j]]);
    lemma_projects_single(dirs[i]);
    lemma_projects_single(dirs[j]);
    let k1 = projects_in(a).len() as int;
    let k2 = k1 + 1 + projects_in(c).len();
    assert(projects_in(dirs)[k1] == project_of(dirs[i])->Some_0);
    assert(projects_in(dirs)[k2] == project_of(dirs[j])->Some_0);
}

/// A directory that could not be read changes nothing in what the rest of
/// the walk reports.
pub proof fn lemma_unreadable_dir_changes_nothing(dirs: Seq<WalkedDir>, i: int)
    requires
        0 <= i < dirs.len(),
        dirs[i].listing is None,
    ensures
        projects_in(dirs.remove(i)) == projects_in(dirs),
{
    let a = dirs.subrange(0, i);
    let b = dirs.subrange(i, i + 1);
    let c = dirs.subrange(i + 1, dirs.len() as int);
    assert(dirs =~= a + b + c);
    assert(dirs.remove(i) =~= a + c);
    lemma_projects_concat(a, b);
    lemma_projects_concat(a + b, c);
    lemma_projects_concat(a, c);
    assert(b =~= seq![dirs[i]]);
    lemma_projects_single(dirs[i]);
    assert(projects_in(a) + projects_in(b) =~= projects_in(a));
}

} // verus!
