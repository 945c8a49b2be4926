//! Project kinds, the marker catalog and the per-directory classifier.
use crate::utils::{content_names, get_content, names_view, ContentType, ListedEntry};
use vstd::prelude::*;

verus! {

/// The ecosystem a project belongs to.
#[derive(Debug, Clone, Copy, PartialEq, Eq, Structural)]
pub enum ProjectBaseType {
    Cargo,
    Composer,
    NPM,
}

/// A framework tag layered on top of a base type.
#[derive(Debug, Clone, Copy, PartialEq, Eq, Structural)]
pub enum ProjectVariant {
    /// Composer
    Symfony,
    /// NPM
    NextJS,
    Docusaurus,
    Angular,
    Gatsby,
}

/// A project root found during a scan.
#[derive(Debug, Clone)]
pub struct Project {
    /// Location of the project's root directory.
    pub path: String,
    pub base_type: ProjectBaseType,
    /// The variants detected, in the order the root's listing revealed them.
    pub variants: Vec<ProjectVariant>,
    /// Bytes held under the project's root when it was scanned.
    pub size: u64,
}

/// The mathematical value of a [`Project`].
pub struct ProjectView {
    pub path: Seq<char>,
    pub base_type: ProjectBaseType,
    pub variants: Seq<ProjectVariant>,
    pub size: u64,
}

impl View for Project {
    type V = ProjectView;

    open spec fn view(&self) -> ProjectView {
        ProjectView {
            path: self.path@,
            base_type: self.base_type,
            variants: self.variants@,
            size: self.size,
        }
    }
}

/// One directory met by the tree walk: its path, its listing (`None` where it
/// could not be read) and the bytes held under it.
#[derive(Debug, Clone)]
pub struct WalkedDir {
    pub path: String,
    pub listing: Option<Vec<ListedEntry>>,
    pub size: u64,
}

/// The marker catalog: which base type a file name at a directory's root
/// announces, by exact match.
pub open spec fn marker_base_type(name: Seq<char>) -> Option<ProjectBaseType> {
    if name == "composer.json"@ {
        Some(ProjectBaseType::Composer)
    } else if name == "package.json"@ {
        Some(ProjectBaseType::NPM)
    } else if name == "Cargo.toml"@ {
        Some(ProjectBaseType::Cargo)
    } else {
        None
    }
}

/// Character-wise equality of two strings.
pub fn str_equals(a: &str, b: &str) -> (r: bool)
    ensures
        r == (a@ == b@),
{
    let n = a.unicode_len();
    if n != b.unicode_len() {
        return false;
    }
    let mut i: usize = 0;
    while i < n
        invariant
            n == a@.len(),
            n == b@.len(),
            i <= n,
            a@.subrange(0, i as int) == b@.subrange(0, i as int),
        decreases n - i,
    {
        if a.get_char(i) != b.get_char(i) {
            return false;
        }
        assert(a@.subrange(0, i + 1) == a@.subrange(0, i as int).push(a@[i as int]));
        assert(b@.subrange(0, i + 1) == b@.subrange(0, i as int).push(b@[i as int]));
        i = i + 1;
    }
    assert(a@ == a@.subrange(0, n as int));
    assert(b@ == b@.subrange(0, n as int));
    true
}

/// Whether `s` begins with `prefix`.
pub fn str_starts_with(s: &str, prefix: &str) -> (r: bool)
    ensures
        r == prefix@.is_prefix_of(s@),
{
    let n = prefix.unicode_len();
    if n > s.unicode_len() {
        return false;
    }
    let mut i: usize = 0;
    while i < n
        invariant
            n == prefix@.len(),
            n <= s@.len(),
            i <= n,
            prefix@.subrange(0, i as int) == s@.subrange(0, i as int),
        decreases n - i,
    {
        if prefix.get_char(i) != s.get_char(i) {
            assert(s@.subrange(0, n as int)[i as int] != prefix@[i as int]);
            return false;
        }
        assert(prefix@.subrange(0, i + 1) == prefix@.subrange(0, i as int).push(prefix@[i as int]));
        assert(s@.subrange(0, i + 1) == s@.subrange(0, i as int).push(s@[i as int]));
        i = i + 1;
    }
    assert(prefix@ == prefix@.subrange(0, n as int));
    true
}

/// Given a file name, tells which kind of project it marks, if any.
pub fn get_project_base_type(file_name: &str) -> (r: Option<ProjectBaseType>)
    ensures
        r == marker_base_type(file_name@),
{
    if str_equals(file_name, "composer.json") {
        Some(ProjectBaseType::Composer)
    } else if str_equals(file_name, "package.json") {
        Some(ProjectBaseType::NPM)
    } else if str_equals(file_name, "Cargo.toml") {
        Some(ProjectBaseType::Cargo)
    } else {
        None
    }
}

/// The variants that one entry name of a project's root reveals, in rule
/// order.
pub open spec fn name_variants(base_type: ProjectBaseType, name: Seq<char>) -> Seq<ProjectVariant> {
    match base_type {
        ProjectBaseType::Composer => if name == "symfony.lock"@ {
            seq![ProjectVariant::Symfony]
        } else {
            Seq::empty()
        },
        ProjectBaseType::NPM => (if "next.config."@.is_prefix_of(name) {
            seq![ProjectVariant::NextJS]
        } else {
            Seq::empty()
        }) + (if "docusaurus.config."@.is_prefix_of(name) {
            seq![ProjectVariant::Docusaurus]
        } else {
            Seq::empty()
        }) + (if name == "angular.json"@ {
            seq![ProjectVariant::Angular]
        } else {
            Seq::empty()
        }) + (if "gatsby-config."@.is_prefix_of(name) {
            seq![ProjectVariant::Gatsby]
        } else {
            Seq::empty()
        }),
        ProjectBaseType::Cargo => Seq::empty(),
    }
}

/// The variants detected among the entry names of a project's root, in
/// listing order.
pub open spec fn variants_in(base_type: ProjectBaseType, names: Seq<Seq<char>>) -> Seq<
    ProjectVariant,
>
    decreases names.len(),
{
    if names.len() == 0 {
        Seq::empty()
    } else {
        variants_in(base_type, names.drop_last()) + name_variants(base_type, names.last())
    }
}

proof fn lemma_cargo_has_no_variants(names: Seq<Seq<char>>)
    ensures
        variants_in(ProjectBaseType::Cargo, names) == Seq::<ProjectVariant>::empty(),
    decreases names.len(),
{
    if names.len() > 0 {
        lemma_cargo_has_no_variants(names.drop_last());
        assert(variants_in(ProjectBaseType::Cargo, names) =~= Seq::<ProjectVariant>::empty());
    }
}

/// Pushes onto `variants` those that one entry name of an NPM project reveals.
fn push_npm_variants(variants: &mut Vec<ProjectVariant>, file_name: &str)
    ensures
        final(variants)@ == old(variants)@ + name_variants(ProjectBaseType::NPM, file_name@),
{
    let ghost start = variants@;
    if str_starts_with(file_name, "next.config.") {
        variants.push(ProjectVariant::NextJS);
    }
    if str_starts_with(file_name, "docusaurus.config.") {
        variants.push(ProjectVariant::Docusaurus);
    }
    if str_equals(file_name, "angular.json") {
        variants.push(ProjectVariant::Angular);
    }
    if str_starts_with(file_name, "gatsby-config.") {
        variants.push(ProjectVariant::Gatsby);
    }
    assert(variants@ =~= start + name_variants(ProjectBaseType::NPM, file_name@));
}

/// Symfony is detected by a `symfony.lock` entry.
pub fn get_composer_variants(content: &Vec<String>) -> (r: Vec<ProjectVariant>)
    ensures
        r@ == variants_in(ProjectBaseType::Composer, names_view(content@)),
{
    let mut variants: Vec<ProjectVariant> = Vec::new();
    let mut i: usize = 0;
    while i < content.len()
        invariant
            i <= content@.len(),
            variants@ == variants_in(
                ProjectBaseType::Composer,
                names_view(content@.subrange(0, i as int)),
            ),
        decreases content@.len() - i,
    {
        let ghost prev = variants@;
        if str_equals(content[i].as_str(), "symfony.lock") {
            variants.push(ProjectVariant::Symfony);
        }
        assert(variants@ =~= prev + name_variants(ProjectBaseType::Composer, content@[i as int]@));
        assert(names_view(content@.subrange(0, i + 1)).drop_last()
            =~= names_view(content@.subrange(0, i as int)));
        i = i + 1;
    }
    assert(content@.subrange(0, content@.len() as int) =~= content@);
    variants
}

/// Next.js, Docusaurus and Gatsby are detected by the prefix of their
/// configuration file, Angular by an `angular.json` entry.
pub fn get_npm_variants(content: &Vec<String>) -> (r: Vec<ProjectVariant>)
    ensures
        r@ == variants_in(ProjectBaseType::NPM, names_view(content@)),
{
    let mut variants: Vec<ProjectVariant> = Vec::new();
    let mut i: usize = 0;
    while i < content.len()
        invariant
            i <= content@.len(),
            variants@ == variants_in(
                ProjectBaseType::NPM,
                names_view(content@.subrange(0, i as int)),
            ),
        decreases content@.len() - i,
    {
        push_npm_variants(&mut variants, content[i].as_str());
        assert(names_view(content@.subrange(0, i + 1)).drop_last()
            =~= names_view(content@.subrange(0, i as int)));
        i = i + 1;
    }
    assert(content@.subrange(0, content@.len() as int) =~= content@);
    variants
}

/// The variants of a project of `base_type` whose root holds the entries
/// named `content`. Cargo projects have none.
pub fn get_variants(content: &Vec<String>, base_type: ProjectBaseType) -> (r: Vec<ProjectVariant>)
    ensures
        r@ == variants_in(base_type, names_view(content@)),
{
    match base_type {
        ProjectBaseType::Composer => get_composer_variants(content),
        ProjectBaseType::NPM => get_npm_variants(content),
        ProjectBaseType::Cargo => {
            proof {
                lemma_cargo_has_no_variants(names_view(content@));
            }
            Vec::new()
        },
    }
}

/// The base type announced by the first marker among `names`.
pub open spec fn first_marker(names: Seq<Seq<char>>) -> Option<ProjectBaseType>
    decreases names.len(),
{
    if names.len() == 0 {
        None
    } else {
        match marker_base_type(names[0]) {
            Some(b) => Some(b),
            None => first_marker(names.drop_first()),
        }
    }
}

/// The classification of a directory from its listing: the first regular
/// file, in listing order, that is a marker decides. An unreadable directory
/// is no project.
pub open spec fn classification(listing: Option<Vec<ListedEntry>>) -> Option<ProjectBaseType> {
    match listing {
        Some(l) => first_marker(content_names(l@, ContentType::Files)),
        None => None,
    }
}

/// The project that a walked directory is, if any.
pub open spec fn project_of(dir: WalkedDir) -> Option<ProjectView> {
    match classification(dir.listing) {
        Some(base_type) => Some(
            ProjectView {
                path: dir.path@,
                base_type,
                variants: variants_in(
                    base_type,
                    content_names(dir.listing->Some_0@, ContentType::All),
                ),
                size: dir.size,
            },
        ),
        None => None,
    }
}

/// Returns the base type of the first marker among `names`.
pub fn first_marker_of(names: &Vec<String>) -> (r: Option<ProjectBaseType>)
    ensures
        r == first_marker(names_view(names@)),
{
    let mut i: usize = 0;
    assert(names_view(names@).subrange(0, names@.len() as int) =~= names_view(names@));
    while i < names.len()
        invariant
            i <= names@.len(),
            first_marker(names_view(names@)) == first_marker(
                names_view(names@).subrange(i as int, names@.len() as int),
            ),
        decreases names@.len() - i,
    {
        let ghost rest = names_view(names@).subrange(i as int, names@.len() as int);
        assert(rest[0] == names@[i as int]@);
        let found = get_project_base_type(names[i].as_str());
        if found.is_some() {
            return found;
        }
        assert(rest.drop_first() =~= names_view(names@).subrange(i + 1, names@.len() as int));
        i = i + 1;
    }
    assert(names_view(names@).subrange(i as int, names@.len() as int).len() == 0);
    None
}

/// Decides whether a directory is a project root, and of which base type,
/// from its listing.
pub fn classify_dir(listing: &Option<Vec<ListedEntry>>) -> (r: Option<ProjectBaseType>)
    ensures
        r == classification(*listing),
{
    match listing {
        Some(l) => {
            let files = get_content(l, ContentType::Files);
            first_marker_of(&files)
        },
        None => None,
    }
}

/// Analyses a walked directory and builds its project, if it is one.
pub fn get_project(dir: &WalkedDir) -> (r: Option<Project>)
    ensures
        match r {
            Some(p) => project_of(*dir) == Some(p@),
            None => project_of(*dir) is None,
        },
{
    match classify_dir(&dir.listing) {
        Some(base_type) => {
            let listing = dir.listing.as_ref().unwrap();
            let content = get_content(listing, ContentType::All);
            let variants = get_variants(&content, base_type);
            Some(Project { path: dir.path.clone(), base_type, variants, size: dir.size })
        },
        None => None,
    }
}

} // verus!
