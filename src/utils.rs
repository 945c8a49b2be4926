//! Directory listings and byte counts, as handed over by the filesystem layer.
use vstd::prelude::*;

verus! {

/// Which entries of a directory listing to keep.
#[derive(Debug, Clone, Copy, PartialEq, Eq, Structural)]
pub enum ContentType {
    All,
    Files,
}

/// One readable entry of a directory, one level deep.
#[derive(Debug, Clone)]
pub struct ListedEntry {
    pub name: String,
    pub is_file: bool,
}

/// What the filesystem reports of one entry met while measuring a directory.
#[derive(Debug, Clone, Copy)]
pub struct EntryMeta {
    pub is_file: bool,
    pub len: u64,
}

pub open spec fn admits(content_type: ContentType, e: ListedEntry) -> bool {
    match content_type {
        ContentType::All => true,
        ContentType::Files => e.is_file,
    }
}

/// The names of the entries that `content_type` keeps, in listing order.
pub open spec fn content_names(entries: Seq<ListedEntry>, content_type: ContentType) -> Seq<
    Seq<char>,
>
    decreases entries.len(),
{
    if entries.len() == 0 {
        Seq::empty()
    } else {
        let rest = content_names(entries.drop_last(), content_type);
        if admits(content_type, entries.last()) {
            rest.push(entries.last().name@)
        } else {
            rest
        }
    }
}

/// The character sequences of a sequence of strings.
pub open spec fn names_view(names: Seq<String>) -> Seq<Seq<char>> {
    names.map_values(|s: String| s@)
}

/// Lists the names of a directory's entries, keeping all of them or the
/// regular files only.
pub fn get_content(entries: &Vec<ListedEntry>, content_type: ContentType) -> (r: Vec<String>)
    ensures
        names_view(r@) == content_names(entries@, content_type),
{
    let mut names: Vec<String> = Vec::new();
    let mut i: usize = 0;
    while i < entries.len()
        invariant
            i <= entries@.len(),
            names_view(names@) == content_names(entries@.subrange(0, i as int), content_type),
        decreases entries@.len() - i,
    {
        let e = &entries[i];
        let ghost prev = names@;
        if match content_type {
            ContentType::All => true,
            ContentType::Files => e.is_file,
        } {
            names.push(e.name.clone());
            assert(names_view(names@) =~= names_view(prev).push(e.name@));
        }
        assert(entries@.subrange(0, i + 1).drop_last() =~= entries@.subrange(0, i as int));
        i = i + 1;
    }
    assert(entries@.subrange(0, entries@.len() as int) =~= entries@);
    names
}

/// The number of bytes held by the regular files among `entries`.
pub open spec fn file_bytes(entries: Seq<EntryMeta>) -> nat
    decreases entries.len(),
{
    if entries.len() == 0 {
        0
    } else {
        file_bytes(entries.drop_last()) + if entries.last().is_file {
            entries.last().len as nat
        } else {
            0
        }
    }
}

/// `n`, or the largest `u64` where `n` does not fit.
pub open spec fn saturate(n: nat) -> u64 {
    if n <= u64::MAX {
        n as u64
    } else {
        u64::MAX
    }
}

/// Sums the sizes of the regular files met while walking a directory.
/// Directories and other entries count for nothing; a total beyond `u64`
/// is reported as `u64::MAX`.
pub fn dir_size(entries: &Vec<EntryMeta>) -> (r: u64)
    ensures
        r == saturate(file_bytes(entries@)),
{
    let mut total: u64 = 0;
    let mut i: usize = 0;
    while i < entries.len()
        invariant
            i <= entries@.len(),
            total == saturate(file_bytes(entries@.subrange(0, i as int))),
        decreases entries@.len() - i,
    {
        let e = entries[i];
        if e.is_file {
            total = total.saturating_add(e.len);
        }
        assert(entries@.subrange(0, i + 1).drop_last() =~= entries@.subrange(0, i as int));
        i = i + 1;
    }
    assert(entries@.subrange(0, entries@.len() as int) =~= entries@);
    total
}

/// A walk that meets no regular file, such as that of an empty directory,
/// counts no bytes.
pub proof fn lemma_no_files_no_bytes(entries: Seq<EntryMeta>)
    requires
        forall|k: int| 0 <= k < entries.len() ==> !(#[trigger] entries[k]).is_file,
    ensures
        file_bytes(entries) == 0,
    decreases entries.len(),
{
    if entries.len() > 0 {
        let rest = entries.drop_last();
        assert forall|k: int| 0 <= k < rest.len() implies !(#[trigger] rest[k]).is_file by {
            assert(rest[k] == entries[k]);
        }
        lemma_no_files_no_bytes(rest);
    }
}

} // verus!
