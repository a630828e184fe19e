//! The files that were downloaded.
use vstd::prelude::*;

use crate::outside::dates::{format_rfc3339, rfc3339_text};
use crate::text::{
    chars_of, concat, starts_with, string_of, trim_start, trimmed_start, view_opt, CharClass,
};

verus! {

/// A file or directory.
#[derive(Debug)]
pub struct FileNode {
    pub name: String,
    pub size: u64,
    pub modified: String,
    pub children: Option<Vec<FileNode>>,
}

/// The size of files and directories taken together.
pub open spec fn total_size(nodes: Seq<FileNode>) -> nat
    decreases nodes.len(),
{
    if nodes.len() == 0 {
        0
    } else {
        total_size(nodes.drop_last()) + nodes.last().size as nat
    }
}

/// Whether every directory in a tree is as large as what is in it, and every one lower
/// down as well, to the depth `depth`.
pub open spec fn sizes_add_up(node: FileNode, depth: nat) -> bool
    decreases depth,
{
    depth > 0 ==> (node.children matches Some(children) ==> node.size == total_size(children@)
        && forall|i: int|
        0 <= i < children@.len() ==> sizes_add_up(#[trigger] children@[i], (depth - 1) as nat))
}

proof fn lemma_total_grows(nodes: Seq<FileNode>, i: int)
    requires
        0 <= i <= nodes.len(),
    ensures
        total_size(nodes.take(i)) <= total_size(nodes),
    decreases nodes.len() - i,
{
    if i < nodes.len() {
        assert(nodes.take(i + 1).drop_last() =~= nodes.take(i));
        lemma_total_grows(nodes, i + 1);
    } else {
        assert(nodes.take(i) =~= nodes);
    }
}

/// Whether a file is not shown: its name begins with a dot.
pub fn is_hidden(name: &str) -> (r: bool)
    ensures
        r == "."@.is_prefix_of(name@),
{
    starts_with(name, ".")
}

/// How many nanoseconds a second has.
pub const NANOS: u32 = 1000000000;

/// The Unix time that lies `seconds` and `nanos` from the epoch, before or behind it: whole
/// seconds, and the nanoseconds that come to them.
pub open spec fn unix_time(before: bool, seconds: int, nanos: int) -> (int, int) {
    if !before {
        (seconds, nanos)
    } else if nanos == 0 {
        (-seconds, 0)
    } else {
        (-seconds - 1, NANOS - nanos)
    }
}

/// When a file was changed, by how far that lies from the epoch; `None` where it is no time
/// that can be written.
pub fn modified_text(before: bool, seconds: u64, nanos: u32) -> (r: Option<String>)
    ensures
        view_opt(r) == (if seconds > i64::MAX || nanos >= NANOS {
            None
        } else {
            let (whole, rest) = unix_time(before, seconds as int, nanos as int);
            rfc3339_text(whole, rest)
        }),
{
    if seconds > 0x7fff_ffff_ffff_ffff || nanos >= NANOS {
        return None;
    }
    let whole: i64 = seconds as i64;
    if !before {
        format_rfc3339(whole, nanos)
    } else if nanos == 0 {
        format_rfc3339(-whole, 0)
    } else {
        format_rfc3339(-whole - 1, NANOS - nanos)
    }
}

/// A file.
pub fn file_node(name: String, size: u64, modified: String) -> (r: FileNode)
    ensures
        r == (FileNode { name, size, modified, children: None }),
{
    FileNode { name, size, modified, children: None }
}

/// A directory, as large as what is in it; `None` where that cannot be counted.
pub fn directory_node(name: String, modified: String, children: Vec<FileNode>) -> (r: Option<
    FileNode,
>)
    ensures
        match r {
            Some(node) => total_size(children@) <= u64::MAX && node == (FileNode {
                name,
                size: total_size(children@) as u64,
                modified,
                children: Some(children),
            }),
            None => total_size(children@) > u64::MAX,
        },
{
    let mut size: u64 = 0;
    let mut i: usize = 0;
    while i < children.len()
        invariant
            i <= children@.len(),
            size == total_size(children@.take(i as int)),
        decreases children@.len() - i,
    {
        proof {
            let next = children@.take(i + 1);
            assert(next.drop_last() =~= children@.take(i as int));
            assert(next.last() == children@[i as int]);
            lemma_total_grows(children@, i + 1);
        }
        size = match size.checked_add(children[i].size) {
            Some(s) => s,
            None => {
                return None;
            },
        };
        i = i + 1;
    }
    proof {
        assert(children@.take(i as int) =~= children@);
    }
    Some(FileNode { name, size, modified, children: Some(children) })
}

/// A directory made of sound children is sound, one level deeper.
pub proof fn law_directories_add_up(node: FileNode, children: Seq<FileNode>, depth: nat)
    requires
        node.children is Some,
        node.children.unwrap()@ == children,
        node.size == total_size(children),
        forall|i: int| 0 <= i < children.len() ==> sizes_add_up(#[trigger] children[i], depth),
    ensures
        sizes_add_up(node, depth + 1),
{
    assert((depth + 1 - 1) as nat == depth);
}

/// The path below the download directory that a request names.
pub fn download_path(path: &str) -> (r: String)
    ensures
        r@ == trim_start(path@, CharClass::Slash),
{
    string_of(&trimmed_start(&chars_of(path), CharClass::Slash))
}

/// How what a request names is served.
#[derive(Clone, Copy, Debug, PartialEq, Eq, Structural)]
pub enum Served {
    Missing,
    Archive,
    File,
}

/// How what a request names is served: a directory as an archive.
pub fn how_served(exists: bool, is_directory: bool) -> (r: Served)
    ensures
        r == (if !exists {
            Served::Missing
        } else if is_directory {
            Served::Archive
        } else {
            Served::File
        }),
{
    if !exists {
        Served::Missing
    } else if is_directory {
        Served::Archive
    } else {
        Served::File
    }
}

/// How a directory is offered for download: as an archive named after it.
pub fn archive_disposition(directory: &str) -> (r: String)
    ensures
        r@ == "attachment; filename=\""@ + directory@ + ".zip"@ + "\""@,
{
    let mut text = concat("attachment; filename=\"", directory);
    text.append(".zip");
    text.append("\"");
    text
}

/// A path that a request names below the download directory does not begin with a slash.
pub proof fn law_download_path_is_relative(path: Seq<char>)
    ensures
        !"/"@.is_prefix_of(trim_start(path, CharClass::Slash)),
    decreases path.len(),
{
    reveal_strlit("/");
    if path.len() > 0 && path[0] == '/' {
        law_download_path_is_relative(path.skip(1));
    } else if "/"@.is_prefix_of(path) {
        assert(path.take(1)[0] == path[0]);
    }
}

} // verus!
