//! The directory walker.
//!
//! The walker runs over a snapshot of the directory tree: each directory
//! entry is either a file together with the outcome of reading its bytes, or
//! a directory together with the outcome of listing it. The caller that owns
//! the real file system builds the snapshot; the walker makes every decision
//! — depth gating, the hidden-file filter, skipping unreadable directories —
//! over the snapshot, and publishes the surviving candidates in enumeration
//! order.

use vstd::prelude::*;
use vstd::string::StrSliceExecFns;
use vstd::string::StringExecFns;

verus! {

/// One entry of the directory-tree snapshot.
///
/// A `File`'s content is `Err` when the file could not be opened or read;
/// the error text carries the underlying cause. A `Dir`'s entries are `None`
/// when the directory could not be listed: the walker skips such a
/// directory silently and scans its siblings.
pub enum FsNode {
    /// A regular file and the outcome of reading it.
    File {
        /// The entry's name within its directory.
        name: String,
        /// The file's bytes, or the cause of the read failure.
        content: Result<Vec<u8>, String>,
    },
    /// A directory and the outcome of listing it.
    Dir {
        /// The entry's name within its directory. For the root of a
        /// snapshot this holds the full base path instead.
        name: String,
        /// The directory's entries in enumeration order, or `None` when the
        /// directory was unreadable.
        entries: Option<Vec<FsNode>>,
    },
}

/// A candidate file the walker has published: its full path and the outcome
/// of reading it.
pub struct FileRecord {
    /// The file's full path.
    pub path: Seq<char>,
    /// The file's bytes, or the cause of the read failure.
    pub content: Result<Seq<u8>, Seq<char>>,
}

/// The abstract content outcome of a file.
pub open spec fn content_view(c: Result<Vec<u8>, String>) -> Result<Seq<u8>, Seq<char>> {
    match c {
        Ok(b) => Ok(b@),
        Err(s) => Err(s@),
    }
}

/// Whether a name marks a hidden entry: it begins with a dot.
pub open spec fn hidden_name(name: Seq<char>) -> bool {
    name.len() > 0 && name[0] == '.'
}

/// A path extended by one more segment.
pub open spec fn joined(prefix: Seq<char>, name: Seq<char>) -> Seq<char> {
    prefix.push('/') + name
}

/// A name that a directory entry can carry: non-empty and free of the path
/// separator.
pub open spec fn valid_name(name: Seq<char>) -> bool {
    name.len() > 0 && !name.contains('/')
}

/// Every entry below this node carries a valid name.
pub open spec fn wf_entries(node: FsNode) -> bool
    decreases node, 0int,
{
    match node {
        FsNode::File { .. } => true,
        FsNode::Dir { entries, .. } => match entries {
            None => true,
            Some(es) => wf_list(es@),
        },
    }
}

/// Every node of the list carries a valid name, and so does everything
/// below it.
pub open spec fn wf_list(es: Seq<FsNode>) -> bool
    decreases es, 0int,
{
    if es.len() == 0 {
        true
    } else {
        wf_node(es[0]) && wf_list(es.drop_first())
    }
}

/// The node carries a valid name, and so does everything below it.
pub open spec fn wf_node(node: FsNode) -> bool
    decreases node, 1int,
{
    match node {
        FsNode::File { name, .. } => valid_name(name@),
        FsNode::Dir { name, .. } => valid_name(name@) && wf_entries(node),
    }
}

/// The candidates a walk of this directory publishes, in enumeration order.
///
/// The directory's own entries are always read: the depth budget gates
/// descent into subdirectories, not the reading of the current directory,
/// so a walk at depth zero still publishes the direct file entries. An
/// unreadable directory publishes nothing.
pub open spec fn walk_dir(
    node: FsNode,
    dir_path: Seq<char>,
    depth: nat,
    recursive: bool,
    track: bool,
) -> Seq<FileRecord>
    decreases node, 0int,
{
    match node {
        FsNode::File { .. } => Seq::<FileRecord>::empty(),
        FsNode::Dir { entries, .. } => {
            match entries {
                None => Seq::<FileRecord>::empty(),
                Some(es) => walk_list(es@, dir_path, depth, recursive, track),
            }
        },
    }
}

/// The candidates a walk publishes for a list of entries of one directory.
pub open spec fn walk_list(
    es: Seq<FsNode>,
    dir_path: Seq<char>,
    depth: nat,
    recursive: bool,
    track: bool,
) -> Seq<FileRecord>
    decreases es, 0int,
{
    if es.len() == 0 {
        Seq::<FileRecord>::empty()
    } else {
        walk_entry(es[0], dir_path, depth, recursive, track) + walk_list(
            es.drop_first(),
            dir_path,
            depth,
            recursive,
            track,
        )
    }
}

/// The candidates one directory entry contributes: a file survives the
/// hidden-file filter and is published; a subdirectory is descended into
/// only when the walk is recursive and depth remains.
pub open spec fn walk_entry(
    e: FsNode,
    dir_path: Seq<char>,
    depth: nat,
    recursive: bool,
    track: bool,
) -> Seq<FileRecord>
    decreases e, 1int,
{
    match e {
        FsNode::File { name, content } => {
            if hidden_name(name@) && !track {
                Seq::<FileRecord>::empty()
            } else {
                seq![
                    FileRecord {
                        path: joined(dir_path, name@),
                        content: content_view(content),
                    },
                ]
            }
        },
        FsNode::Dir { name, .. } => {
            if recursive && depth > 0 {
                walk_dir(e, joined(dir_path, name@), (depth - 1) as nat, recursive, track)
            } else {
                Seq::<FileRecord>::empty()
            }
        },
    }
}

/// The characters after the last path separator: the name under which a
/// path's file appears in its directory.
pub open spec fn last_segment(p: Seq<char>) -> Seq<char>
    decreases p.len(),
{
    if p.len() == 0 {
        p
    } else if p[p.len() - 1] == '/' {
        Seq::<char>::empty()
    } else {
        last_segment(p.take(p.len() - 1)).push(p[p.len() - 1])
    }
}

/// How many path separators a path holds: each segment below the base adds
/// exactly one.
pub open spec fn slash_count(p: Seq<char>) -> nat
    decreases p.len(),
{
    if p.len() == 0 {
        0
    } else {
        (if p[0] == '/' {
            1nat
        } else {
            0nat
        }) + slash_count(p.drop_first())
    }
}

/// A base path extended by a chain of segments.
pub open spec fn join_all(prefix: Seq<char>, segs: Seq<Seq<char>>) -> Seq<char>
    decreases segs.len(),
{
    if segs.len() == 0 {
        prefix
    } else {
        join_all(joined(prefix, segs[0]), segs.drop_first())
    }
}

/// Whether the tree holds, under this directory, a file reached by the
/// given chain of names — every directory on the way readable — whose read
/// outcome is `content`.
pub open spec fn file_at(node: FsNode, segs: Seq<Seq<char>>, content: Result<
    Seq<u8>,
    Seq<char>,
>) -> bool
    decreases node, 0int,
{
    match node {
        FsNode::File { .. } => false,
        FsNode::Dir { entries, .. } => match entries {
            None => false,
            Some(es) => exists|i: int| 0 <= i < es@.len() && entry_leads(es@[i], segs, content),
        },
    }
}

/// Whether this entry begins the chain: a file ending it, or a directory
/// continuing it.
pub open spec fn entry_leads(e: FsNode, segs: Seq<Seq<char>>, content: Result<
    Seq<u8>,
    Seq<char>,
>) -> bool
    decreases e, 1int,
{
    segs.len() > 0 && match e {
        FsNode::File { name, content: c } => segs.len() == 1 && name@ == segs[0] && content_view(c)
            == content,
        FsNode::Dir { name, .. } => segs.len() >= 2 && name@ == segs[0] && file_at(
            e,
            segs.drop_first(),
            content,
        ),
    }
}

/// Extending a list of entries extends its walk at the end.
pub proof fn lemma_walk_list_push(
    es: Seq<FsNode>,
    e: FsNode,
    dir_path: Seq<char>,
    depth: nat,
    recursive: bool,
    track: bool,
)
    ensures
        walk_list(es.push(e), dir_path, depth, recursive, track) == walk_list(
            es,
            dir_path,
            depth,
            recursive,
            track,
        ) + walk_entry(e, dir_path, depth, recursive, track),
    decreases es.len(),
{
    if es.len() == 0 {
        reveal_with_fuel(walk_list, 2);
        assert(es.push(e)[0] == e);
        assert(es.push(e).drop_first() =~= Seq::<FsNode>::empty());
        assert(walk_list(es.push(e), dir_path, depth, recursive, track) =~= walk_list(
            es,
            dir_path,
            depth,
            recursive,
            track,
        ) + walk_entry(e, dir_path, depth, recursive, track));
    } else {
        assert(es.push(e).drop_first() =~= es.drop_first().push(e));
        assert(es.push(e)[0] == es[0]);
        lemma_walk_list_push(es.drop_first(), e, dir_path, depth, recursive, track);
        assert(walk_list(es.push(e), dir_path, depth, recursive, track) =~= walk_list(
            es,
            dir_path,
            depth,
            recursive,
            track,
        ) + walk_entry(e, dir_path, depth, recursive, track));
    }
}

/// The abstract contents of the walker's output queue.
pub open spec fn queue_view(q: Seq<(String, Result<Vec<u8>, String>)>) -> Seq<FileRecord> {
    q.map(
        |i: int, e: (String, Result<Vec<u8>, String>)|
            FileRecord { path: e.0@, content: content_view(e.1) },
    )
}

/// Whether a name marks a hidden entry.
pub fn is_dot_name(name: &str) -> (r: bool)
    ensures
        r == hidden_name(name@),
{
    let n = name.unicode_len();
    if n == 0 {
        false
    } else {
        name.get_char(0) == '.'
    }
}

/// A path extended by one more segment.
pub fn join_path(prefix: &str, name: &str) -> (r: String)
    ensures
        r@ == joined(prefix@, name@),
{
    let mut s = String::from_str(prefix);
    s.append("/");
    s.append(name);
    proof {
        reveal_strlit("/");
        assert(("/")@ =~= seq!['/']);
        assert(s@ =~= joined(prefix@, name@));
    }
    s
}

/// Copy a byte vector.
fn clone_bytes(v: &Vec<u8>) -> (r: Vec<u8>)
    ensures
        r@ == v@,
{
    let mut r: Vec<u8> = Vec::new();
    let mut i: usize = 0;
    while i < v.len()
        invariant
            i <= v@.len(),
            r@ == v@.take(i as int),
        decreases v@.len() - i,
    {
        r.push(v[i]);
        proof {
            assert(v@.take(i + 1) =~= v@.take(i as int).push(v@[i as int]));
        }
        i = i + 1;
    }
    proof {
        assert(v@.take(v@.len() as int) =~= v@);
    }
    r
}

/// Copy a file's content outcome.
fn clone_content(c: &Result<Vec<u8>, String>) -> (r: Result<Vec<u8>, String>)
    ensures
        content_view(r) == content_view(*c),
{
    match c {
        Ok(b) => Ok(clone_bytes(b)),
        Err(s) => Err(s.clone()),
    }
}

/// Whether a walk standing in a directory with this remaining depth budget
/// descends into a subdirectory: only a recursive walk descends, and only
/// while depth remains. Depth gates descent alone, never the reading of
/// the current directory's own entries.
pub fn should_descend(recursive: bool, depth: usize) -> (r: bool)
    ensures
        r == (recursive && depth > 0),
{
    recursive && depth > 0
}

/// Whether a file of this name is published: a hidden name survives only
/// when hidden entries are tracked.
pub fn should_publish(track_dot_files: bool, name: &str) -> (r: bool)
    ensures
        r == !(hidden_name(name@) && !track_dot_files),
{
    !(is_dot_name(name) && !track_dot_files)
}

/// Walk the snapshot of one directory and append every surviving candidate
/// to the queue, in enumeration order.
pub fn walk_and_send(
    node: &FsNode,
    dir_path: &str,
    depth: usize,
    recursive: bool,
    track_dot_files: bool,
    out: &mut Vec<(String, Result<Vec<u8>, String>)>,
)
    ensures
        queue_view(final(out)@) == queue_view(old(out)@) + walk_dir(
            *node,
            dir_path@,
            depth as nat,
            recursive,
            track_dot_files,
        ),
    decreases *node,
{
    match node {
        FsNode::File { .. } => {
            proof {
                assert(queue_view(out@) =~= queue_view(old(out)@) + walk_dir(
                    *node,
                    dir_path@,
                    depth as nat,
                    recursive,
                    track_dot_files,
                ));
            }
        },
        FsNode::Dir { entries, .. } => {
            match entries {
                None => {
                    proof {
                        assert(queue_view(out@) =~= queue_view(old(out)@) + walk_dir(
                            *node,
                            dir_path@,
                            depth as nat,
                            recursive,
                            track_dot_files,
                        ));
                    }
                },
                Some(es) => {
                    let mut i: usize = 0;
                    proof {
                        assert(es@.take(0) =~= Seq::<FsNode>::empty());
                        assert(queue_view(out@) =~= queue_view(old(out)@) + walk_list(
                            es@.take(0),
                            dir_path@,
                            depth as nat,
                            recursive,
                            track_dot_files,
                        ));
                    }
                    while i < es.len()
                        invariant
                            i <= es@.len(),
                            *node is Dir,
                            (*node)->Dir_entries == Some(*es),
                            queue_view(out@) == queue_view(old(out)@) + walk_list(
                                es@.take(i as int),
                                dir_path@,
                                depth as nat,
                                recursive,
                                track_dot_files,
                            ),
                        decreases es@.len() - i,
                    {
                        let ghost pre = out@;
                        let entry = &es[i];
                        match entry {
                            FsNode::File { name, content } => {
                                if should_publish(track_dot_files, name.as_str()) {
                                    let p = join_path(dir_path, name.as_str());
                                    out.push((p, clone_content(content)));
                                    proof {
                                        assert(queue_view(out@) =~= queue_view(pre) + walk_entry(
                                            es@[i as int],
                                            dir_path@,
                                            depth as nat,
                                            recursive,
                                            track_dot_files,
                                        ));
                                    }
                                } else {
                                    proof {
                                        assert(queue_view(out@) =~= queue_view(pre) + walk_entry(
                                            es@[i as int],
                                            dir_path@,
                                            depth as nat,
                                            recursive,
                                            track_dot_files,
                                        ));
                                    }
                                }
                            },
                            FsNode::Dir { name, .. } => {
                                if should_descend(recursive, depth) {
                                    let sub = join_path(dir_path, name.as_str());
                                    proof {
                                        assert(*node is Dir);
                                        assert(decreases_to!(*node => (*node)->Dir_entries));
                                        assert((*node)->Dir_entries == Some(*es));
                                        assert(decreases_to!((*node)->Dir_entries => (
                                        *node)->Dir_entries->Some_0));
                                        assert((*node)->Dir_entries->Some_0 == *es);
                                        assert(decreases_to!(*es => es@));
                                        assert(decreases_to!(es@ => es@[i as int]));
                                    }
                                    walk_and_send(
                                        entry,
                                        sub.as_str(),
                                        depth - 1,
                                        recursive,
                                        track_dot_files,
                                        out,
                                    );
                                    proof {
                                        assert(queue_view(out@) =~= queue_view(pre) + walk_entry(
                                            es@[i as int],
                                            dir_path@,
                                            depth as nat,
                                            recursive,
                                            track_dot_files,
                                        ));
                                    }
                                } else {
                                    proof {
                                        assert(queue_view(out@) =~= queue_view(pre) + walk_entry(
                                            es@[i as int],
                                            dir_path@,
                                            depth as nat,
                                            recursive,
                                            track_dot_files,
                                        ));
                                    }
                                }
                            },
                        }
                        proof {
                            assert(es@.take(i + 1) =~= es@.take(i as int).push(es@[i as int]));
                            lemma_walk_list_push(
                                es@.take(i as int),
                                es@[i as int],
                                dir_path@,
                                depth as nat,
                                recursive,
                                track_dot_files,
                            );
                            assert(queue_view(out@) =~= queue_view(old(out)@) + walk_list(
                                es@.take(i + 1),
                                dir_path@,
                                depth as nat,
                                recursive,
                                track_dot_files,
                            ));
                        }
                        i = i + 1;
                    }
                    proof {
                        assert(es@.take(es@.len() as int) =~= es@);
                    }
                },
            }
        },
    }
}

} // verus!
