//! Library-wide laws: what the engine guarantees about grouping, ordering
//! and filtering, stated over the same specifications its contracts use.

use vstd::prelude::*;
use crate::checksum::md5_of;
use crate::dupels::{grouping_from, ok_insert, root_name, scan_files, scan_store};
use crate::output::{render_from, render_lines};
use crate::store::{
    grouped_insert, lemma_grouped_insert_mem, lemma_grouped_insert_wf, store_mem, store_wf,
    StoreView,
};
use crate::walk::{
    content_view, entry_leads, file_at, hidden_name, join_all, joined, last_segment, slash_count,
    walk_dir, walk_entry, walk_list, wf_entries, wf_list, wf_node, FileRecord, FsNode,
};

verus! {

/// Checksumming unchanged content twice yields the same digest: the digest
/// is a function of the bytes alone.
pub proof fn lemma_checksum_deterministic(c1: Seq<u8>, c2: Seq<u8>)
    requires
        c1 == c2,
    ensures
        md5_of(c1) == md5_of(c2),
{
}

/// What ends up in the store after filing a list of candidates: exactly the
/// prior memberships, plus one membership per successfully hashed candidate,
/// under the digest of its content.
pub proof fn lemma_grouping_membership(
    gs: StoreView,
    files: Seq<FileRecord>,
    d: Seq<u8>,
    p: Seq<char>,
)
    ensures
        store_mem(grouping_from(gs, files), d, p) <==> (store_mem(gs, d, p) || exists|k: int|
            0 <= k < files.len() && files[k].content is Ok && md5_of(files[k].content->Ok_0) == d
                && files[k].path == p),
    decreases files.len(),
{
    if files.len() == 0 {
    } else {
        let rec = files[0];
        let gs1 = ok_insert(gs, rec);
        lemma_grouping_membership(gs1, files.drop_first(), d, p);
        match rec.content {
            Ok(b) => {
                lemma_grouped_insert_mem(gs, md5_of(b), rec.path, d, p);
            },
            Err(_) => {},
        }
        let rest = files.drop_first();
        if exists|k: int|
            0 <= k < rest.len() && rest[k].content is Ok && md5_of(rest[k].content->Ok_0) == d
                && rest[k].path == p {
            let k = choose|k: int|
                0 <= k < rest.len() && rest[k].content is Ok && md5_of(rest[k].content->Ok_0) == d
                    && rest[k].path == p;
            let k1 = k + 1;
            assert(files[k1] == rest[k]);
            assert(files[k1].content is Ok && md5_of(files[k1].content->Ok_0) == d && files[
                k1
            ].path == p);
        }
        if rec.content is Ok && md5_of(rec.content->Ok_0) == d && rec.path == p {
            assert(files[0].content is Ok && md5_of(files[0].content->Ok_0) == d && files[0].path
                == p);
        }
        if exists|k: int|
            0 <= k < files.len() && files[k].content is Ok && md5_of(files[k].content->Ok_0) == d
                && files[k].path == p {
            let k = choose|k: int|
                0 <= k < files.len() && files[k].content is Ok && md5_of(files[k].content->Ok_0)
                    == d && files[k].path == p;
            if k > 0 {
                let k0 = k - 1;
                assert(rest[k0] == files[k]);
                assert(rest[k0].content is Ok && md5_of(rest[k0].content->Ok_0) == d && rest[
                    k0
                ].path == p);
            }
        }
    }
}

/// Candidates with identical content land in the same group: the one keyed
/// by their shared digest.
pub proof fn lemma_duplicates_share_group(files: Seq<FileRecord>, i: int, j: int)
    requires
        0 <= i < files.len(),
        0 <= j < files.len(),
        files[i].content is Ok,
        files[j].content is Ok,
        files[i].content->Ok_0 == files[j].content->Ok_0,
    ensures
        store_mem(
            grouping_from(Seq::<(Seq<u8>, Seq<Seq<char>>)>::empty(), files),
            md5_of(files[i].content->Ok_0),
            files[i].path,
        ),
        store_mem(
            grouping_from(Seq::<(Seq<u8>, Seq<Seq<char>>)>::empty(), files),
            md5_of(files[i].content->Ok_0),
            files[j].path,
        ),
{
    let gs0 = Seq::<(Seq<u8>, Seq<Seq<char>>)>::empty();
    let d = md5_of(files[i].content->Ok_0);
    lemma_grouping_membership(gs0, files, d, files[i].path);
    lemma_grouping_membership(gs0, files, d, files[j].path);
}

/// Candidates whose contents hash to different digests land in different
/// groups: each path appears under its own content's digest, and the two
/// digests differ. (Contents whose digests collide are the one exception
/// the hash forces, and are left out here.)
pub proof fn lemma_distinct_content_distinct_groups(files: Seq<FileRecord>, i: int, j: int)
    requires
        0 <= i < files.len(),
        0 <= j < files.len(),
        files[i].content is Ok,
        files[j].content is Ok,
        md5_of(files[i].content->Ok_0) != md5_of(files[j].content->Ok_0),
    ensures
        store_mem(
            grouping_from(Seq::<(Seq<u8>, Seq<Seq<char>>)>::empty(), files),
            md5_of(files[i].content->Ok_0),
            files[i].path,
        ),
        store_mem(
            grouping_from(Seq::<(Seq<u8>, Seq<Seq<char>>)>::empty(), files),
            md5_of(files[j].content->Ok_0),
            files[j].path,
        ),
        md5_of(files[i].content->Ok_0) != md5_of(files[j].content->Ok_0),
{
    let gs0 = Seq::<(Seq<u8>, Seq<Seq<char>>)>::empty();
    lemma_grouping_membership(gs0, files, md5_of(files[i].content->Ok_0), files[i].path);
    lemma_grouping_membership(gs0, files, md5_of(files[j].content->Ok_0), files[j].path);
}

/// Group membership does not depend on the order candidates were processed
/// in: any two processing orders of the same candidates — as a worker pool
/// produces them — fill the same groups with the same paths.
pub proof fn lemma_processing_order_irrelevant(
    files1: Seq<FileRecord>,
    files2: Seq<FileRecord>,
    d: Seq<u8>,
    p: Seq<char>,
)
    requires
        files1.to_multiset() == files2.to_multiset(),
    ensures
        store_mem(grouping_from(Seq::<(Seq<u8>, Seq<Seq<char>>)>::empty(), files1), d, p)
            == store_mem(grouping_from(Seq::<(Seq<u8>, Seq<Seq<char>>)>::empty(), files2), d, p),
{
    broadcast use vstd::seq_lib::group_to_multiset_ensures;

    let gs0 = Seq::<(Seq<u8>, Seq<Seq<char>>)>::empty();
    lemma_grouping_membership(gs0, files1, d, p);
    lemma_grouping_membership(gs0, files2, d, p);
    if exists|k: int|
        0 <= k < files1.len() && files1[k].content is Ok && md5_of(files1[k].content->Ok_0) == d
            && files1[k].path == p {
        let k = choose|k: int|
            0 <= k < files1.len() && files1[k].content is Ok && md5_of(files1[k].content->Ok_0)
                == d && files1[k].path == p;
        let rec = files1[k];
        assert(files1.contains(rec));
        assert(files1.to_multiset().count(rec) > 0);
        assert(files2.contains(rec));
        let k2 = choose|k2: int| 0 <= k2 < files2.len() && files2[k2] == rec;
        assert(files2[k2].content is Ok && md5_of(files2[k2].content->Ok_0) == d && files2[k2].path
            == p);
    }
    if exists|k: int|
        0 <= k < files2.len() && files2[k].content is Ok && md5_of(files2[k].content->Ok_0) == d
            && files2[k].path == p {
        let k = choose|k: int|
            0 <= k < files2.len() && files2[k].content is Ok && md5_of(files2[k].content->Ok_0)
                == d && files2[k].path == p;
        let rec = files2[k];
        assert(files2.contains(rec));
        assert(files2.to_multiset().count(rec) > 0);
        assert(files1.contains(rec));
        let k2 = choose|k2: int| 0 <= k2 < files1.len() && files1[k2] == rec;
        assert(files1[k2].content is Ok && md5_of(files1[k2].content->Ok_0) == d && files1[k2].path
            == p);
    }
}

/// Filing candidates keeps the store's digests distinct.
pub proof fn lemma_grouping_from_wf(gs: StoreView, files: Seq<FileRecord>)
    requires
        store_wf(gs),
    ensures
        store_wf(grouping_from(gs, files)),
    decreases files.len(),
{
    if files.len() > 0 {
        match files[0].content {
            Ok(b) => {
                lemma_grouped_insert_wf(gs, md5_of(b), files[0].path);
            },
            Err(_) => {},
        }
        lemma_grouping_from_wf(ok_insert(gs, files[0]), files.drop_first());
    }
}

/// Every successfully hashed candidate lands in exactly one group: it
/// appears under its content's digest, and no two groups of the store carry
/// the same digest.
pub proof fn lemma_each_file_in_exactly_one_group(files: Seq<FileRecord>, k: int)
    requires
        0 <= k < files.len(),
        files[k].content is Ok,
    ensures
        store_mem(
            grouping_from(Seq::<(Seq<u8>, Seq<Seq<char>>)>::empty(), files),
            md5_of(files[k].content->Ok_0),
            files[k].path,
        ),
        store_wf(grouping_from(Seq::<(Seq<u8>, Seq<Seq<char>>)>::empty(), files)),
{
    let gs0 = Seq::<(Seq<u8>, Seq<Seq<char>>)>::empty();
    lemma_grouping_membership(gs0, files, md5_of(files[k].content->Ok_0), files[k].path);
    lemma_grouping_from_wf(gs0, files);
}

/// The groups of a store that hold more than one path, in their original
/// order.
pub open spec fn non_singleton_groups(gs: StoreView) -> StoreView
    decreases gs.len(),
{
    if gs.len() == 0 {
        Seq::<(Seq<u8>, Seq<Seq<char>>)>::empty()
    } else {
        (if gs[0].1.len() > 1 {
            seq![gs[0]]
        } else {
            Seq::<(Seq<u8>, Seq<Seq<char>>)>::empty()
        }) + non_singleton_groups(gs.drop_first())
    }
}

/// Rendering with omit-singletons set behaves exactly as first removing the
/// groups of one path and then rendering everything: the remaining groups
/// keep their relative order and their separator placement.
proof fn lemma_render_omit_from(gs: StoreView, sep: Seq<char>, first: bool)
    ensures
        render_from(gs, true, sep, first) == render_from(
            non_singleton_groups(gs),
            false,
            sep,
            first,
        ),
    decreases gs.len(),
{
    if gs.len() == 0 {
    } else if gs[0].1.len() <= 1 {
        lemma_render_omit_from(gs.drop_first(), sep, first);
        assert(non_singleton_groups(gs) =~= non_singleton_groups(gs.drop_first()));
    } else {
        lemma_render_omit_from(gs.drop_first(), sep, false);
        let ns = non_singleton_groups(gs);
        assert(ns[0] == gs[0]);
        assert(ns.drop_first() =~= non_singleton_groups(gs.drop_first()));
        assert(render_from(gs, true, sep, first) =~= render_from(ns, false, sep, first));
    }
}

/// Omit-singletons removes exactly the groups of one path and leaves the
/// rest — their order and their separators — untouched.
pub proof fn lemma_omit_drops_exactly_singletons(gs: StoreView, sep: Seq<char>)
    ensures
        render_lines(gs, true, sep) == render_lines(non_singleton_groups(gs), false, sep),
{
    lemma_render_omit_from(gs, sep, true);
}

/// Concatenation adds separator counts.
proof fn lemma_slash_count_concat(a: Seq<char>, b: Seq<char>)
    ensures
        slash_count(a + b) == slash_count(a) + slash_count(b),
    decreases a.len(),
{
    if a.len() == 0 {
        assert(a + b =~= b);
    } else {
        assert((a + b)[0] == a[0]);
        assert((a + b).drop_first() =~= a.drop_first() + b);
        lemma_slash_count_concat(a.drop_first(), b);
    }
}

/// A text without separators counts none.
proof fn lemma_slash_count_zero(name: Seq<char>)
    requires
        forall|i: int| 0 <= i < name.len() ==> name[i] != '/',
    ensures
        slash_count(name) == 0,
    decreases name.len(),
{
    if name.len() > 0 {
        lemma_slash_count_zero(name.drop_first());
    }
}

/// Appending one separator-free segment adds exactly one separator.
proof fn lemma_slash_count_joined(prefix: Seq<char>, name: Seq<char>)
    requires
        forall|i: int| 0 <= i < name.len() ==> name[i] != '/',
    ensures
        slash_count(joined(prefix, name)) == slash_count(prefix) + 1,
{
    assert(joined(prefix, name) =~= (prefix + seq!['/']) + name);
    lemma_slash_count_concat(prefix + seq!['/'], name);
    lemma_slash_count_concat(prefix, seq!['/']);
    lemma_slash_count_zero(name);
    assert(slash_count(seq!['/']) == 1) by {
        assert(seq!['/'].drop_first() =~= Seq::<char>::empty());
        assert(slash_count(Seq::<char>::empty()) == 0);
    }
}

/// The last segment of a path extended by a separator-free segment is that
/// segment.
proof fn lemma_last_segment_joined(prefix: Seq<char>, name: Seq<char>)
    requires
        forall|i: int| 0 <= i < name.len() ==> name[i] != '/',
    ensures
        last_segment(joined(prefix, name)) == name,
    decreases name.len(),
{
    let j = joined(prefix, name);
    if name.len() == 0 {
        assert(j[j.len() - 1] == '/');
        assert(last_segment(j) =~= name);
    } else {
        assert(j[j.len() - 1] == name[name.len() - 1]);
        assert(j.take(j.len() - 1) =~= joined(prefix, name.take(name.len() - 1)));
        lemma_last_segment_joined(prefix, name.take(name.len() - 1));
        assert(last_segment(j) =~= name.take(name.len() - 1).push(name[name.len() - 1]));
        assert(name.take(name.len() - 1).push(name[name.len() - 1]) =~= name);
    }
}

/// What every published candidate's path looks like, seen from the walked
/// directory: at most `depth` directory descents below it (one further
/// segment for the file's own name), no descent at all when the walk is
/// not recursive, and never a hidden file name when hidden entries are not
/// tracked.
pub open spec fn record_shaped(
    rec: FileRecord,
    dir_path: Seq<char>,
    depth: nat,
    recursive: bool,
    track: bool,
) -> bool {
    &&& (!track ==> !hidden_name(last_segment(rec.path)))
    &&& slash_count(rec.path) >= slash_count(dir_path) + 1
    &&& slash_count(rec.path) <= slash_count(dir_path) + depth + 1
    &&& (!recursive ==> slash_count(rec.path) == slash_count(dir_path) + 1)
}

/// Every candidate a directory walk publishes is shaped as
/// [`record_shaped`] says: the hidden-file filter holds and the depth
/// budget bounds how far below the directory its path lies.
pub proof fn lemma_walk_dir_shape(
    node: FsNode,
    dir_path: Seq<char>,
    depth: nat,
    recursive: bool,
    track: bool,
)
    requires
        wf_entries(node),
    ensures
        forall|k: int|
            0 <= k < walk_dir(node, dir_path, depth, recursive, track).len()
                ==> #[trigger] record_shaped(
                walk_dir(node, dir_path, depth, recursive, track)[k],
                dir_path,
                depth,
                recursive,
                track,
            ),
    decreases node, 0int,
{
    match node {
        FsNode::File { .. } => {
            assert(walk_dir(node, dir_path, depth, recursive, track).len() == 0);
        },
        FsNode::Dir { entries, .. } => {
            match entries {
                None => {
                    assert(walk_dir(node, dir_path, depth, recursive, track).len() == 0);
                },
                Some(es) => {
                    lemma_walk_list_shape(es@, dir_path, depth, recursive, track);
                    assert(walk_dir(node, dir_path, depth, recursive, track) == walk_list(
                        es@,
                        dir_path,
                        depth,
                        recursive,
                        track,
                    ));
                    assert forall|k: int|
                        0 <= k < walk_dir(node, dir_path, depth, recursive, track).len()
                            implies #[trigger] record_shaped(
                        walk_dir(node, dir_path, depth, recursive, track)[k],
                        dir_path,
                        depth,
                        recursive,
                        track,
                    ) by {
                        assert(record_shaped(
                            walk_list(es@, dir_path, depth, recursive, track)[k],
                            dir_path,
                            depth,
                            recursive,
                            track,
                        ));
                    }
                },
            }
        },
    }
}

/// Every candidate a list of entries publishes is shaped as
/// [`record_shaped`] says.
pub proof fn lemma_walk_list_shape(
    es: Seq<FsNode>,
    dir_path: Seq<char>,
    depth: nat,
    recursive: bool,
    track: bool,
)
    requires
        wf_list(es),
    ensures
        forall|k: int|
            0 <= k < walk_list(es, dir_path, depth, recursive, track).len()
                ==> #[trigger] record_shaped(
                walk_list(es, dir_path, depth, recursive, track)[k],
                dir_path,
                depth,
                recursive,
                track,
            ),
    decreases es, 0int,
{
    if es.len() > 0 {
        lemma_walk_entry_shape(es[0], dir_path, depth, recursive, track);
        lemma_walk_list_shape(es.drop_first(), dir_path, depth, recursive, track);
        let head = walk_entry(es[0], dir_path, depth, recursive, track);
        let tail = walk_list(es.drop_first(), dir_path, depth, recursive, track);
        assert forall|k: int|
            0 <= k < walk_list(es, dir_path, depth, recursive, track).len()
                implies #[trigger] record_shaped(
            walk_list(es, dir_path, depth, recursive, track)[k],
            dir_path,
            depth,
            recursive,
            track,
        ) by {
            if k < head.len() {
                assert(walk_list(es, dir_path, depth, recursive, track)[k] == head[k]);
            } else {
                assert(walk_list(es, dir_path, depth, recursive, track)[k] == tail[k
                    - head.len()]);
            }
        }
    }
}

/// Every candidate one entry contributes is shaped as [`record_shaped`]
/// says.
pub proof fn lemma_walk_entry_shape(
    e: FsNode,
    dir_path: Seq<char>,
    depth: nat,
    recursive: bool,
    track: bool,
)
    requires
        wf_node(e),
    ensures
        forall|k: int|
            0 <= k < walk_entry(e, dir_path, depth, recursive, track).len()
                ==> #[trigger] record_shaped(
                walk_entry(e, dir_path, depth, recursive, track)[k],
                dir_path,
                depth,
                recursive,
                track,
            ),
    decreases e, 1int,
{
    match e {
        FsNode::File { name, content } => {
            if !(hidden_name(name@) && !track) {
                assert(!name@.contains('/'));
                assert(forall|i: int| 0 <= i < name@.len() ==> name@[i] != '/');
                lemma_slash_count_joined(dir_path, name@);
                lemma_last_segment_joined(dir_path, name@);
            }
        },
        FsNode::Dir { name, .. } => {
            if recursive && depth > 0 {
                assert(!name@.contains('/'));
                assert(forall|i: int| 0 <= i < name@.len() ==> name@[i] != '/');
                let sub = joined(dir_path, name@);
                lemma_slash_count_joined(dir_path, name@);
                lemma_walk_dir_shape(e, sub, (depth - 1) as nat, recursive, track);
                assert forall|k: int|
                    0 <= k < walk_entry(e, dir_path, depth, recursive, track).len()
                        implies #[trigger] record_shaped(
                    walk_entry(e, dir_path, depth, recursive, track)[k],
                    dir_path,
                    depth,
                    recursive,
                    track,
                ) by {
                    let rec = walk_dir(e, sub, (depth - 1) as nat, recursive, track)[k];
                    assert(record_shaped(rec, sub, (depth - 1) as nat, recursive, track));
                }
            }
        },
    }
}

/// Hidden-file filter, exclusion side: when hidden entries are not tracked,
/// no published path names a hidden file.
pub proof fn lemma_hidden_files_excluded(
    node: FsNode,
    dir_path: Seq<char>,
    depth: nat,
    recursive: bool,
)
    requires
        wf_entries(node),
    ensures
        forall|k: int|
            0 <= k < walk_dir(node, dir_path, depth, recursive, false).len() ==> !hidden_name(
                last_segment(#[trigger] walk_dir(node, dir_path, depth, recursive, false)[k].path),
            ),
{
    lemma_walk_dir_shape(node, dir_path, depth, recursive, false);
    assert forall|k: int|
        0 <= k < walk_dir(node, dir_path, depth, recursive, false).len() implies !hidden_name(
        last_segment(#[trigger] walk_dir(node, dir_path, depth, recursive, false)[k].path),
    ) by {
        assert(record_shaped(
            walk_dir(node, dir_path, depth, recursive, false)[k],
            dir_path,
            depth,
            recursive,
            false,
        ));
    }
}

/// Depth bound, exclusion side: every published path lies at most `depth`
/// directory descents below the walked directory — one separator for each
/// descent and one for the file's own name — and no descent happens when
/// the walk is not recursive.
pub proof fn lemma_depth_bound(
    node: FsNode,
    dir_path: Seq<char>,
    depth: nat,
    recursive: bool,
    track: bool,
)
    requires
        wf_entries(node),
    ensures
        forall|k: int|
            0 <= k < walk_dir(node, dir_path, depth, recursive, track).len() ==> slash_count(
                (#[trigger] walk_dir(node, dir_path, depth, recursive, track)[k]).path,
            ) <= slash_count(dir_path) + depth + 1,
        forall|k: int|
            0 <= k < walk_dir(node, dir_path, depth, recursive, track).len() ==> (!recursive
                ==> slash_count(
                (#[trigger] walk_dir(node, dir_path, depth, recursive, track)[k]).path,
            ) == slash_count(dir_path) + 1),
{
    lemma_walk_dir_shape(node, dir_path, depth, recursive, track);
    assert forall|k: int|
        0 <= k < walk_dir(node, dir_path, depth, recursive, track).len() implies slash_count(
        (#[trigger] walk_dir(node, dir_path, depth, recursive, track)[k]).path,
    ) <= slash_count(dir_path) + depth + 1 && (!recursive ==> slash_count(
        walk_dir(node, dir_path, depth, recursive, track)[k].path,
    ) == slash_count(dir_path) + 1) by {
        assert(record_shaped(
            walk_dir(node, dir_path, depth, recursive, track)[k],
            dir_path,
            depth,
            recursive,
            track,
        ));
    }
}

/// A list-walk publishes everything any one of its entries contributes.
proof fn lemma_walk_list_contains(
    es: Seq<FsNode>,
    i: int,
    dir_path: Seq<char>,
    depth: nat,
    recursive: bool,
    track: bool,
    rec: FileRecord,
)
    requires
        0 <= i < es.len(),
        walk_entry(es[i], dir_path, depth, recursive, track).contains(rec),
    ensures
        walk_list(es, dir_path, depth, recursive, track).contains(rec),
    decreases es.len(),
{
    let head = walk_entry(es[0], dir_path, depth, recursive, track);
    let tail = walk_list(es.drop_first(), dir_path, depth, recursive, track);
    if i == 0 {
        let k = choose|k: int| 0 <= k < head.len() && head[k] == rec;
        assert(walk_list(es, dir_path, depth, recursive, track)[k] == rec);
    } else {
        assert(es.drop_first()[i - 1] == es[i]);
        lemma_walk_list_contains(es.drop_first(), i - 1, dir_path, depth, recursive, track, rec);
        let k = choose|k: int| 0 <= k < tail.len() && tail[k] == rec;
        assert(walk_list(es, dir_path, depth, recursive, track)[head.len() + k] == rec);
    }
}

/// Depth bound and hidden-file filter, inclusion side: a file that sits in
/// the tree behind a chain of readable directories is published, provided
/// the chain makes at most `depth` descents, the walk is recursive or the
/// file is a direct entry, and the file's name passes the hidden-file
/// filter.
pub proof fn lemma_walk_includes(
    node: FsNode,
    dir_path: Seq<char>,
    depth: nat,
    recursive: bool,
    track: bool,
    segs: Seq<Seq<char>>,
    content: Result<Seq<u8>, Seq<char>>,
)
    requires
        file_at(node, segs, content),
        1 <= segs.len() <= depth + 1,
        recursive || segs.len() == 1,
        track || !hidden_name(segs[segs.len() - 1]),
    ensures
        walk_dir(node, dir_path, depth, recursive, track).contains(
            FileRecord { path: join_all(dir_path, segs), content },
        ),
    decreases node, 0int,
{
    match node {
        FsNode::File { .. } => {
            assert(false);
        },
        FsNode::Dir { entries, .. } => match entries {
            None => {
                assert(false);
            },
            Some(es) => {
                let i = choose|i: int| 0 <= i < es@.len() && entry_leads(es@[i], segs, content);
                lemma_walk_entry_includes(
                    es@[i],
                    dir_path,
                    depth,
                    recursive,
                    track,
                    segs,
                    content,
                );
                lemma_walk_list_contains(
                    es@,
                    i,
                    dir_path,
                    depth,
                    recursive,
                    track,
                    FileRecord { path: join_all(dir_path, segs), content },
                );
                assert(walk_dir(node, dir_path, depth, recursive, track) == walk_list(
                    es@,
                    dir_path,
                    depth,
                    recursive,
                    track,
                ));
            },
        },
    }
}

/// One entry contributes the file its chain leads to, under the conditions
/// of [`lemma_walk_includes`].
proof fn lemma_walk_entry_includes(
    e: FsNode,
    dir_path: Seq<char>,
    depth: nat,
    recursive: bool,
    track: bool,
    segs: Seq<Seq<char>>,
    content: Result<Seq<u8>, Seq<char>>,
)
    requires
        entry_leads(e, segs, content),
        1 <= segs.len() <= depth + 1,
        recursive || segs.len() == 1,
        track || !hidden_name(segs[segs.len() - 1]),
    ensures
        walk_entry(e, dir_path, depth, recursive, track).contains(
            FileRecord { path: join_all(dir_path, segs), content },
        ),
    decreases e, 1int,
{
    match e {
        FsNode::File { name, content: c } => {
            assert(segs.len() == 1);
            assert(segs[0] == name@);
            assert(!(hidden_name(name@) && !track));
            assert(join_all(dir_path, segs) == joined(dir_path, name@)) by {
                reveal_with_fuel(join_all, 2);
                assert(segs.drop_first().len() == 0);
            }
            let rec = FileRecord { path: joined(dir_path, name@), content: content_view(c) };
            assert(walk_entry(e, dir_path, depth, recursive, track)[0] == rec);
            assert(walk_entry(e, dir_path, depth, recursive, track).contains(rec));
        },
        FsNode::Dir { name, .. } => {
            assert(segs.len() >= 2);
            assert(recursive);
            assert(depth >= 1);
            let rest = segs.drop_first();
            assert(rest[rest.len() - 1] == segs[segs.len() - 1]);
            lemma_walk_includes(
                e,
                joined(dir_path, name@),
                (depth - 1) as nat,
                recursive,
                track,
                rest,
                content,
            );
            assert(segs[0] == name@);
            assert(join_all(dir_path, segs) == join_all(joined(dir_path, name@), rest));
        },
    }
}

/// Files with identical byte content, both within reach of the walk, end up
/// in the same group: the one keyed by their shared digest.
pub proof fn lemma_identical_files_same_group(
    tree: FsNode,
    depth: nat,
    recursive: bool,
    track: bool,
    segs1: Seq<Seq<char>>,
    segs2: Seq<Seq<char>>,
    c: Seq<u8>,
)
    requires
        file_at(tree, segs1, Ok(c)),
        file_at(tree, segs2, Ok(c)),
        1 <= segs1.len() <= depth + 1,
        1 <= segs2.len() <= depth + 1,
        recursive || segs1.len() == 1,
        recursive || segs2.len() == 1,
        track || !hidden_name(segs1[segs1.len() - 1]),
        track || !hidden_name(segs2[segs2.len() - 1]),
    ensures
        store_mem(
            scan_store(tree, depth, recursive, track),
            md5_of(c),
            join_all(root_name(tree), segs1),
        ),
        store_mem(
            scan_store(tree, depth, recursive, track),
            md5_of(c),
            join_all(root_name(tree), segs2),
        ),
{
    let files = scan_files(tree, depth, recursive, track);
    lemma_walk_includes(tree, root_name(tree), depth, recursive, track, segs1, Ok(c));
    lemma_walk_includes(tree, root_name(tree), depth, recursive, track, segs2, Ok(c));
    let r1 = FileRecord { path: join_all(root_name(tree), segs1), content: Ok(c) };
    let r2 = FileRecord { path: join_all(root_name(tree), segs2), content: Ok(c) };
    let i = choose|i: int| 0 <= i < files.len() && files[i] == r1;
    let j = choose|j: int| 0 <= j < files.len() && files[j] == r2;
    lemma_duplicates_share_group(files, i, j);
}

} // verus!
