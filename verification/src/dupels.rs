//! The duplicate-detection engine.
//!
//! One engine instance performs one scan: the walker publishes candidate
//! files from the snapshot, each candidate's content is checksummed, and
//! every successfully hashed path is filed in the grouping store under its
//! digest. Afterwards the store is read-only and the output queries can be
//! repeated at will.

use vstd::prelude::*;
use vstd::string::StringExecFns;
use crate::checksum::{checksum_of_bytes, md5_of, Digest};
use crate::output::{join_output, joined_lines, render_entries, render_lines};
use crate::store::{
    entries_view, grouped_insert, sort_entries, GroupingStore, StoreView,
};
use crate::walk::{
    content_view, hidden_name, is_dot_name, walk_and_send, walk_dir, FileRecord, FsNode,
    queue_view,
};
use crate::MAX_THREAD_LIMIT;

verus! {

/// Relies on num_cpus::get: the number of logical cores, at least one.
#[verifier::external_body]
fn detected_cpu_count() -> (n: usize)
    ensures
        1 <= n,
{
    num_cpus::get()
}

/// The request one scan is built from. Created once per run from caller
/// input and never mutated.
pub struct DupeLsConfig {
    /// The directory whose contents are scanned; `None` means the caller's
    /// current working directory.
    pub base_path: Option<String>,
    /// Include entries whose names begin with a dot (`.`).
    pub track_dot_files: bool,
    /// Descend into subdirectories.
    pub recursive: bool,
    /// How many directory descents the walk may make below the base; the
    /// base directory's own entries are always read, even at zero.
    pub depth: usize,
    /// Separator line placed between rendered groups.
    pub seperator: String,
    /// Drop groups holding a single path from the output.
    pub omit: bool,
    /// Upper bound on worker threads; `None` or zero means the machine
    /// decides.
    pub max_threads: Option<usize>,
}

impl DupeLsConfig {
    /// The directory the scan starts from: the configured base path, or the
    /// caller's current working directory where none was configured.
    pub fn resolved_base_path(&self, cwd: &str) -> (r: String)
        ensures
            match self.base_path {
                Some(p) => r@ == p@,
                None => r@ == cwd@,
            },
    {
        match &self.base_path {
            Some(p) => p.clone(),
            None => String::from_str(cwd),
        }
    }
}

/// The text reported when a file's bytes could not be obtained.
pub open spec fn open_error_text(path: Seq<char>, cause: Seq<char>) -> Seq<char> {
    "Could not open file '"@ + path + "': "@ + cause
}

/// Build the report for a file whose bytes could not be obtained.
pub fn open_error_message(path: &str, cause: &str) -> (r: String)
    ensures
        r@ == open_error_text(path@, cause@),
{
    let mut s = String::from_str("Could not open file '");
    s.append(path);
    s.append("': ");
    s.append(cause);
    s
}

/// A candidate filed into the store: a successfully hashed file joins the
/// group of its content's digest; a failed one changes nothing.
pub open spec fn ok_insert(gs: StoreView, rec: FileRecord) -> StoreView {
    match rec.content {
        Ok(b) => grouped_insert(gs, md5_of(b), rec.path),
        Err(_) => gs,
    }
}

/// The store after filing a list of candidates, in order.
pub open spec fn grouping_from(gs: StoreView, files: Seq<FileRecord>) -> StoreView
    decreases files.len(),
{
    if files.len() == 0 {
        gs
    } else {
        grouping_from(ok_insert(gs, files[0]), files.drop_first())
    }
}

/// The diagnostics a list of candidates produces, in order: one line per
/// file whose bytes could not be obtained.
pub open spec fn error_lines(files: Seq<FileRecord>) -> Seq<Seq<char>>
    decreases files.len(),
{
    if files.len() == 0 {
        Seq::<Seq<char>>::empty()
    } else {
        (match files[0].content {
            Ok(_) => Seq::<Seq<char>>::empty(),
            Err(c) => seq![open_error_text(files[0].path, c)],
        }) + error_lines(files.drop_first())
    }
}

/// Filing one more candidate extends the fold at the end.
pub proof fn lemma_grouping_from_push(gs: StoreView, files: Seq<FileRecord>, rec: FileRecord)
    ensures
        grouping_from(gs, files.push(rec)) == ok_insert(grouping_from(gs, files), rec),
    decreases files.len(),
{
    if files.len() == 0 {
        reveal_with_fuel(grouping_from, 2);
        assert(files.push(rec)[0] == rec);
        assert(files.push(rec).drop_first() =~= Seq::<FileRecord>::empty());
    } else {
        assert(files.push(rec)[0] == files[0]);
        assert(files.push(rec).drop_first() =~= files.drop_first().push(rec));
        lemma_grouping_from_push(ok_insert(gs, files[0]), files.drop_first(), rec);
    }
}

/// One more candidate appends its diagnostic, if any.
pub proof fn lemma_error_lines_push(files: Seq<FileRecord>, rec: FileRecord)
    ensures
        error_lines(files.push(rec)) == error_lines(files) + (match rec.content {
            Ok(_) => Seq::<Seq<char>>::empty(),
            Err(c) => seq![open_error_text(rec.path, c)],
        }),
    decreases files.len(),
{
    if files.len() == 0 {
        reveal_with_fuel(error_lines, 2);
        assert(files.push(rec)[0] == rec);
        assert(files.push(rec).drop_first() =~= Seq::<FileRecord>::empty());
        assert(error_lines(files.push(rec)) =~= error_lines(files) + (match rec.content {
            Ok(_) => Seq::<Seq<char>>::empty(),
            Err(c) => seq![open_error_text(rec.path, c)],
        }));
    } else {
        assert(files.push(rec)[0] == files[0]);
        assert(files.push(rec).drop_first() =~= files.drop_first().push(rec));
        lemma_error_lines_push(files.drop_first(), rec);
        assert(error_lines(files.push(rec)) =~= error_lines(files) + (match rec.content {
            Ok(_) => Seq::<Seq<char>>::empty(),
            Err(c) => seq![open_error_text(rec.path, c)],
        }));
    }
}

/// The path a snapshot's root node carries: the base path of the scan.
pub open spec fn root_name(tree: FsNode) -> Seq<char> {
    match tree {
        FsNode::File { name, .. } => name@,
        FsNode::Dir { name, .. } => name@,
    }
}

/// The candidates one scan of the snapshot publishes.
pub open spec fn scan_files(tree: FsNode, depth: nat, recursive: bool, track: bool) -> Seq<
    FileRecord,
> {
    walk_dir(tree, root_name(tree), depth, recursive, track)
}

/// The grouping a scan of the snapshot builds, starting from an empty store.
pub open spec fn scan_store(tree: FsNode, depth: nat, recursive: bool, track: bool) -> StoreView {
    grouping_from(Seq::<(Seq<u8>, Seq<Seq<char>>)>::empty(), scan_files(tree, depth, recursive, track))
}

/// One duplicate-file scan: its resolved request, and the grouping it
/// builds.
pub struct DupeLs {
    /// The configured base path; `None` stands for the caller's working
    /// directory, which the caller resolves when it builds the snapshot.
    pub base_path: Option<String>,
    /// Include entries whose names begin with a dot (`.`).
    pub track_dot_files: bool,
    /// Descend into subdirectories.
    pub recursive: bool,
    /// How many directory descents the walk may make below the base.
    pub depth: usize,
    /// Separator line placed between rendered groups.
    pub seperator: String,
    /// Drop groups holding a single path from the output.
    pub omit: bool,
    /// Number of worker threads a concurrent caller should use: clamped to
    /// the hard ceiling and floored at one.
    pub max_threads: usize,
    /// The grouping store this scan fills.
    pub entries: GroupingStore,
}

impl DupeLs {
    /// Resolve a request into a fresh engine instance with an empty store.
    /// A missing or non-positive thread bound means the machine's detected
    /// parallelism; either way the count lands between one and the hard
    /// ceiling.
    pub fn new(config: DupeLsConfig) -> (d: DupeLs)
        ensures
            d.base_path == config.base_path,
            d.track_dot_files == config.track_dot_files,
            d.recursive == config.recursive,
            d.depth == config.depth,
            d.seperator == config.seperator,
            d.omit == config.omit,
            1 <= d.max_threads <= MAX_THREAD_LIMIT,
            config.max_threads matches Some(t) ==> (t >= 1 ==> d.max_threads == (if t
                < MAX_THREAD_LIMIT {
                t
            } else {
                MAX_THREAD_LIMIT
            })),
            d.entries@ == Seq::<(Seq<u8>, Seq<Seq<char>>)>::empty(),
    {
        let requested = match config.max_threads {
            Some(t) if t >= 1 => t,
            _ => detected_cpu_count(),
        };
        let max_threads = if requested < MAX_THREAD_LIMIT {
            requested
        } else {
            MAX_THREAD_LIMIT
        };
        DupeLs {
            base_path: config.base_path,
            track_dot_files: config.track_dot_files,
            recursive: config.recursive,
            depth: config.depth,
            seperator: config.seperator,
            omit: config.omit,
            max_threads,
            entries: GroupingStore::new(),
        }
    }

    /// Whether a name marks a hidden entry: it begins with a dot.
    pub fn is_dot_file(&self, filename: &str) -> (r: bool)
        ensures
            r == hidden_name(filename@),
    {
        is_dot_name(filename)
    }

    /// The digest of a published candidate's content, or the diagnostic for
    /// one whose bytes could not be obtained.
    pub fn get_checksum(path: &str, content: &Result<Vec<u8>, String>) -> (r: Result<
        Digest,
        String,
    >)
        ensures
            match r {
                Ok(d) => (*content) is Ok && d@ == md5_of(content_view(*content)->Ok_0)
                    && d@.len() == 16,
                Err(m) => (*content) is Err && m@ == open_error_text(
                    path@,
                    content_view(*content)->Err_0,
                ),
            },
    {
        match content {
            Ok(b) => Ok(checksum_of_bytes(b.as_slice())),
            Err(c) => Err(open_error_message(path, c.as_str())),
        }
    }

    /// Run the scan over a snapshot of the base directory: walk it, checksum
    /// every published candidate and file it in the store. Returns the
    /// per-path diagnostics, in publication order; a path whose checksum
    /// failed joins no group and is reported there instead.
    pub fn parse(&mut self, tree: &FsNode) -> (errors: Vec<String>)
        ensures
            final(self).entries@ == grouping_from(
                old(self).entries@,
                scan_files(
                    *tree,
                    old(self).depth as nat,
                    old(self).recursive,
                    old(self).track_dot_files,
                ),
            ),
            errors.deep_view() == error_lines(
                scan_files(
                    *tree,
                    old(self).depth as nat,
                    old(self).recursive,
                    old(self).track_dot_files,
                ),
            ),
            final(self).base_path == old(self).base_path,
            final(self).track_dot_files == old(self).track_dot_files,
            final(self).recursive == old(self).recursive,
            final(self).depth == old(self).depth,
            final(self).seperator == old(self).seperator,
            final(self).omit == old(self).omit,
            final(self).max_threads == old(self).max_threads,
    {
        let mut queue: Vec<(String, Result<Vec<u8>, String>)> = Vec::new();
        let prefix = match tree {
            FsNode::File { name, .. } => name,
            FsNode::Dir { name, .. } => name,
        };
        walk_and_send(
            tree,
            prefix.as_str(),
            self.depth,
            self.recursive,
            self.track_dot_files,
            &mut queue,
        );
        let ghost files = scan_files(
            *tree,
            self.depth as nat,
            self.recursive,
            self.track_dot_files,
        );
        proof {
            assert(queue_view(queue@) =~= files);
        }
        let mut errors: Vec<String> = Vec::new();
        let mut i: usize = 0;
        proof {
            assert(files.take(0) =~= Seq::<FileRecord>::empty());
            assert(errors.deep_view() =~= error_lines(files.take(0)));
        }
        while i < queue.len()
            invariant
                i <= queue@.len(),
                queue_view(queue@) == files,
                self.entries@ == grouping_from(old(self).entries@, files.take(i as int)),
                errors.deep_view() == error_lines(files.take(i as int)),
                self.base_path == old(self).base_path,
                self.track_dot_files == old(self).track_dot_files,
                self.recursive == old(self).recursive,
                self.depth == old(self).depth,
                self.seperator == old(self).seperator,
                self.omit == old(self).omit,
                self.max_threads == old(self).max_threads,
            decreases queue@.len() - i,
        {
            let ghost rec = files[i as int];
            let path = queue[i].0.clone();
            match DupeLs::get_checksum(path.as_str(), &queue[i].1) {
                Ok(checksum) => {
                    proof {
                        assert(rec.content is Ok);
                        assert(checksum@ == md5_of(rec.content->Ok_0));
                        assert(path@ == rec.path);
                    }
                    self.entries.insert(checksum, path);
                },
                Err(message) => {
                    let ghost before = errors.deep_view();
                    proof {
                        assert(rec.content is Err);
                        assert(message@ == open_error_text(rec.path, rec.content->Err_0));
                    }
                    errors.push(message);
                    proof {
                        assert(errors.deep_view() =~= before.push(
                            open_error_text(rec.path, rec.content->Err_0),
                        ));
                    }
                },
            }
            proof {
                assert(files.take(i + 1) =~= files.take(i as int).push(rec));
                lemma_grouping_from_push(old(self).entries@, files.take(i as int), rec);
                lemma_error_lines_push(files.take(i as int), rec);
                assert(errors.deep_view() =~= error_lines(files.take(i + 1)));
            }
            i = i + 1;
        }
        proof {
            assert(files.take(queue@.len() as int) =~= files);
        }
        errors
    }

    /// All digests of the store, in ascending byte order.
    pub fn get_sorted_checksums(&self) -> (r: Vec<Digest>)
        ensures
            r@.map(|i: int, d: Digest| d@) == sort_entries(self.entries@).map(
                |i: int, e: (Seq<u8>, Seq<Seq<char>>)| e.0,
            ),
    {
        let es = self.entries.sorted_entries();
        let mut r: Vec<Digest> = Vec::new();
        let mut i: usize = 0;
        let ghost keys = sort_entries(self.entries@).map(
            |i: int, e: (Seq<u8>, Seq<Seq<char>>)| e.0,
        );
        proof {
            assert(r@.map(|i: int, d: Digest| d@) =~= keys.take(0));
        }
        while i < es.len()
            invariant
                i <= es@.len(),
                entries_view(es@) == sort_entries(self.entries@),
                keys == sort_entries(self.entries@).map(
                    |i: int, e: (Seq<u8>, Seq<Seq<char>>)| e.0,
                ),
                r@.map(|i: int, d: Digest| d@) == keys.take(i as int),
            decreases es@.len() - i,
        {
            let ghost before = r@.map(|i: int, d: Digest| d@);
            r.push(es[i].0.clone());
            proof {
                assert(r@.map(|i: int, d: Digest| d@) =~= before.push(es@[i as int].0@));
                assert(entries_view(es@)[i as int].0 == es@[i as int].0@);
                assert(keys[i as int] == entries_view(es@)[i as int].0);
                assert(keys.take(i + 1) =~= keys.take(i as int).push(keys[i as int]));
                assert(r@.map(|i: int, d: Digest| d@) =~= keys.take(i + 1));
            }
            i = i + 1;
        }
        proof {
            assert(keys.take(keys.len() as int) =~= keys);
        }
        r
    }

    /// The rendered scan result as a sequence of lines: groups in ascending
    /// digest order, a separator between emitted groups, singleton groups
    /// dropped when so configured. Before any scan the store is empty and
    /// the result is empty; after one, the query is read-only and
    /// repeatable.
    pub fn get_output_vec(&self) -> (lines: Vec<String>)
        ensures
            lines.deep_view() == render_lines(
                sort_entries(self.entries@),
                self.omit,
                self.seperator@,
            ),
    {
        let es = self.entries.sorted_entries();
        render_entries(&es, self.omit, &self.seperator)
    }

    /// The rendered scan result as one newline-joined text.
    pub fn get_output_string(&self) -> (out: String)
        ensures
            out@ == joined_lines(
                render_lines(sort_entries(self.entries@), self.omit, self.seperator@),
            ),
    {
        let lines = self.get_output_vec();
        join_output(&lines)
    }
}

} // verus!
