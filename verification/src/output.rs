//! Deterministic rendering of a finished scan: groups in ascending digest
//! order, each group's paths in their stored order, a separator line between
//! emitted groups, and singleton groups dropped on request.

use vstd::prelude::*;
use vstd::string::StringExecFns;
use crate::checksum::Digest;
use crate::store::{entries_view, StoreView};

verus! {

/// The lines the formatter emits for the remaining groups. `first` records
/// whether no group has been emitted yet; a separator line precedes every
/// group but the first emitted one. With `omit` set, groups of at most one
/// path vanish without affecting separator placement.
pub open spec fn render_from(gs: StoreView, omit: bool, sep: Seq<char>, first: bool) -> Seq<
    Seq<char>,
>
    decreases gs.len(),
{
    if gs.len() == 0 {
        Seq::<Seq<char>>::empty()
    } else if omit && gs[0].1.len() <= 1 {
        render_from(gs.drop_first(), omit, sep, first)
    } else {
        (if first {
            Seq::<Seq<char>>::empty()
        } else {
            seq![sep]
        }) + gs[0].1 + render_from(gs.drop_first(), omit, sep, false)
    }
}

/// The lines the formatter emits for a store's groups, in the given order.
pub open spec fn render_lines(gs: StoreView, omit: bool, sep: Seq<char>) -> Seq<Seq<char>> {
    render_from(gs, omit, sep, true)
}

/// The lines joined into one text with a newline between adjacent lines.
pub open spec fn joined_lines(lines: Seq<Seq<char>>) -> Seq<char>
    decreases lines.len(),
{
    if lines.len() == 0 {
        Seq::<char>::empty()
    } else if lines.len() == 1 {
        lines[0]
    } else {
        lines[0] + seq!['\n'] + joined_lines(lines.drop_first())
    }
}

/// Joining one more line appends a newline and the line.
proof fn lemma_joined_lines_push(lines: Seq<Seq<char>>, x: Seq<char>)
    ensures
        joined_lines(lines.push(x)) == if lines.len() == 0 {
            x
        } else {
            joined_lines(lines) + seq!['\n'] + x
        },
    decreases lines.len(),
{
    if lines.len() == 0 {
        assert(lines.push(x)[0] == x);
        assert(joined_lines(lines.push(x)) == x);
    } else {
        assert(lines.push(x)[0] == lines[0]);
        assert(lines.push(x).drop_first() =~= lines.drop_first().push(x));
        lemma_joined_lines_push(lines.drop_first(), x);
        if lines.len() == 1 {
            assert(joined_lines(lines.push(x)) =~= joined_lines(lines) + seq!['\n'] + x);
        } else {
            assert(joined_lines(lines.push(x)) =~= joined_lines(lines) + seq!['\n'] + x);
        }
    }
}

/// Emit the lines for a finished store's entries, sorted by the caller.
pub fn render_entries(entries: &Vec<(Digest, Vec<String>)>, omit: bool, sep: &String) -> (lines:
    Vec<String>)
    ensures
        lines.deep_view() == render_lines(entries_view(entries@), omit, sep@),
{
    let ghost gv = entries_view(entries@);
    let mut lines: Vec<String> = Vec::new();
    let mut first: bool = true;
    let mut i: usize = 0;
    proof {
        assert(gv.skip(0) =~= gv);
        assert(lines.deep_view() + render_from(gv.skip(0), omit, sep@, true) =~= render_lines(
            gv,
            omit,
            sep@,
        ));
    }
    while i < entries.len()
        invariant
            i <= entries@.len(),
            gv == entries_view(entries@),
            lines.deep_view() + render_from(gv.skip(i as int), omit, sep@, first) == render_lines(
                gv,
                omit,
                sep@,
            ),
        decreases entries@.len() - i,
    {
        proof {
            assert(gv.skip(i as int)[0] == gv[i as int]);
            assert(gv.skip(i as int).drop_first() =~= gv.skip(i + 1));
        }
        let paths = &entries[i].1;
        if paths.len() <= 1 && omit {
            proof {
                assert(gv[i as int].1.len() <= 1);
                assert(render_from(gv.skip(i as int), omit, sep@, first) == render_from(
                    gv.skip(i + 1),
                    omit,
                    sep@,
                    first,
                ));
            }
        } else {
            let ghost pre = lines.deep_view();
            let ghost was_first = first;
            if !first {
                lines.push(sep.clone());
                proof {
                    assert(lines.deep_view() =~= pre.push(sep@));
                }
            }
            first = false;
            let mut j: usize = 0;
            let ghost mid = lines.deep_view();
            proof {
                assert(mid =~= pre + (if was_first {
                    Seq::<Seq<char>>::empty()
                } else {
                    seq![sep@]
                }));
                assert(gv[i as int].1.take(0) =~= Seq::<Seq<char>>::empty());
                assert(lines.deep_view() =~= mid + gv[i as int].1.take(0));
            }
            while j < paths.len()
                invariant
                    j <= paths@.len(),
                    gv[i as int].1 == paths.deep_view(),
                    0 <= i < gv.len(),
                    lines.deep_view() == mid + gv[i as int].1.take(j as int),
                decreases paths@.len() - j,
            {
                let ghost before = lines.deep_view();
                lines.push(paths[j].clone());
                proof {
                    assert(lines.deep_view() =~= before.push(paths@[j as int]@));
                    assert(paths.deep_view()[j as int] == paths@[j as int]@);
                    assert(gv[i as int].1.take(j + 1) =~= gv[i as int].1.take(j as int).push(
                        gv[i as int].1[j as int],
                    ));
                    assert(lines.deep_view() =~= mid + gv[i as int].1.take(j + 1));
                }
                j = j + 1;
            }
            proof {
                assert(gv[i as int].1.take(paths@.len() as int) =~= gv[i as int].1);
                assert(lines.deep_view() =~= pre + ((if was_first {
                    Seq::<Seq<char>>::empty()
                } else {
                    seq![sep@]
                }) + gv[i as int].1));
            }
        }
        proof {
            assert(lines.deep_view() + render_from(gv.skip(i + 1), omit, sep@, first)
                =~= render_lines(gv, omit, sep@));
        }
        i = i + 1;
    }
    proof {
        assert(gv.skip(entries@.len() as int) =~= Seq::<(Seq<u8>, Seq<Seq<char>>)>::empty());
        assert(lines.deep_view() =~= render_lines(gv, omit, sep@));
    }
    lines
}

/// Join rendered lines into a single text, newline-separated.
pub fn join_output(lines: &Vec<String>) -> (out: String)
    ensures
        out@ == joined_lines(lines.deep_view()),
{
    let mut out = String::new();
    let mut i: usize = 0;
    proof {
        assert(lines.deep_view().take(0) =~= Seq::<Seq<char>>::empty());
    }
    while i < lines.len()
        invariant
            i <= lines@.len(),
            out@ == joined_lines(lines.deep_view().take(i as int)),
            i > 0 ==> lines.deep_view().take(i as int).len() > 0,
        decreases lines@.len() - i,
    {
        if i > 0 {
            out.append("\n");
            proof {
                reveal_strlit("\n");
                assert(("\n")@ =~= seq!['\n']);
            }
        }
        out.append(lines[i].as_str());
        proof {
            let dv = lines.deep_view();
            assert(dv.take(i + 1) =~= dv.take(i as int).push(dv[i as int]));
            lemma_joined_lines_push(dv.take(i as int), dv[i as int]);
            assert(dv[i as int] == lines@[i as int]@);
            assert(out@ =~= joined_lines(dv.take(i + 1)));
        }
        i = i + 1;
    }
    proof {
        assert(lines.deep_view().take(lines@.len() as int) =~= lines.deep_view());
    }
    out
}

} // verus!
