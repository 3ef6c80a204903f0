//! Properties of the library as a whole: what one operation gives back of
//! another, and what every state keeps.

use vstd::prelude::*;
use crate::adapter::{
    after_descriptor_dropped, after_stream_closed, backoff_plan, lemma_backoff_plan, live_count,
    total, RpcStateView, FIRST_BACKOFF_MS, MAX_BACKOFF_MS,
};
use crate::codec::{decode_request_message, encode_request_message, lemma_request_message_roundtrip};
use crate::fs::Fs;
use crate::fs_spec::{has_flag, next_u32, FsView};
use crate::inode::{ContentView, InodeView, Metadata};
use crate::handle::FileHandle;
use crate::path::{lemma_name_lt_irreflexive, lemma_name_lt_transitive, name_lt, trim_leading_slashes};
use crate::inode::names_sorted;
use crate::protocol::{
    be32, be32_value, lemma_error_code_roundtrip, normalized_response, ErrorCode, RequestV,
    Response, ResponseV,
};
use crate::response_codec::{
    decode_response_message, encode_response_message, lemma_response_message_roundtrip,
};
use crate::server::{
    mkdir_p_handled, open_at_handled, open_path_handled, child_path, done_response, entry_names, open_at_path, opened, fd_listing_response, listing_response,
    fs_error_response, handled, handled_timed, session_closed, version_mismatch_message, with_fs,
    written_response, zeros, ServerView,
};
use crate::storage::write_spec;
use crate::time::MonotonicCounter;
use crate::snapshot::FsSnapshot;
use crate::sync::{
    downloaded_record, lemma_without_path, lemma_without_path_len, lemma_without_path_unique,
    part_plan, path_count, paths_unique, uploaded_record, without_path, S3ObjectInfo, PART_SIZE,
};
use crate::time::TimeProvider;
use crate::types::{Fd, FsError, O_APPEND, O_CREAT, O_RDONLY, O_TRUNC, O_WRONLY};
use crate::adapter::WasiErrorCode;
use crate::vfs_adapter::{guest_fd, guest_read_op};
use crate::vfs_state::VfsStateView;

verus! {

// ---------------------------------------------------------------------------
// The filesystem
// ---------------------------------------------------------------------------

/// Following `comps` from `cur` looks the last name up where the others
/// lead.
proof fn lemma_walk_all_last(s: FsView, cur: u64, comps: Seq<Seq<char>>)
    requires
        comps.len() > 0,
    ensures
        s.walk_all(cur, comps) == match s.walk_all(cur, comps.drop_last()) {
            Err(e) => Err(e),
            Ok(x) => s.find(x, comps.last()),
        },
    decreases comps.len(),
{
    if comps.len() > 1 {
        assert(comps.drop_last()[0] == comps[0]);
        assert(comps.drop_first().last() == comps.last());
        assert(comps.drop_first().drop_last() =~= comps.drop_last().drop_first());
        match s.find(cur, comps[0]) {
            Err(_) => {},
            Ok(next) => {
                lemma_walk_all_last(s, next, comps.drop_first());
            },
        }
    } else {
        assert(comps.drop_first() =~= Seq::<Seq<char>>::empty());
        assert(comps.drop_last() =~= Seq::<Seq<char>>::empty());
        match s.find(cur, comps[0]) {
            Err(_) => {},
            Ok(next) => {
                assert(s.walk_all(next, comps.drop_first()) == Ok::<u64, FsError>(next));
            },
        }
    }
}

/// Taking a file's entry out of a directory leaves every walk through
/// directories where it was.
proof fn lemma_walk_without_file(s: FsView, p: u64, name: Seq<char>, t: u64, cur: u64, comps: Seq<Seq<char>>)
    requires
        s.inodes.contains_key(p),
        s.inodes[p].content is Dir,
        s.dir_entries(p).contains_key(name),
        s.is_file(s.dir_entries(p)[name]),
        s.walk_dirs(cur, comps) is Ok,
    ensures
        s.remove_entry(p, name, t).walk_all(cur, comps) == s.walk_dirs(cur, comps),
    decreases comps.len(),
{
    let s2 = s.remove_entry(p, name, t);
    if comps.len() > 0 {
        let c = comps[0];
        assert(s2.inodes.dom() == s.inodes.dom());
        if cur == p {
            assert(c != name);
            assert(s2.dir_entries(p) == s.dir_entries(p).remove(name));
        }
        assert(s2.find(cur, c) == s.find(cur, c));
        let next = s.find(cur, c)->Ok_0;
        lemma_walk_without_file(s, p, name, t, next, comps.drop_first());
    }
}

/// Once a file is removed, its path is not found.
pub proof fn law_unlink_then_stat(s: FsView, path: Seq<char>, t: u64)
    requires
        s.unlink_op(path, t).1 is Ok,
    ensures
        s.unlink_op(path, t).0.stat_op(path) == Err::<Metadata, FsError>(FsError::NotFound),
{
    let comps = crate::path::components(path);
    let p = s.parent_of(comps)->Ok_0;
    let name = comps.last();
    let target = s.find(p, name)->Ok_0;
    let s2 = s.unlink_op(path, t).0;
    assert(s2 == s.remove_entry(p, name, t));
    lemma_walk_dirs_reach_dirs(s, s.root, comps.drop_last());
    assert(s.inodes[p].content is Dir);
    lemma_walk_without_file(s, p, name, t, s.root, comps.drop_last());
    lemma_walk_all_last(s2, s.root, comps);
    assert(s2.inodes.contains_key(s2.root));
    assert(s2.dir_entries(p) == s.dir_entries(p).remove(name));
}

/// Adding an entry for a new inode to a directory leaves every walk
/// through directories that did not use that name where it was.
proof fn lemma_walk_with_new_entry(s: FsView, s2: FsView, p: u64, name: Seq<char>, id: u64, cur: u64, comps: Seq<Seq<char>>)
    requires
        s.inodes.contains_key(p),
        s.inodes[p].content is Dir,
        !s.dir_entries(p).contains_key(name),
        !s.inodes.contains_key(id),
        s2.inodes.dom() == s.inodes.dom().insert(id),
        forall|k: u64| #[trigger] s.inodes.contains_key(k) && k != p ==> s2.inodes[k] == s.inodes[k],
        s2.inodes[p].content == ContentView::Dir(s.dir_entries(p).insert(name, id)),
        s.walk_dirs(cur, comps) is Ok,
        s.inodes.contains_key(cur),
    ensures
        s2.walk_all(cur, comps) == s.walk_dirs(cur, comps),
    decreases comps.len(),
{
    if comps.len() > 0 {
        let c = comps[0];
        if cur == p {
            assert(c != name);
        }
        assert(s2.find(cur, c) == s.find(cur, c));
        let next = s.find(cur, c)->Ok_0;
        lemma_walk_with_new_entry(s, s2, p, name, id, next, comps.drop_first());
    }
}

/// Once a directory is made, its path is a directory.
pub proof fn law_mkdir_then_stat(s: FsView, path: Seq<char>, t: u64)
    requires
        s.mkdir_op(path, t).1 is Ok,
        !s.inodes.contains_key(s.next_inode),
    ensures
        s.mkdir_op(path, t).0.stat_op(path) matches Ok(m) && m.is_dir,
{
    let comps = crate::path::components(path);
    let p = s.parent_of(comps)->Ok_0;
    let name = comps.last();
    let id = s.next_inode;
    let s2 = s.mkdir_op(path, t).0;
    assert(s2 == s.create_op(p, name, true, t).0);
    lemma_walk_dirs_reach_dirs(s, s.root, comps.drop_last());
    assert(s.inodes[p].content is Dir);
    assert(s2.inodes.dom() =~= s.inodes.dom().insert(id));
    lemma_walk_with_new_entry(s, s2, p, name, id, s.root, comps.drop_last());
    lemma_walk_all_last(s2, s.root, comps);
    assert(s2.inodes.contains_key(s2.root));
    assert(s2.find(p, name) == Ok::<u64, FsError>(id));
}

/// Every inode's metadata says what its content is.
pub open spec fn kinds_agree(s: FsView) -> bool {
    forall|k: u64| #[trigger] s.inodes.contains_key(k) ==> (s.inodes[k].meta.is_dir <==> s.inodes[k].content is Dir)
}

/// A walk through directories stays where it was in a state that keeps
/// every step from a directory to a directory.
proof fn lemma_walk_stable(s: FsView, s2: FsView, cur: u64, comps: Seq<Seq<char>>)
    requires
        s.walk_dirs(cur, comps) is Ok,
        forall|k: u64, c: Seq<char>|
            #![trigger s.find(k, c), s2.find(k, c)]
            s.inodes.contains_key(k) && (s.find(k, c) matches Ok(n) && !s.is_file(n)) ==> s2.find(
                k,
                c,
            ) == s.find(k, c) && !s2.is_file(s.find(k, c)->Ok_0),
        s.inodes.contains_key(cur),
    ensures
        s2.walk_all(cur, comps) == s.walk_dirs(cur, comps),
    decreases comps.len(),
{
    if comps.len() > 0 {
        let c = comps[0];
        let next = s.find(cur, c)->Ok_0;
        assert(s2.find(cur, c) == s.find(cur, c));
        lemma_walk_stable(s, s2, next, comps.drop_first());
    }
}

/// A file renamed is found under its new path, with its metadata.
pub proof fn law_rename_file(s: FsView, old_path: Seq<char>, new_path: Seq<char>, t: u64)
    requires
        s.wf(),
        kinds_agree(s),
        s.rename_op(old_path, new_path, t).1 is Ok,
        s.stat_op(old_path) matches Ok(m) && !m.is_dir,
    ensures
        s.rename_op(old_path, new_path, t).0.stat_op(new_path) == s.stat_op(old_path),
{
    let oc = crate::path::components(old_path);
    let nc = crate::path::components(new_path);
    let s2 = s.rename_op(old_path, new_path, t).0;
    lemma_walk_all_last(s, s.root, oc);
    if oc == nc {
        assert(s2 == s);
    } else {
        let op = s.parent_of(oc)->Ok_0;
        let src = s.find(op, oc.last())->Ok_0;
        let np = s.walk_dirs(s.root, nc.drop_last())->Ok_0;
        lemma_walk_dirs_reach_dirs(s, s.root, oc.drop_last());
        lemma_walk_dirs_reach_dirs(s, s.root, nc.drop_last());
        lemma_walk_dirs_agree(s, s.root, oc.drop_last());
        assert(s.walk_all(s.root, oc.drop_last()) == Ok::<u64, FsError>(op));
        assert(s.inodes.contains_key(src));
        assert(!s.inodes[src].meta.is_dir);
        assert(s.is_file(src));
        assert(s.rename_dest_error(np, nc.last(), false) is None);
        assert(s2 == s.rename_move(op, oc.last(), np, nc.last(), t).0);
        assert(s.dir_entries(op)[oc.last()] == src);
        assert(s.inodes[np].content is Dir);
        let same = s.inodes[op].id == s.inodes[np].id;
        if same {
            assert(op == np);
        }
        assert(s2.inodes.dom() =~= s.inodes.dom());
        assert(s2.dir_entries(np) == s.dir_entries(np).remove(oc.last()).insert(nc.last(), src)
            || (op != np && s2.dir_entries(np) == s.dir_entries(np).insert(nc.last(), src)));
        assert forall|k: u64, c: Seq<char>|
            #![trigger s.find(k, c), s2.find(k, c)]
            s.inodes.contains_key(k) && (s.find(k, c) matches Ok(n) && !s.is_file(n)) implies s2.find(
                k,
                c,
            ) == s.find(k, c) && !s2.is_file(s.find(k, c)->Ok_0) by {
            let n = s.find(k, c)->Ok_0;
            assert(n != src);
            assert(s.inodes[n].content is Dir);
            assert(s.inodes[n].meta.is_dir);
            if k == np && c == nc.last() {
                assert(s.rename_dest_error(np, c, false) == Some(FsError::IsADirectory));
            }
            if k == op {
                assert(c != oc.last());
            }
            if k != op && k != np {
                assert(s2.inodes[k] == s.inodes[k]);
            } else if k == op && op != np {
                assert(s2.dir_entries(op) == s.dir_entries(op).remove(oc.last()));
            }
            assert(s2.inodes[n].content is Dir);
        }
        lemma_walk_stable(s, s2, s.root, nc.drop_last());
        lemma_walk_all_last(s2, s.root, nc);
        assert(s2.find(np, nc.last()) == Ok::<u64, FsError>(src));
        assert(s2.inodes[src] == s.inodes[src]);
    }
}

/// Whether the walk from `cur` along `comps` passes the inode `x` (its
/// start included).
pub open spec fn walk_visits(s: FsView, cur: u64, comps: Seq<Seq<char>>, x: u64) -> bool
    decreases comps.len(),
{
    cur == x || (comps.len() > 0 && (s.find(cur, comps[0]) matches Ok(n) && walk_visits(
        s,
        n,
        comps.drop_first(),
        x,
    )))
}

/// A walk through directories passes the inode it ends at.
proof fn lemma_walk_visits_end(s: FsView, cur: u64, comps: Seq<Seq<char>>)
    ensures
        s.walk_dirs(cur, comps) matches Ok(x) ==> walk_visits(s, cur, comps, x),
    decreases comps.len(),
{
    if comps.len() > 0 {
        match s.find(cur, comps[0]) {
            Err(_) => {},
            Ok(next) => {
                lemma_walk_visits_end(s, next, comps.drop_first());
            },
        }
    }
}

/// Moving the directory `src` (the entry `on` of `op`) to the entry `nn`
/// of `np` leaves every walk to `np` that does not pass `src` where it was.
proof fn lemma_rename_dir_walk(
    s: FsView,
    op: u64,
    on: Seq<char>,
    src: u64,
    np: u64,
    nn: Seq<char>,
    t: u64,
    cur: u64,
    comps: Seq<Seq<char>>,
)
    requires
        s.wf(),
        s.inodes.contains_key(op),
        s.inodes[op].content is Dir,
        s.inodes.contains_key(np),
        s.inodes[np].content is Dir,
        s.find(op, on) == Ok::<u64, FsError>(src),
        s.rename_dest_error(np, nn, true) is None,
        s.walk_dirs(cur, comps) == Ok::<u64, FsError>(np),
        !walk_visits(s, cur, comps, src),
    ensures
        s.rename_move(op, on, np, nn, t).0.walk_all(cur, comps) == Ok::<u64, FsError>(np),
    decreases comps.len(),
{
    let s2 = s.rename_move(op, on, np, nn, t).0;
    assert(s2.inodes.dom() =~= s.inodes.dom());
    if comps.len() > 0 {
        let c = comps[0];
        let rest = comps.drop_first();
        let next = s.find(cur, c)->Ok_0;
        assert(s.walk_dirs(next, rest) == Ok::<u64, FsError>(np));
        if cur == np && c == nn {
            // The step would lead to the empty directory the move replaces,
            // and no walk goes on from an empty directory.
            if rest.len() > 0 {
                assert(s.find(next, rest[0]) is Err);
            } else {
                assert(next == np);
                assert(s.dir_entries(np).contains_key(nn));
            }
            assert(false);
        }
        if cur == op && c == on {
            assert(next == src);
            assert(walk_visits(s, next, rest, src));
            assert(false);
        }
        if cur != op && cur != np {
            assert(s2.inodes[cur] == s.inodes[cur]);
        } else if cur == op && op != np {
            assert(s2.dir_entries(op) == s.dir_entries(op).remove(on));
        } else if cur == np && op != np {
            assert(s2.dir_entries(np) == s.remove_entry(op, on, t).dir_entries(np).insert(nn, src));
        } else {
            assert(s2.dir_entries(op) == s.dir_entries(op).remove(on).insert(nn, src));
        }
        assert(s2.find(cur, c) == s.find(cur, c));
        lemma_rename_dir_walk(s, op, on, src, np, nn, t, next, rest);
    }
}

/// A directory renamed is found under its new path, with its metadata,
/// unless the new path leads through the directory itself (a move into its
/// own subtree, which unhooks it) or the directory is reached through
/// itself.
pub proof fn law_rename_dir(s: FsView, old_path: Seq<char>, new_path: Seq<char>, t: u64)
    requires
        s.wf(),
        kinds_agree(s),
        s.rename_op(old_path, new_path, t).1 is Ok,
        s.stat_op(old_path) matches Ok(m) && m.is_dir,
        !walk_visits(
            s,
            s.root,
            crate::path::components(old_path).drop_last(),
            s.walk_all(s.root, crate::path::components(old_path))->Ok_0,
        ),
        !walk_visits(
            s,
            s.root,
            crate::path::components(new_path).drop_last(),
            s.walk_all(s.root, crate::path::components(old_path))->Ok_0,
        ),
    ensures
        s.rename_op(old_path, new_path, t).0.stat_op(new_path) == s.stat_op(old_path),
{
    let oc = crate::path::components(old_path);
    let nc = crate::path::components(new_path);
    let s2 = s.rename_op(old_path, new_path, t).0;
    lemma_walk_all_last(s, s.root, oc);
    if oc == nc {
        assert(s2 == s);
    } else {
        let op = s.parent_of(oc)->Ok_0;
        let src = s.find(op, oc.last())->Ok_0;
        let np = s.walk_dirs(s.root, nc.drop_last())->Ok_0;
        lemma_walk_dirs_reach_dirs(s, s.root, oc.drop_last());
        lemma_walk_dirs_reach_dirs(s, s.root, nc.drop_last());
        lemma_walk_dirs_agree(s, s.root, oc.drop_last());
        lemma_walk_visits_end(s, s.root, oc.drop_last());
        lemma_walk_visits_end(s, s.root, nc.drop_last());
        assert(s.walk_all(s.root, oc.drop_last()) == Ok::<u64, FsError>(op));
        assert(s.walk_all(s.root, oc) == Ok::<u64, FsError>(src));
        assert(s.inodes.contains_key(src));
        assert(s.inodes[src].meta.is_dir);
        assert(src != op);
        assert(src != np);
        assert(s.rename_dest_error(np, nc.last(), true) is None);
        assert(s2 == s.rename_move(op, oc.last(), np, nc.last(), t).0);
        assert(s2.inodes.dom() =~= s.inodes.dom());
        lemma_rename_dir_walk(s, op, oc.last(), src, np, nc.last(), t, s.root, nc.drop_last());
        lemma_walk_all_last(s2, s.root, nc);
        if op == np {
            assert(s2.dir_entries(np) == s.dir_entries(op).remove(oc.last()).insert(nc.last(), src));
        } else {
            assert(s2.dir_entries(np) == s.remove_entry(op, oc.last(), t).dir_entries(np).insert(
                nc.last(),
                src,
            ));
        }
        assert(s2.find(np, nc.last()) == Ok::<u64, FsError>(src));
        assert(s2.inodes[src] == s.inodes[src]);
    }
}

/// An open that succeeds hands out the next descriptor number and moves the
/// counter on by one (wrapping after `u32::MAX`); one that fails hands out
/// none.
pub proof fn law_open_hands_out_next_fd(
    s: FsView,
    path: Seq<char>,
    dir_fd: u32,
    flags: u32,
    t1: u64,
    t2: u64,
)
    ensures
        s.open_path_op(path, flags, t1, t2).1 matches Ok(fd) ==> fd == s.next_fd && s.open_path_op(
            path,
            flags,
            t1,
            t2,
        ).0.next_fd == next_u32(s.next_fd),
        s.open_path_op(path, flags, t1, t2).1 is Err ==> s.open_path_op(path, flags, t1, t2).0.next_fd
            == s.next_fd,
        s.open_at_op(dir_fd, path, flags, t1, t2).1 matches Ok(fd) ==> fd == s.next_fd
            && s.open_at_op(dir_fd, path, flags, t1, t2).0.next_fd == next_u32(s.next_fd),
        s.open_at_op(dir_fd, path, flags, t1, t2).1 is Err ==> s.open_at_op(
            dir_fd,
            path,
            flags,
            t1,
            t2,
        ).0.next_fd == s.next_fd,
{
}

/// A walk through directories that succeeds is also a walk by names.
proof fn lemma_walk_dirs_agree(s: FsView, cur: u64, comps: Seq<Seq<char>>)
    ensures
        s.walk_dirs(cur, comps) is Ok ==> s.walk_all(cur, comps) == s.walk_dirs(cur, comps),
    decreases comps.len(),
{
    if comps.len() > 0 {
        match s.find(cur, comps[0]) {
            Err(_) => {},
            Ok(next) => {
                lemma_walk_dirs_agree(s, next, comps.drop_first());
            },
        }
    }
}

/// Taking the entry of an empty directory out of the directory `p` leaves
/// every walk through directories that ends at `p` where it was.
proof fn lemma_walk_without_empty_dir(s: FsView, p: u64, name: Seq<char>, t: u64, cur: u64, comps: Seq<Seq<char>>)
    requires
        s.inodes.contains_key(p),
        s.inodes[p].content is Dir,
        s.find(p, name) matches Ok(d) && !s.is_file(d) && s.dir_entries(d) == Map::<Seq<char>, u64>::empty(),
        s.walk_dirs(cur, comps) == Ok::<u64, FsError>(p),
    ensures
        s.remove_entry(p, name, t).walk_all(cur, comps) == Ok::<u64, FsError>(p),
    decreases comps.len(),
{
    let s2 = s.remove_entry(p, name, t);
    let d = s.find(p, name)->Ok_0;
    if comps.len() > 0 {
        let c = comps[0];
        let rest = comps.drop_first();
        let next = s.find(cur, c)->Ok_0;
        assert(s2.inodes.dom() =~= s.inodes.dom());
        if cur == p && c == name {
            assert(next == d);
            assert(s.walk_dirs(cur, comps) == s.walk_dirs(d, rest));
            if rest.len() > 0 {
                assert(s.find(d, rest[0]) is Err);
            } else {
                assert(s.walk_dirs(d, rest) == Ok::<u64, FsError>(d));
                assert(d == p);
                assert(s.dir_entries(p).contains_key(name));
            }
            assert(false);
        }
        assert(s2.find(cur, c) == s.find(cur, c));
        lemma_walk_without_empty_dir(s, p, name, t, next, rest);
    }
}

/// Once a directory is removed, its path is not found.
pub proof fn law_rmdir_then_stat(s: FsView, path: Seq<char>, t: u64)
    requires
        s.rmdir_op(path, t).1 is Ok,
    ensures
        s.rmdir_op(path, t).0.stat_op(path) == Err::<Metadata, FsError>(FsError::NotFound),
{
    let comps = crate::path::components(path);
    let p = s.parent_of(comps)->Ok_0;
    let name = comps.last();
    let s2 = s.rmdir_op(path, t).0;
    assert(s2 == s.remove_entry(p, name, t));
    lemma_walk_dirs_reach_dirs(s, s.root, comps.drop_last());
    assert(s.inodes[p].content is Dir);
    lemma_walk_without_empty_dir(s, p, name, t, s.root, comps.drop_last());
    lemma_walk_all_last(s2, s.root, comps);
    assert(s2.inodes.contains_key(s2.root));
    assert(s2.dir_entries(p) == s.dir_entries(p).remove(name));
}

/// Every inode id in use is below the next one to be handed out.
pub open spec fn ids_below_next(s: FsView) -> bool {
    forall|k: u64| #[trigger] s.inodes.contains_key(k) ==> k < s.next_inode
}

/// `s2` keeps every inode of `s`, its kind and every entry of its
/// directories.
pub open spec fn extends(s: FsView, s2: FsView) -> bool {
    &&& forall|k: u64| #[trigger] s.inodes.contains_key(k) ==> s2.inodes.contains_key(k)
        && (s2.inodes[k].content is Dir <==> s.inodes[k].content is Dir)
        && s2.inodes[k].meta.is_dir == s.inodes[k].meta.is_dir
    &&& forall|k: u64, c: Seq<char>|
        s.inodes.contains_key(k) && #[trigger] s.dir_entries(k).contains_key(c) ==> s2.dir_entries(
            k,
        ).contains_key(c) && s2.dir_entries(k)[c] == s.dir_entries(k)[c]
}

/// Making the missing directories of `comps` below `cur` keeps what was
/// there and leaves a walk along `comps` ending at a directory.
proof fn lemma_mkdir_p_walk(s: FsView, cur: u64, comps: Seq<Seq<char>>, ts: Seq<u64>)
    requires
        ids_below_next(s),
        kinds_agree(s),
        s.next_inode + comps.len() <= u64::MAX,
        s.inodes.contains_key(cur),
        s.inodes[cur].content is Dir,
        s.mkdir_p_walk(cur, comps, ts).1 is Ok,
    ensures
        ({
            let s2 = s.mkdir_p_walk(cur, comps, ts).0;
            &&& extends(s, s2)
            &&& s2.root == s.root
            &&& ids_below_next(s2)
            &&& kinds_agree(s2)
            &&& s2.next_inode <= s.next_inode + comps.len()
            &&& s2.next_inode >= s.next_inode
            &&& s2.walk_all(cur, comps) matches Ok(x) && s2.inodes.contains_key(x)
                && s2.inodes[x].content is Dir
        }),
    decreases comps.len(),
{
    let s2 = s.mkdir_p_walk(cur, comps, ts).0;
    if comps.len() == 0 {
        return;
    }
    let c = comps[0];
    let rest = comps.drop_first();
    match s.find(cur, c) {
        Ok(next) => {
            lemma_mkdir_p_walk(s, next, rest, ts.drop_first());
            assert(s.dir_entries(cur).contains_key(c));
            assert(s2.find(cur, c) == Ok::<u64, FsError>(next));
        },
        Err(_) => {
            let id = s.next_inode;
            let (s1, r) = s.create_op(cur, c, true, ts[0]);
            assert(!s.inodes.contains_key(id));
            assert(r == Ok::<u64, FsError>(id));
            assert(s1.next_inode == id + 1);
            assert(s1.inodes.dom() =~= s.inodes.dom().insert(id));
            assert(s1.dir_entries(cur) == s.dir_entries(cur).insert(c, id));
            assert(extends(s, s1)) by {
                assert forall|k: u64, n: Seq<char>|
                    s.inodes.contains_key(k) && #[trigger] s.dir_entries(k).contains_key(n) implies s1.dir_entries(
                    k,
                ).contains_key(n) && s1.dir_entries(k)[n] == s.dir_entries(k)[n] by {
                    if k == cur {
                        assert(n != c);
                    }
                }
            }
            assert(ids_below_next(s1));
            assert(kinds_agree(s1));
            lemma_mkdir_p_walk(s1, id, rest, ts.drop_first());
            assert(s2 == s1.mkdir_p_walk(id, rest, ts.drop_first()).0);
            assert(s1.dir_entries(cur).contains_key(c));
            assert(s1.inodes.contains_key(cur));
            assert(s1.inodes.contains_key(id));
            assert(s2.inodes[cur].content is Dir);
            assert(s2.dir_entries(cur).contains_key(c) && s2.dir_entries(cur)[c] == id);
            assert(s2.inodes.contains_key(id));
            assert(s2.find(cur, c) == Ok::<u64, FsError>(id));
            assert(extends(s, s2)) by {
                assert forall|k: u64| #[trigger] s.inodes.contains_key(k) implies s2.inodes.contains_key(k)
                    && (s2.inodes[k].content is Dir <==> s.inodes[k].content is Dir)
                    && s2.inodes[k].meta.is_dir == s.inodes[k].meta.is_dir by {
                    assert(s1.inodes.contains_key(k));
                }
                assert forall|k: u64, n: Seq<char>|
                    s.inodes.contains_key(k) && #[trigger] s.dir_entries(k).contains_key(n) implies s2.dir_entries(
                    k,
                ).contains_key(n) && s2.dir_entries(k)[n] == s.dir_entries(k)[n] by {
                    assert(s1.dir_entries(k).contains_key(n));
                    assert(s1.inodes.contains_key(k));
                }
            }
        },
    }
}

/// Once `mkdir -p` succeeded, its path is a directory.
pub proof fn law_mkdir_p_then_stat(s: FsView, path: Seq<char>, ts: Seq<u64>)
    requires
        kinds_agree(s),
        ids_below_next(s),
        s.next_inode + crate::path::components(path).len() <= u64::MAX,
        s.inodes.contains_key(s.root),
        s.inodes[s.root].content is Dir,
        s.mkdir_p_op(path, ts).1 is Ok,
    ensures
        s.mkdir_p_op(path, ts).0.stat_op(path) matches Ok(m) && m.is_dir,
{
    let comps = crate::path::components(path);
    let s2 = s.mkdir_p_op(path, ts).0;
    if comps.len() > 0 {
        lemma_mkdir_p_walk(s, s.root, comps, ts);
        assert(s2 == s.mkdir_p_walk(s.root, comps, ts).0);
        assert(s2.root == s.root);
        assert(s2.inodes.contains_key(s2.root));
    } else {
        assert(s2 == s);
    }
}

/// Inode ids stay below the next one to hand out, and every inode's
/// metadata says what its content is.
pub open spec fn well_shaped(s: FsView) -> bool {
    ids_below_next(s) && kinds_agree(s)
}

/// Creating an entry keeps the shape while ids are left.
proof fn lemma_create_keeps_shape(s: FsView, parent: u64, name: Seq<char>, is_dir: bool, t: u64)
    requires
        well_shaped(s),
        s.next_inode < u64::MAX,
        s.inodes.contains_key(parent),
    ensures
        well_shaped(s.create_op(parent, name, is_dir, t).0),
        s.create_op(parent, name, is_dir, t).0.next_inode <= s.next_inode + 1,
{
}

/// Changing only the entries of a directory keeps the shape.
proof fn lemma_entries_keep_shape(s: FsView, p: u64, m: Map<Seq<char>, u64>, t: u64)
    requires
        well_shaped(s),
        s.inodes.contains_key(p),
        s.inodes[p].content is Dir,
    ensures
        well_shaped(
            s.set_inode(
                p,
                InodeView {
                    meta: Metadata { modified: t, ..s.inodes[p].meta },
                    content: ContentView::Dir(m),
                    ..s.inodes[p]
                },
            ),
        ),
{
}

/// Making a directory keeps the shape of the filesystem, as long as inode
/// ids are left to hand out.
pub proof fn law_mkdir_keeps_shape(s: FsView, path: Seq<char>, t: u64)
    requires
        well_shaped(s),
        s.next_inode < u64::MAX,
    ensures
        well_shaped(s.mkdir_op(path, t).0),
{
    let comps = crate::path::components(path);
    if path.len() > 0 && comps.len() > 0 {
        if let Ok(p) = s.parent_of(comps) {
            lemma_walk_dirs_reach_dirs(s, s.root, comps.drop_last());
            if comps.drop_last().len() == 0 {
                assert(p == s.root);
            }
            lemma_create_keeps_shape(s, p, comps.last(), true, t);
        }
    }
}

/// Removing a file or an empty directory keeps the shape of the filesystem.
pub proof fn law_remove_keeps_shape(s: FsView, path: Seq<char>, t: u64)
    requires
        well_shaped(s),
    ensures
        well_shaped(s.unlink_op(path, t).0),
        well_shaped(s.rmdir_op(path, t).0),
{
    let comps = crate::path::components(path);
    if path.len() > 0 && comps.len() > 0 {
        if let Ok(p) = s.parent_of(comps) {
            lemma_walk_dirs_in_table(s, s.root, comps.drop_last());
            if s.inodes[p].content is Dir {
                lemma_entries_keep_shape(s, p, s.dir_entries(p).remove(comps.last()), t);
            }
        }
    }
}

/// Opening, with or without creating a file, keeps the shape of the
/// filesystem, as long as inode ids are left to hand out.
pub proof fn law_open_keeps_shape(s: FsView, path: Seq<char>, dir_fd: Fd, flags: u32, t1: u64, t2: u64)
    requires
        well_shaped(s),
        s.next_inode < u64::MAX,
    ensures
        well_shaped(s.open_path_op(path, flags, t1, t2).0),
        well_shaped(s.open_at_op(dir_fd, path, flags, t1, t2).0),
{
    let comps = crate::path::components(path);
    if s.inodes.contains_key(s.root) {
        lemma_open_keeps_shape(s, s.root, comps, flags, t1, t2);
    }
    if s.fds.contains_key(dir_fd) && s.inodes.contains_key(s.fds[dir_fd].inode_id) {
        lemma_open_keeps_shape(s, s.fds[dir_fd].inode_id, comps, flags, t1, t2);
    }
}

/// Writing, truncating, closing and seeking keep the shape of the
/// filesystem.
pub proof fn law_data_ops_keep_shape(s: FsView, fd: Fd, data: Seq<u8>, offset: u64, size: u64, t: u64)
    requires
        well_shaped(s),
    ensures
        well_shaped(s.write_op(fd, data, t).0),
        well_shaped(s.write_at_op(fd, offset, data, t).0),
        well_shaped(s.append_write_op(fd, data, t).0),
        well_shaped(s.ftruncate_op(fd, size, t).0),
        well_shaped(s.close_op(fd).0),
        well_shaped(s.seek_op(fd, offset as i64, 0).0),
{
}

/// `mkdir -p` keeps the shape of the filesystem, whether or not it gets
/// to the end, as long as inode ids are left for every component.
pub proof fn law_mkdir_p_keeps_shape(s: FsView, path: Seq<char>, ts: Seq<u64>)
    requires
        well_shaped(s),
        s.next_inode + crate::path::components(path).len() <= u64::MAX,
    ensures
        well_shaped(s.mkdir_p_op(path, ts).0),
{
    let comps = crate::path::components(path);
    if path.len() > 0 && comps.len() > 0 && s.inodes.contains_key(s.root) {
        lemma_mkdir_p_shape(s, s.root, comps, ts);
    }
}

proof fn lemma_mkdir_p_shape(s: FsView, cur: u64, comps: Seq<Seq<char>>, ts: Seq<u64>)
    requires
        well_shaped(s),
        s.next_inode + comps.len() <= u64::MAX,
        s.inodes.contains_key(cur),
    ensures
        well_shaped(s.mkdir_p_walk(cur, comps, ts).0),
    decreases comps.len(),
{
    if comps.len() > 0 {
        match s.find(cur, comps[0]) {
            Ok(next) => {
                lemma_mkdir_p_shape(s, next, comps.drop_first(), ts.drop_first());
            },
            Err(e) => {
                lemma_create_keeps_shape(s, cur, comps[0], true, ts[0]);
                let (s1, r) = s.create_op(cur, comps[0], true, ts[0]);
                if let Ok(next) = r {
                    assert(s1.inodes.contains_key(next));
                    lemma_mkdir_p_shape(s1, next, comps.drop_first(), ts.drop_first());
                }
            },
        }
    }
}

/// A filesystem holding only an empty root directory, with ids handed out
/// from 1, has the shape every operation keeps.
pub proof fn law_fresh_filesystem_well_shaped(s: FsView)
    requires
        s.inodes.dom() == set![0u64],
        s.inodes[0].content == ContentView::Dir(Map::<Seq<char>, u64>::empty()),
        s.inodes[0].meta.is_dir,
        s.next_inode == 1,
    ensures
        well_shaped(s),
{
    assert forall|k: u64| #[trigger] s.inodes.contains_key(k) implies k < s.next_inode by {
        assert(set![0u64].contains(k));
    }
}

/// Renaming keeps the shape of the filesystem.
pub proof fn law_rename_keeps_shape(s: FsView, old_path: Seq<char>, new_path: Seq<char>, t: u64)
    requires
        well_shaped(s),
    ensures
        well_shaped(s.rename_op(old_path, new_path, t).0),
{
    lemma_rename_keeps_shape(s, old_path, new_path, t);
}

/// Opening below `start` keeps the shape.
proof fn lemma_open_keeps_shape(s: FsView, start: u64, comps: Seq<Seq<char>>, flags: u32, t1: u64, t2: u64)
    requires
        well_shaped(s),
        s.next_inode < u64::MAX,
        s.inodes.contains_key(start),
    ensures
        well_shaped(s.open_from(start, comps, flags, t1, t2).0),
{
    if let Ok(p) = s.walk_dirs(start, comps.drop_last()) {
        lemma_walk_dirs_in_table(s, start, comps.drop_last());
        let name = comps.last();
        lemma_create_keeps_shape(s, p, name, false, t1);
        let (s1, found) = match s.find(p, name) {
            Ok(c) => (s, Ok::<u64, FsError>(c)),
            Err(e) => if e == FsError::NotFound && has_flag(flags, O_CREAT) {
                s.create_op(p, name, false, t1)
            } else {
                (s, Err(e))
            },
        };
        assert(well_shaped(s1));
        if let Ok(c) = found {
            let node = s1.inodes[c];
            if has_flag(flags, O_TRUNC) && node.content is File && s1.inodes.contains_key(c) {
                assert(!node.meta.is_dir);
            }
        }
    }
}

/// A walk that starts in the table ends in it.
proof fn lemma_walk_dirs_in_table(s: FsView, cur: u64, comps: Seq<Seq<char>>)
    requires
        s.inodes.contains_key(cur),
    ensures
        s.walk_dirs(cur, comps) matches Ok(x) ==> s.inodes.contains_key(x),
    decreases comps.len(),
{
    if comps.len() > 0 {
        if let Ok(next) = s.find(cur, comps[0]) {
            lemma_walk_dirs_in_table(s, next, comps.drop_first());
        }
    }
}

/// Renaming keeps the shape.
proof fn lemma_rename_keeps_shape(s: FsView, old_path: Seq<char>, new_path: Seq<char>, t: u64)
    requires
        well_shaped(s),
    ensures
        well_shaped(s.rename_op(old_path, new_path, t).0),
{
    let oc = crate::path::components(old_path);
    let nc = crate::path::components(new_path);
    match s.parent_of(oc) {
        Ok(op) => {
            lemma_walk_dirs_reach_dirs(s, s.root, oc.drop_last());
            match s.walk_dirs(s.root, nc.drop_last()) {
                Ok(np) => {
                    lemma_walk_dirs_reach_dirs(s, s.root, nc.drop_last());
                    if s.inodes.contains_key(op) && s.inodes[op].content is Dir && s.dir_entries(op).contains_key(oc.last()) {
                        let id = s.dir_entries(op)[oc.last()];
                        lemma_entries_keep_shape(
                            s,
                            op,
                            s.dir_entries(op).remove(oc.last()).insert(nc.last(), id),
                            t,
                        );
                        lemma_entries_keep_shape(s, op, s.dir_entries(op).remove(oc.last()), t);
                        let s1 = s.remove_entry(op, oc.last(), t);
                        if s.inodes.contains_key(np) && s1.inodes[np].content is Dir {
                            lemma_entries_keep_shape(s1, np, s1.dir_entries(np).insert(nc.last(), id), t);
                        }
                    }
                },
                Err(_) => {},
            }
        },
        Err(_) => {},
    }
}

/// A walk through directories ends at a directory in the table, when it
/// starts at one.
proof fn lemma_walk_dirs_reach_dirs(s: FsView, cur: u64, comps: Seq<Seq<char>>)
    ensures
        s.inodes.contains_key(cur) && !(s.inodes[cur].content is File) ==> (s.walk_dirs(cur, comps) matches Ok(x) ==> s.inodes.contains_key(x)
            && s.inodes[x].content is Dir),
    decreases comps.len(),
{
    if comps.len() > 0 {
        match s.find(cur, comps[0]) {
            Err(_) => {},
            Ok(next) => {
                lemma_walk_dirs_reach_dirs(s, next, comps.drop_first());
            },
        }
    }
}

/// Reading, through a descriptor open for reading and writing, from where a
/// write put bytes gives back those bytes.
pub proof fn law_read_after_write(
    s: FsView,
    fd: Fd,
    offset: u64,
    data: Seq<u8>,
    t: u64,
    out: Seq<u8>,
)
    requires
        s.wf(),
        s.fd_inode(fd, O_RDONLY) is Ok,
        s.fd_inode(fd, O_WRONLY) is Ok,
        offset + data.len() <= usize::MAX,
        out.len() == data.len(),
    ensures
        s.write_at_op(fd, offset, data, t).1 == Ok::<usize, FsError>(data.len() as usize),
        s.write_at_op(fd, offset, data, t).0.read_at_pos(fd, offset, out).1 == data,
        s.write_at_op(fd, offset, data, t).0.read_at_pos(fd, offset, out).2 == Ok::<
            usize,
            FsError,
        >(data.len() as usize),
{
    let s1 = s.write_at_op(fd, offset, data, t).0;
    let id = s.fds[fd].inode_id;
    assert(s1.fds[fd].inode_id == id);
    assert(s1.fds[fd].flags == s.fds[fd].flags);
    assert(s1.is_file(id));
    assert(s1.fd_inode(fd, O_WRONLY) == Ok::<u64, FsError>(id));
    let got = s1.read_at_pos(fd, offset, out).1;
    assert(got =~= data);
}

/// The clients of one server share its files: what a client writes
/// through its descriptor, any client reads back through a descriptor on
/// the same file after seeking to where the write went.
pub proof fn law_clients_share_writes(
    s: ServerView,
    s1: ServerView,
    s2: ServerView,
    s3: ServerView,
    fd_w: u32,
    fd_r: u32,
    data: Seq<u8>,
    sid_w: Option<Seq<char>>,
    sid_r: Option<Seq<char>>,
    new_sid: Seq<char>,
    resp1: ResponseV,
    resp2: ResponseV,
    resp3: ResponseV,
)
    requires
        s.fs.wf(),
        s.fs.fd_inode(fd_w, O_RDONLY) is Ok,
        s.fs.fd_inode(fd_r, O_WRONLY) is Ok,
        s.fs.fds[fd_r].inode_id == s.fs.fds[fd_w].inode_id,
        s.fs.write_pos(fd_w) + data.len() <= usize::MAX,
        s.fs.write_pos(fd_w) + data.len() <= i64::MAX,
        handled(s, RequestV::Write { fd: fd_w, data }, sid_w, new_sid, s1, resp1),
        handled(
            s1,
            RequestV::Seek { fd: fd_r, offset: s.fs.write_pos(fd_w) as i64, whence: 0 },
            sid_r,
            new_sid,
            s2,
            resp2,
        ),
        handled(
            s2,
            RequestV::Read { fd: fd_r, length: data.len() as usize },
            sid_r,
            new_sid,
            s3,
            resp3,
        ),
    ensures
        resp1 == (ResponseV::Written { count: data.len() as u64 }),
        resp2 == (ResponseV::Position { pos: s.fs.write_pos(fd_w) as u64 }),
        resp3 == (ResponseV::Data { bytes: data }),
{
    let id = s.fs.fds[fd_w].inode_id;
    let p = s.fs.write_pos(fd_w);
    let t = choose|t: u64|
        s1 == with_fs(s, (#[trigger] s.fs.write_op(fd_w, data, t)).0) && resp1 == written_response(
            s.fs.write_op(fd_w, data, t).1,
        );
    let f1 = s.fs.write_op(fd_w, data, t).0;
    assert(s1.fs == f1);
    assert(f1.fds[fd_r].inode_id == id);
    assert(f1.fds[fd_r].flags == s.fs.fds[fd_r].flags);
    assert(f1.is_file(id));
    let nd = f1.file_data(id);
    assert(nd == write_spec(s.fs.file_data(id), p, data));
    assert(nd.len() >= p + data.len());
    assert(f1.seek_target(fd_r, p as i64, 0) == p);
    let f2 = s2.fs;
    assert(f2 == f1.set_fd(fd_r, FileHandle { position: p as u64, ..f1.fds[fd_r] }));
    assert(f2.fds[fd_r].position == p);
    assert(f2.file_data(id) == nd);
    assert(f2.fd_inode(fd_r, O_WRONLY) == Ok::<u64, FsError>(id));
    let out = zeros(data.len() as nat);
    let got = f2.read_at_pos(fd_r, p as u64, out);
    assert(got.1.take(data.len() as int) =~= data);
}

/// Through the in-process adapter, reading a descriptor at the offset a
/// write went to gives back the bytes written, in full.
pub proof fn law_guest_read_after_write(
    table: VfsStateView,
    f: FsView,
    handle: u32,
    offset: u64,
    data: Seq<u8>,
    t: u64,
)
    requires
        f.wf(),
        guest_fd(table, handle) is Ok,
        f.fd_inode(table.to_fd[handle], O_RDONLY) is Ok,
        f.fd_inode(table.to_fd[handle], O_WRONLY) is Ok,
        !has_flag(f.fds[table.to_fd[handle]].flags, O_APPEND),
        offset + data.len() <= i64::MAX,
        offset + data.len() <= usize::MAX,
    ensures
        ({
            let fd = table.to_fd[handle];
            let f1 = f.seek_op(fd, offset as i64, 0).0;
            let f2 = f1.write_op(fd, data, t).0;
            &&& f.seek_op(fd, offset as i64, 0).1 is Ok
            &&& f1.write_op(fd, data, t).1 == Ok::<usize, FsError>(data.len() as usize)
            &&& guest_read_op(table, f2, handle, data.len() as u64, offset).1 == Ok::<
                (Seq<u8>, bool),
                WasiErrorCode,
            >((data, false))
        }),
{
    let fd = table.to_fd[handle];
    let id = f.fds[fd].inode_id;
    let f1 = f.seek_op(fd, offset as i64, 0).0;
    assert(f1 == f.set_fd(fd, FileHandle { position: offset, ..f.fds[fd] }));
    assert(f1.write_pos(fd) == offset);
    let f2 = f1.write_op(fd, data, t).0;
    assert(f2.fds[fd].inode_id == id);
    assert(f2.is_file(id));
    let nd = f2.file_data(id);
    assert(nd == write_spec(f.file_data(id), offset as int, data));
    let f3 = f2.seek_op(fd, offset as i64, 0).0;
    assert(f3.fds[fd].position == offset);
    assert(f3.file_data(id) == nd);
    assert(f3.fd_inode(fd, O_WRONLY) == Ok::<u64, FsError>(id));
    let got = f3.read_op(fd, zeros((data.len() as u64 as usize) as nat));
    assert(got.1.take(data.len() as int) =~= data);
}

/// A closed descriptor is refused from then on: reads, writes and a second
/// close all report a bad descriptor.
pub proof fn law_closed_descriptor_refused(s: FsView, fd: Fd, out: Seq<u8>, data: Seq<u8>, t: u64)
    requires
        s.close_op(fd).1 is Ok,
    ensures
        s.close_op(fd).0.read_op(fd, out).2 == Err::<usize, FsError>(FsError::BadFileDescriptor),
        s.close_op(fd).0.write_op(fd, data, t).1 == Err::<usize, FsError>(FsError::BadFileDescriptor),
        s.close_op(fd).0.close_op(fd).1 == Err::<(), FsError>(FsError::BadFileDescriptor),
{
}

/// A snapshot taken of a filesystem and restored gives back the
/// filesystem, with no descriptor open and descriptors counting from 3
/// again.
pub proof fn law_snapshot_roundtrip<T: TimeProvider, U: TimeProvider>(
    fs: Fs<T>,
    snap: FsSnapshot,
    restored: Fs<U>,
)
    requires
        snap.view() == (FsView { next_fd: 3, fds: Map::empty(), ..fs@ }),
        restored@ == snap.view(),
    ensures
        restored@ == (FsView { next_fd: 3, fds: Map::<Fd, FileHandle>::empty(), ..fs@ }),
        restored@.inodes == fs@.inodes,
        restored@.root == fs@.root,
{
}

// ---------------------------------------------------------------------------
// The wire protocol
// ---------------------------------------------------------------------------

/// Every request, with or without a session, reads back from its bytes
/// with its fields intact.
pub proof fn law_request_roundtrip(sid: Option<Seq<char>>, req: RequestV)
    requires
        encode_request_message(sid, Some(req)).len() <= usize::MAX,
    ensures
        decode_request_message(encode_request_message(sid, Some(req))) == Some((sid, Some(req))),
{
    lemma_request_message_roundtrip(sid, Some(req));
}

/// Every reply the server sends reads back from its bytes as the same
/// reply.
pub proof fn law_response_roundtrip(r: Response)
    requires
        encode_response_message(Some(r@)).len() <= usize::MAX,
    ensures
        decode_response_message(encode_response_message(Some(r@))) == Some(Some(r@)),
        normalized_response(r@) == r@,
{
    lemma_response_message_roundtrip(Some(r@));
    match r {
        Response::Error { code, message } => {
            lemma_error_code_roundtrip(code);
        },
        _ => {},
    }
}

/// Every error code reads back from its wire number; an unknown number is
/// read as an I/O error.
pub proof fn law_error_codes(c: ErrorCode, other: i32)
    requires
        !(1 <= other <= 14),
    ensures
        ErrorCode::from_code(c.code_of()) == Some(c),
        ErrorCode::from_code(other) is None,
        normalized_response(ResponseV::Error { code: other, message: Seq::empty() })
            == (ResponseV::Error { code: ErrorCode::Io.code_of(), message: Seq::<char>::empty() }),
{
    lemma_error_code_roundtrip(c);
}

// ---------------------------------------------------------------------------
// The server
// ---------------------------------------------------------------------------

/// A client speaking a version the server knows gets the new session id
/// and that version; any other gets a protocol error. Nothing else changes.
pub proof fn law_connect(
    s: ServerView,
    version: u32,
    sid: Option<Seq<char>>,
    new_sid: Seq<char>,
    s2: ServerView,
    resp: ResponseV,
)
    requires
        handled(s, RequestV::Connect { version }, sid, new_sid, s2, resp),
    ensures
        s2 == s,
        1 <= version <= crate::protocol::PROTOCOL_VERSION ==> resp == (ResponseV::Connected {
            session_id: new_sid,
            version,
        }),
        !(1 <= version <= crate::protocol::PROTOCOL_VERSION) ==> resp == (ResponseV::Error {
            code: ErrorCode::ProtocolError.code_of(),
            message: version_mismatch_message(version),
        }),
{
}

/// After a close, no record mentions the descriptor and the filesystem no
/// longer has it open; the sessions stay known.
pub proof fn law_close_forgets(
    s: ServerView,
    fd: u32,
    sid: Option<Seq<char>>,
    new_sid: Seq<char>,
    s2: ServerView,
    resp: ResponseV,
)
    requires
        handled(s, RequestV::Close { fd }, sid, new_sid, s2, resp),
    ensures
        !s2.paths.contains_key(fd),
        !s2.flags.contains_key(fd),
        !s2.refreshed.contains(fd),
        forall|x: Seq<char>| !s2.session_fds.contains((x, fd)),
        !s2.fs.fds.contains_key(fd),
        s2.sessions == s.sessions,
        resp == if s.fs.fds.contains_key(fd) {
            ResponseV::Success
        } else {
            fs_error_response(FsError::BadFileDescriptor)
        },
{
}

/// A sync succeeds exactly on descriptors the server handed out, and
/// changes nothing.
pub proof fn law_fsync(
    s: ServerView,
    fd: u32,
    sid: Option<Seq<char>>,
    new_sid: Seq<char>,
    s2: ServerView,
    resp: ResponseV,
)
    requires
        handled(s, RequestV::Fsync { fd }, sid, new_sid, s2, resp),
    ensures
        s2 == s,
        (resp == ResponseV::Success) == s.flags.contains_key(fd),
{
}

/// When a client goes away, its session is forgotten, every descriptor it
/// opened is closed and forgotten, and the records of descriptors it did
/// not open stay.
pub proof fn law_session_closed(s: ServerView, sid: Seq<char>)
    ensures
        !session_closed(s, sid).sessions.contains(sid),
        forall|f: u32| !session_closed(s, sid).session_fds.contains((sid, f)),
        forall|f: u32|
            s.session_fds.contains((sid, f)) ==> !session_closed(s, sid).fs.fds.contains_key(f)
                && !session_closed(s, sid).paths.contains_key(f) && !session_closed(
                s,
                sid,
            ).flags.contains_key(f),
        forall|f: u32|
            !s.session_fds.contains((sid, f)) ==> session_closed(s, sid).fs.fds.contains_key(f)
                == s.fs.fds.contains_key(f) && session_closed(s, sid).paths.contains_key(f)
                == s.paths.contains_key(f) && session_closed(s, sid).flags.contains_key(f)
                == s.flags.contains_key(f),
        forall|x: Seq<char>, f: u32|
            x != sid && !s.session_fds.contains((sid, f)) ==> session_closed(
                s,
                sid,
            ).session_fds.contains((x, f)) == s.session_fds.contains((x, f)),
{
}

// ---------------------------------------------------------------------------
// Synchronisation bookkeeping
// ---------------------------------------------------------------------------

/// After a path is queued, its operation is the last one and the only one
/// about the path, and the operations on other paths stay queued.
pub proof fn law_enqueue(q: Seq<(bool, Seq<char>)>, upload: bool, path: Seq<char>)
    ensures
        without_path(q, path).push((upload, path)).last() == (upload, path),
        forall|i: int|
            0 <= i < without_path(q, path).len() ==> (#[trigger] without_path(q, path).push(
                (upload, path),
            )[i]).1 != path,
        forall|e: (bool, Seq<char>)|
            e.1 != path ==> (without_path(q, path).push((upload, path)).contains(e)
                <==> q.contains(e)),
{
    lemma_without_path(q, path);
    let w = without_path(q, path);
    assert forall|i: int| 0 <= i < w.len() implies (#[trigger] w.push((upload, path))[i]).1
        != path by {
        assert(w.push((upload, path))[i] == w[i]);
    }
    assert forall|e: (bool, Seq<char>)| e.1 != path implies (w.push((upload, path)).contains(e)
        <==> q.contains(e)) by {
        if w.push((upload, path)).contains(e) {
            let j = choose|j: int| 0 <= j < w.len() + 1 && w.push((upload, path))[j] == e;
            assert(j < w.len());
            assert(w[j] == e);
        }
        if w.contains(e) {
            let j = choose|j: int| 0 <= j < w.len() && w[j] == e;
            assert(w.push((upload, path))[j] == e);
        }
    }
}

/// Queueing an operation on a path keeps every path at most once in the
/// queue, and the queue loses the operations that were pending on the path
/// and gains the new one.
pub proof fn law_enqueue_one_op_per_path(q: Seq<(bool, Seq<char>)>, upload: bool, path: Seq<char>)
    requires
        paths_unique(q),
    ensures
        paths_unique(without_path(q, path).push((upload, path))),
        without_path(q, path).push((upload, path)).len() == q.len() - path_count(q, path) + 1,
        path_count(q, path) <= 1,
{
    lemma_without_path_len(q, path);
    lemma_without_path_unique(q, path);
    lemma_without_path(q, path);
    lemma_path_count_unique(q, path);
    let w = without_path(q, path);
    let e = (upload, path);
    assert forall|i: int, j: int| 0 <= i < j < w.push(e).len() implies (#[trigger] w.push(e)[i]).1
        != (#[trigger] w.push(e)[j]).1 by {
        if j < w.len() {
            assert(w.push(e)[i] == w[i] && w.push(e)[j] == w[j]);
        } else {
            assert(w.push(e)[i] == w[i]);
        }
    }
}

/// In a queue with unique paths, a path occurs at most once.
proof fn lemma_path_count_unique(q: Seq<(bool, Seq<char>)>, path: Seq<char>)
    requires
        paths_unique(q),
    ensures
        path_count(q, path) <= 1,
        path_count(q, path) == 1 ==> exists|i: int| 0 <= i < q.len() && #[trigger] q[i].1 == path,
    decreases q.len(),
{
    if q.len() > 0 {
        let d = q.drop_last();
        assert forall|i: int, j: int| 0 <= i < j < d.len() implies (#[trigger] d[i]).1 != (
        #[trigger] d[j]).1 by {
            assert(d[i] == q[i] && d[j] == q[j]);
        }
        lemma_path_count_unique(d, path);
        if q.last().1 == path && path_count(d, path) == 1 {
            let i = choose|i: int| 0 <= i < d.len() && #[trigger] d[i].1 == path;
            assert(q[i] == d[i]);
            assert(q[q.len() - 1] == q.last());
        }
        if path_count(d, path) == 1 {
            let i = choose|i: int| 0 <= i < d.len() && #[trigger] d[i].1 == path;
            assert(q[i] == d[i]);
        }
        if q.last().1 == path {
            assert(q[q.len() - 1].1 == path);
        }
    }
}

/// The parts of an upload of `len` bytes cover its bytes in order: they are
/// numbered from 1, the first starts at byte 0, each starts where the one
/// before it ended, the last ends at the end of the file, and each holds at
/// least one and at most `PART_SIZE` bytes.
pub proof fn law_parts_cover_upload(len: int, i: int)
    requires
        len > 0,
        0 <= i < (len + PART_SIZE - 1) / (PART_SIZE as int),
    ensures
        part_plan(len, i).0 == i + 1,
        i == 0 ==> part_plan(len, i).1 == 0,
        i + 1 < (len + PART_SIZE - 1) / (PART_SIZE as int) ==> part_plan(len, i + 1).1 == part_plan(
            len,
            i,
        ).2,
        i + 1 == (len + PART_SIZE - 1) / (PART_SIZE as int) ==> part_plan(len, i).2 == len,
        0 < part_plan(len, i).2 - part_plan(len, i).1 <= PART_SIZE,
{
    let p = PART_SIZE as int;
    let k = (len + p - 1) / p;
    assert(i * p < len) by (nonlinear_arith)
        requires
            0 <= i < k,
            k == (len + p - 1) / p,
            p > 0,
    ;
    if i + 1 < k {
        assert((i + 1) * p < len) by (nonlinear_arith)
            requires
                0 <= i + 1 < k,
                k == (len + p - 1) / p,
                p > 0,
        ;
    }
    if i + 1 == k {
        assert((i + 1) * p >= len) by (nonlinear_arith)
            requires
                i + 1 == k,
                k == (len + p - 1) / p,
                p > 0,
        ;
    }
    assert((i + 1) * p == i * p + p) by (nonlinear_arith);
}

/// A listed object is fetched again only when it changed: once it was
/// downloaded, or once the same contents were uploaded (the store reports
/// the entity tag recorded), it is not newer; an object never synchronised
/// is newer; one with another tag modified after the recorded local
/// modification time is newer, and one not modified after it is not.
pub proof fn law_synchronised_objects_are_not_refetched(
    o: S3ObjectInfo,
    cache: Map<Seq<char>, (Seq<char>, u64, u64, u64)>,
    size: u64,
    local_modified: u64,
    now: u64,
)
    ensures
        !crate::sync_manager::remote_is_newer(
            o,
            cache.insert(o.path@, downloaded_record(o.etag@, o.last_modified, size)),
        ),
        !crate::sync_manager::remote_is_newer(
            o,
            cache.insert(o.path@, uploaded_record(o.etag@, size, local_modified, now)),
        ),
        !cache.contains_key(o.path@) ==> crate::sync_manager::remote_is_newer(o, cache),
        cache.contains_key(o.path@) && cache[o.path@].0 != o.etag@ ==> (
        crate::sync_manager::remote_is_newer(o, cache) <==> o.last_modified > cache[o.path@].2),
        cache.contains_key(o.path@) && cache[o.path@].0 == o.etag@ ==> !crate::sync_manager::remote_is_newer(
            o,
            cache,
        ),
{
}

/// The waits between retries of a busy open add up to the budget, none
/// exceeds 500 ms, the first is 20 ms when the budget allows it, and there
/// are none for an empty budget.
pub proof fn law_backoff(budget: nat)
    ensures
        total(backoff_plan(budget, 0, FIRST_BACKOFF_MS as nat)) == budget,
        forall|i: int|
            0 <= i < backoff_plan(budget, 0, FIRST_BACKOFF_MS as nat).len() ==> #[trigger] backoff_plan(
                budget,
                0,
                FIRST_BACKOFF_MS as nat,
            )[i] <= MAX_BACKOFF_MS,
        budget >= FIRST_BACKOFF_MS ==> backoff_plan(budget, 0, FIRST_BACKOFF_MS as nat)[0]
            == FIRST_BACKOFF_MS,
        (backoff_plan(budget, 0, FIRST_BACKOFF_MS as nat).len() == 0) == (budget == 0),
{
    lemma_backoff_plan(budget, 0, FIRST_BACKOFF_MS as nat);
}

// ---------------------------------------------------------------------------
// Paths
// ---------------------------------------------------------------------------

/// `s` with its leading slashes gone starts with something else.
proof fn lemma_trimmed_has_no_leading_slash(s: Seq<char>)
    ensures
        trim_leading_slashes(s).len() == 0 || trim_leading_slashes(s)[0] != '/',
        trim_leading_slashes(trim_leading_slashes(s)) == trim_leading_slashes(s),
    decreases s.len(),
{
    if s.len() > 0 && s[0] == '/' {
        lemma_trimmed_has_no_leading_slash(s.drop_first());
    }
}

/// A normalised path starts with exactly one slash, and normalising it
/// again changes nothing.
pub proof fn law_normalize_path(path: Seq<char>)
    ensures
        (seq!['/'] + trim_leading_slashes(path))[0] == '/',
        (seq!['/'] + trim_leading_slashes(path)).len() == 1 || (seq!['/'] + trim_leading_slashes(
            path,
        ))[1] != '/',
        seq!['/'] + trim_leading_slashes(seq!['/'] + trim_leading_slashes(path)) == seq!['/']
            + trim_leading_slashes(path),
{
    let t = trim_leading_slashes(path);
    let n = seq!['/'] + t;
    lemma_trimmed_has_no_leading_slash(path);
    assert(n.drop_first() =~= t);
    assert(trim_leading_slashes(n) == trim_leading_slashes(t));
}

// ---------------------------------------------------------------------------
// Framing
// ---------------------------------------------------------------------------

/// A framed message reads back: its header announces the message's length
/// and the message follows it unchanged.
pub proof fn law_frame_roundtrip(data: Seq<u8>)
    requires
        data.len() <= u32::MAX,
    ensures
        be32_value((be32(data.len() as u32) + data).take(4)) == data.len(),
        (be32(data.len() as u32) + data).skip(4) == data,
{
    let n = data.len() as u32;
    let f = be32(n) + data;
    assert(f.take(4) =~= be32(n));
    assert(f.skip(4) =~= data);
    let (b0, b1, b2, b3) = ((n >> 24u32) as u8, ((n >> 16u32) & 0xff) as u8, ((n >> 8u32) & 0xff) as u8, (n & 0xff) as u8);
    assert(b0 * 16777216 + b1 * 65536 + b2 * 256 + b3 == n) by (bit_vector)
        requires
            b0 == (n >> 24u32) as u8,
            b1 == ((n >> 16u32) & 0xff) as u8,
            b2 == ((n >> 8u32) & 0xff) as u8,
            b3 == (n & 0xff) as u8;
}

// ---------------------------------------------------------------------------
// Descriptors of the RPC adapter
// ---------------------------------------------------------------------------

/// The table and what is closed when `n` output streams on `d` go away one
/// after another.
pub open spec fn streams_closed(s: RpcStateView, d: u32, n: nat) -> (RpcStateView, Seq<Option<u32>>)
    decreases n,
{
    if n == 0 {
        (s, seq![])
    } else {
        let (s1, r) = after_stream_closed(s, d);
        let (s2, rs) = streams_closed(s1, d, (n - 1) as nat);
        (s2, seq![r] + rs)
    }
}

/// With `d` dropped and `m` streams still open on it, closing them closes
/// its server descriptor once, with the last of them, and forgets `d`.
proof fn lemma_streams_closed(t: RpcStateView, d: u32, fd: u32, m: nat)
    requires
        t.pending.contains(d),
        t.to_fd.contains_key(d),
        t.to_fd[d] == fd,
        live_count(t, d) == m,
        m > 0,
    ensures
        streams_closed(t, d, m).1.len() == m,
        forall|i: int| 0 <= i < m - 1 ==> (#[trigger] streams_closed(t, d, m).1[i]) is None,
        streams_closed(t, d, m).1[m - 1] == Some(fd),
        !streams_closed(t, d, m).0.to_fd.contains_key(d),
    decreases m,
{
    let (t1, r) = after_stream_closed(t, d);
    let rest = streams_closed(t1, d, (m - 1) as nat);
    assert(streams_closed(t, d, m) == (rest.0, seq![r] + rest.1));
    if m == 1 {
        assert(r == Some(fd));
        assert(rest.1 =~= Seq::<Option<u32>>::empty());
    } else {
        assert(r is None);
        assert(live_count(t1, d) == m - 1);
        lemma_streams_closed(t1, d, fd, (m - 1) as nat);
        assert forall|i: int| 0 <= i < m - 1 implies (#[trigger] streams_closed(t, d, m).1[i]) is None by {
            if i > 0 {
                assert(streams_closed(t, d, m).1[i] == rest.1[i - 1]);
            }
        }
    }
}

/// A guest descriptor dropped while output streams are still open on it
/// is not closed then: its server descriptor is closed exactly once, when
/// the last of those streams goes away, and the descriptor is forgotten.
pub proof fn law_close_waits_for_streams(s: RpcStateView, d: u32)
    requires
        s.to_fd.contains_key(d),
        live_count(s, d) > 0,
    ensures
        after_descriptor_dropped(s, d).1 is None,
        ({
            let k = live_count(s, d) as nat;
            let (t, rs) = streams_closed(after_descriptor_dropped(s, d).0, d, k);
            &&& rs.len() == k
            &&& forall|i: int| 0 <= i < k - 1 ==> (#[trigger] rs[i]) is None
            &&& rs[k - 1] == Some(s.to_fd[d])
            &&& !t.to_fd.contains_key(d)
        }),
{
    let t = after_descriptor_dropped(s, d).0;
    assert(live_count(t, d) == live_count(s, d));
    lemma_streams_closed(t, d, s.to_fd[d], live_count(s, d) as nat);
}

// ---------------------------------------------------------------------------
// What a request's handling depends on
// ---------------------------------------------------------------------------

/// The session id a server holds ready for a connecting client reaches
/// nothing but the reply to a connect: for any other request, the states
/// and replies the handling can lead to are the same whatever that id is.
pub proof fn law_new_session_id_only_answers_connect(
    s: ServerView,
    req: RequestV,
    sid: Option<Seq<char>>,
    a1: Seq<char>,
    a2: Seq<char>,
    s2: ServerView,
    resp: ResponseV,
)
    requires
        !(req is Connect),
    ensures
        handled(s, req, sid, a1, s2, resp) == handled(s, req, sid, a2, s2, resp),
{
}

/// Requests that stamp no time are handled in one way only: equal states
/// and the same request give equal states and equal replies, whatever the
/// session id held ready for a connect.
pub proof fn law_unstamped_requests_deterministic(
    s: ServerView,
    req: RequestV,
    sid: Option<Seq<char>>,
    a1: Seq<char>,
    a2: Seq<char>,
    s2: ServerView,
    r2: ResponseV,
    s3: ServerView,
    r3: ResponseV,
)
    requires
        req is Read || req is Close || req is Fsync || req is Seek || req is Fstat || req is Stat
            || req is Readdir || req is ReaddirFd,
        handled(s, req, sid, a1, s2, r2),
        handled(s, req, sid, a2, s3, r3),
    ensures
        s2 == s3,
        r2 == r3,
{
    match req {
        RequestV::Readdir { path } => {
            lemma_listing_unique(s, path, r2, r3);
        },
        RequestV::ReaddirFd { fd } => {
            lemma_fd_listing_unique(s, fd, r2, r3);
        },
        _ => {},
    }
}

/// Two lists of names, each in increasing order, holding the same names
/// are the same list.
proof fn lemma_sorted_unique(a: Seq<Seq<char>>, b: Seq<Seq<char>>)
    requires
        names_sorted(a),
        names_sorted(b),
        forall|k: Seq<char>| a.contains(k) <==> b.contains(k),
    ensures
        a == b,
    decreases a.len(),
{
    if a.len() == 0 {
        if b.len() > 0 {
            assert(b.contains(b[0]));
        }
        assert(a =~= b);
    } else {
        assert(a.contains(a[0]));
        assert(b.len() > 0);
        if a[0] != b[0] {
            let j = choose|j: int| 0 <= j < b.len() && b[j] == a[0];
            assert(b.contains(b[0]));
            let i = choose|i: int| 0 <= i < a.len() && a[i] == b[0];
            assert(j > 0 && i > 0);
            assert(name_lt(b[0], a[0]));
            assert(name_lt(a[0], b[0]));
            lemma_name_lt_transitive(a[0], b[0], a[0]);
            lemma_name_lt_irreflexive(a[0]);
        }
        let a1 = a.drop_first();
        let b1 = b.drop_first();
        assert forall|k: Seq<char>| a1.contains(k) <==> b1.contains(k) by {
            if a1.contains(k) {
                let i = choose|i: int| 0 <= i < a1.len() && a1[i] == k;
                assert(a[i + 1] == k);
                lemma_name_lt_irreflexive(k);
                assert(k != a[0]);
                assert(a.contains(k));
                let j = choose|j: int| 0 <= j < b.len() && b[j] == k;
                assert(j != 0);
                assert(b1[j - 1] == k);
            }
            if b1.contains(k) {
                let j = choose|j: int| 0 <= j < b1.len() && b1[j] == k;
                assert(b[j + 1] == k);
                lemma_name_lt_irreflexive(k);
                assert(k != b[0]);
                assert(b.contains(k));
                let i = choose|i: int| 0 <= i < a.len() && a[i] == k;
                assert(i != 0);
                assert(a1[i - 1] == k);
            }
        }
        lemma_sorted_unique(a1, b1);
        assert(a =~= b) by {
            assert forall|i: int| 0 <= i < a.len() implies a[i] == b[i] by {
                if i > 0 {
                    assert(a[i] == a1[i - 1]);
                    assert(b[i] == b1[i - 1]);
                }
            }
        }
    }
}

/// Two listings with the same names in order, each name marked the same
/// way, are the same listing.
proof fn lemma_entries_equal(e1: Seq<(Seq<char>, bool)>, e2: Seq<(Seq<char>, bool)>)
    requires
        entry_names(e1) == entry_names(e2),
        forall|i: int, j: int|
            0 <= i < e1.len() && 0 <= j < e2.len() && e1[i].0 == e2[j].0 ==> e1[i].1 == e2[j].1,
    ensures
        e1 == e2,
{
    assert(e1.len() == entry_names(e1).len());
    assert(e2.len() == entry_names(e2).len());
    assert forall|i: int| 0 <= i < e1.len() implies e1[i] == e2[i] by {
        assert(entry_names(e1)[i] == entry_names(e2)[i]);
    }
    assert(e1 =~= e2);
}

proof fn lemma_listing_unique(s: ServerView, path: Seq<char>, r2: ResponseV, r3: ResponseV)
    requires
        listing_response(s.fs, path, r2),
        listing_response(s.fs, path, r3),
    ensures
        r2 == r3,
{
    if let Ok(id) = s.fs.readdir_target(path) {
        let e2 = r2->DirEntries_entries;
        let e3 = r3->DirEntries_entries;
        assert forall|k: Seq<char>| entry_names(e2).contains(k) <==> entry_names(e3).contains(k) by {
            assert(entry_names(e2).to_set().contains(k) == entry_names(e2).contains(k));
            assert(entry_names(e3).to_set().contains(k) == entry_names(e3).contains(k));
        }
        lemma_sorted_unique(entry_names(e2), entry_names(e3));
        assert forall|i: int, j: int|
            0 <= i < e2.len() && 0 <= j < e3.len() && e2[i].0 == e3[j].0 implies e2[i].1 == e3[j].1 by {
            assert(e2[i].1 == (s.fs.stat_op(child_path(path, e2[i].0)) matches Ok(m) && m.is_dir));
            assert(e3[j].1 == (s.fs.stat_op(child_path(path, e3[j].0)) matches Ok(m) && m.is_dir));
        }
        lemma_entries_equal(e2, e3);
    }
}

proof fn lemma_fd_listing_unique(s: ServerView, fd: u32, r2: ResponseV, r3: ResponseV)
    requires
        fd_listing_response(s.fs, fd, r2),
        fd_listing_response(s.fs, fd, r3),
    ensures
        r2 == r3,
{
    let f = s.fs;
    if f.fds.contains_key(fd) && f.inodes.contains_key(f.fds[fd].inode_id) && !f.is_file(f.fds[fd].inode_id) {
        let m = f.dir_entries(f.fds[fd].inode_id);
        let e2 = r2->DirEntries_entries;
        let e3 = r3->DirEntries_entries;
        assert forall|k: Seq<char>| entry_names(e2).contains(k) <==> entry_names(e3).contains(k) by {
            assert(entry_names(e2).contains(k) <==> (m.contains_key(k) && f.inodes.contains_key(m[k])));
            assert(entry_names(e3).contains(k) <==> (m.contains_key(k) && f.inodes.contains_key(m[k])));
        }
        lemma_sorted_unique(entry_names(e2), entry_names(e3));
        assert forall|i: int, j: int|
            0 <= i < e2.len() && 0 <= j < e3.len() && e2[i].0 == e3[j].0 implies e2[i].1 == e3[j].1 by {
            assert(e2[i].1 == f.inodes[m[e2[i].0]].meta.is_dir);
            assert(e3[j].1 == f.inodes[m[e3[j].0]].meta.is_dir);
        }
        lemma_entries_equal(e2, e3);
    }
}

/// `a` and `b` are the same filesystem but for the times they record.
pub open spec fn same_but_times(a: FsView, b: FsView) -> bool {
    &&& a.root == b.root
    &&& a.next_inode == b.next_inode
    &&& a.next_fd == b.next_fd
    &&& a.fds == b.fds
    &&& a.inodes.dom() == b.inodes.dom()
    &&& forall|k: u64|
        #[trigger] a.inodes.contains_key(k) ==> a.inodes[k].id == b.inodes[k].id
            && a.inodes[k].content == b.inodes[k].content
            && a.inodes[k].meta.is_dir == b.inodes[k].meta.is_dir
            && a.inodes[k].meta.size == b.inodes[k].meta.size
            && a.inodes[k].meta.permissions == b.inodes[k].meta.permissions
}

/// `mkdir -p` ends the same way, and in the same filesystem but for the
/// times, from two filesystems that differ only in their times.
proof fn lemma_mkdir_p_walk_times(
    a: FsView,
    b: FsView,
    cur: u64,
    comps: Seq<Seq<char>>,
    ts: Seq<u64>,
    us: Seq<u64>,
)
    requires
        same_but_times(a, b),
        a.inodes.contains_key(cur),
    ensures
        a.mkdir_p_walk(cur, comps, ts).1 == b.mkdir_p_walk(cur, comps, us).1,
        same_but_times(a.mkdir_p_walk(cur, comps, ts).0, b.mkdir_p_walk(cur, comps, us).0),
    decreases comps.len(),
{
    if comps.len() > 0 {
        let c = comps[0];
        assert(a.inodes[cur].content == b.inodes[cur].content);
        assert(a.find(cur, c) == b.find(cur, c));
        match a.find(cur, c) {
            Ok(next) => {
                lemma_mkdir_p_walk_times(
                    a,
                    b,
                    next,
                    comps.drop_first(),
                    ts.drop_first(),
                    us.drop_first(),
                );
            },
            Err(e) => {
                if e == FsError::NotFound {
                    let (a1, ra) = a.create_op(cur, c, true, ts[0]);
                    let (b1, rb) = b.create_op(cur, c, true, us[0]);
                    assert(ra == rb);
                    assert(a1.inodes.dom() =~= b1.inodes.dom());
                    assert(same_but_times(a1, b1));
                    if let Ok(next) = ra {
                        lemma_mkdir_p_walk_times(
                            a1,
                            b1,
                            next,
                            comps.drop_first(),
                            ts.drop_first(),
                            us.drop_first(),
                        );
                    }
                }
            },
        }
    }
}

proof fn lemma_write_times(f: FsView, fd: Fd, data: Seq<u8>, t: u64, u: u64)
    ensures
        f.write_op(fd, data, t).1 == f.write_op(fd, data, u).1,
        f.append_write_op(fd, data, t).1 == f.append_write_op(fd, data, u).1,
        f.write_op(fd, data, t).0.inodes.dom() =~= f.write_op(fd, data, u).0.inodes.dom(),
        f.append_write_op(fd, data, t).0.inodes.dom() =~= f.append_write_op(fd, data, u).0.inodes.dom(),
        same_but_times(f.write_op(fd, data, t).0, f.write_op(fd, data, u).0),
        same_but_times(f.append_write_op(fd, data, t).0, f.append_write_op(fd, data, u).0),
{
}

proof fn lemma_ftruncate_times(f: FsView, fd: Fd, size: u64, t: u64, u: u64)
    ensures
        f.ftruncate_op(fd, size, t).1 == f.ftruncate_op(fd, size, u).1,
        f.ftruncate_op(fd, size, t).0.inodes.dom() =~= f.ftruncate_op(fd, size, u).0.inodes.dom(),
        same_but_times(f.ftruncate_op(fd, size, t).0, f.ftruncate_op(fd, size, u).0),
{
}

proof fn lemma_mkdir_times(f: FsView, path: Seq<char>, t: u64, u: u64)
    ensures
        f.mkdir_op(path, t).1 == f.mkdir_op(path, u).1,
        f.mkdir_op(path, t).0.inodes.dom() =~= f.mkdir_op(path, u).0.inodes.dom(),
        same_but_times(f.mkdir_op(path, t).0, f.mkdir_op(path, u).0),
{
}

proof fn lemma_remove_times(f: FsView, path: Seq<char>, t: u64, u: u64)
    ensures
        f.unlink_op(path, t).1 == f.unlink_op(path, u).1,
        f.unlink_op(path, t).0.inodes.dom() =~= f.unlink_op(path, u).0.inodes.dom(),
        same_but_times(f.unlink_op(path, t).0, f.unlink_op(path, u).0),
        f.rmdir_op(path, t).1 == f.rmdir_op(path, u).1,
        f.rmdir_op(path, t).0.inodes.dom() =~= f.rmdir_op(path, u).0.inodes.dom(),
        same_but_times(f.rmdir_op(path, t).0, f.rmdir_op(path, u).0),
{
}

proof fn lemma_rename_times(f: FsView, old_path: Seq<char>, new_path: Seq<char>, t: u64, u: u64)
    ensures
        f.rename_op(old_path, new_path, t).1 == f.rename_op(old_path, new_path, u).1,
        f.rename_op(old_path, new_path, t).0.inodes.dom() =~= f.rename_op(old_path, new_path, u).0.inodes.dom(),
        same_but_times(f.rename_op(old_path, new_path, t).0, f.rename_op(old_path, new_path, u).0),
{
}

proof fn lemma_open_times(f: FsView, start: u64, comps: Seq<Seq<char>>, flags: u32, t1: u64, t2: u64, u1: u64, u2: u64)
    ensures
        f.open_from(start, comps, flags, t1, t2).1 == f.open_from(start, comps, flags, u1, u2).1,
        f.open_from(start, comps, flags, t1, t2).0.inodes.dom() =~= f.open_from(start, comps, flags, u1, u2).0.inodes.dom(),
        same_but_times(f.open_from(start, comps, flags, t1, t2).0, f.open_from(start, comps, flags, u1, u2).0),
{
}

/// The same reply and the same server but for the filesystem's times.
pub open spec fn same_outcome(s2: ServerView, r2: ResponseV, s3: ServerView, r3: ResponseV) -> bool {
    &&& r2 == r3
    &&& same_but_times(s2.fs, s3.fs)
    &&& s2.paths == s3.paths
    &&& s2.flags == s3.flags
    &&& s2.sessions == s3.sessions
    &&& s2.session_fds == s3.session_fds
    &&& s2.refreshed == s3.refreshed
}

proof fn lemma_same_but_times_refl(f: FsView)
    ensures
        same_but_times(f, f),
{
}

/// Whatever times the filesystem records, handling a request from equal
/// states gives the same reply and the same state but for those times.
pub proof fn law_replies_deterministic(
    s: ServerView,
    req: RequestV,
    sid: Option<Seq<char>>,
    a: Seq<char>,
    s2: ServerView,
    r2: ResponseV,
    s3: ServerView,
    r3: ResponseV,
)
    requires
        handled(s, req, sid, a, s2, r2),
        handled(s, req, sid, a, s3, r3),
    ensures
        same_outcome(s2, r2, s3, r3),
{
    lemma_same_but_times_refl(s.fs);
    match req {
        RequestV::Readdir { path } => {
            lemma_listing_unique(s, path, r2, r3);
        },
        RequestV::ReaddirFd { fd } => {
            lemma_fd_listing_unique(s, fd, r2, r3);
        },
        RequestV::OpenPath { path, flags } => {
            lemma_open_path_outcome(s, path, flags, sid, s2, r2, s3, r3);
        },
        RequestV::OpenAt { dir_fd, path, flags } => {
            lemma_open_at_outcome(s, dir_fd, path, flags, sid, s2, r2, s3, r3);
        },
        RequestV::Write { fd, data } => {
            let t = choose|t: u64|
                s2 == with_fs(s, (#[trigger] s.fs.write_op(fd, data, t)).0) && r2 == written_response(
                    s.fs.write_op(fd, data, t).1,
                );
            let u = choose|t: u64|
                s3 == with_fs(s, (#[trigger] s.fs.write_op(fd, data, t)).0) && r3 == written_response(
                    s.fs.write_op(fd, data, t).1,
                );
            lemma_write_times(s.fs, fd, data, t, u);
        },
        RequestV::AppendWrite { fd, data } => {
            let t = choose|t: u64|
                s2 == with_fs(s, (#[trigger] s.fs.append_write_op(fd, data, t)).0) && r2
                    == written_response(s.fs.append_write_op(fd, data, t).1);
            let u = choose|t: u64|
                s3 == with_fs(s, (#[trigger] s.fs.append_write_op(fd, data, t)).0) && r3
                    == written_response(s.fs.append_write_op(fd, data, t).1);
            lemma_write_times(s.fs, fd, data, t, u);
        },
        RequestV::Ftruncate { fd, size } => {
            let t = choose|t: u64|
                s2 == with_fs(s, (#[trigger] s.fs.ftruncate_op(fd, size, t)).0) && r2 == done_response(
                    s.fs.ftruncate_op(fd, size, t).1,
                );
            let u = choose|t: u64|
                s3 == with_fs(s, (#[trigger] s.fs.ftruncate_op(fd, size, t)).0) && r3 == done_response(
                    s.fs.ftruncate_op(fd, size, t).1,
                );
            lemma_ftruncate_times(s.fs, fd, size, t, u);
        },
        RequestV::Mkdir { path } => {
            let t = choose|t: u64|
                s2 == with_fs(s, (#[trigger] s.fs.mkdir_op(path, t)).0) && r2 == done_response(
                    s.fs.mkdir_op(path, t).1,
                );
            let u = choose|t: u64|
                s3 == with_fs(s, (#[trigger] s.fs.mkdir_op(path, t)).0) && r3 == done_response(
                    s.fs.mkdir_op(path, t).1,
                );
            lemma_mkdir_times(s.fs, path, t, u);
        },
        RequestV::MkdirP { path } => {
            lemma_mkdir_p_outcome(s, path, s2, r2, s3, r3);
        },
        RequestV::Unlink { path } => {
            let t = choose|t: u64|
                s2 == with_fs(s, (#[trigger] s.fs.unlink_op(path, t)).0) && r2 == done_response(
                    s.fs.unlink_op(path, t).1,
                );
            let u = choose|t: u64|
                s3 == with_fs(s, (#[trigger] s.fs.unlink_op(path, t)).0) && r3 == done_response(
                    s.fs.unlink_op(path, t).1,
                );
            lemma_remove_times(s.fs, path, t, u);
        },
        RequestV::Rmdir { path } => {
            let t = choose|t: u64|
                s2 == with_fs(s, (#[trigger] s.fs.rmdir_op(path, t)).0) && r2 == done_response(
                    s.fs.rmdir_op(path, t).1,
                );
            let u = choose|t: u64|
                s3 == with_fs(s, (#[trigger] s.fs.rmdir_op(path, t)).0) && r3 == done_response(
                    s.fs.rmdir_op(path, t).1,
                );
            lemma_remove_times(s.fs, path, t, u);
        },
        RequestV::Rename { old_path, new_path } => {
            let t = choose|t: u64|
                s2 == with_fs(s, (#[trigger] s.fs.rename_op(old_path, new_path, t)).0) && r2
                    == done_response(s.fs.rename_op(old_path, new_path, t).1);
            let u = choose|t: u64|
                s3 == with_fs(s, (#[trigger] s.fs.rename_op(old_path, new_path, t)).0) && r3
                    == done_response(s.fs.rename_op(old_path, new_path, t).1);
            lemma_rename_times(s.fs, old_path, new_path, t, u);
        },
        _ => {},
    }
}

proof fn lemma_open_path_outcome(
    s: ServerView,
    path: Seq<char>,
    flags: u32,
    sid: Option<Seq<char>>,
    s2: ServerView,
    r2: ResponseV,
    s3: ServerView,
    r3: ResponseV,
)
    requires
        open_path_handled(s, path, flags, sid, s2, r2),
        open_path_handled(s, path, flags, sid, s3, r3),
    ensures
        same_outcome(s2, r2, s3, r3),
{
    let f = s.fs;
    let (t1, t2) = choose|t1: u64, t2: u64|
        #[trigger] opened(
            s,
            f.open_path_op(path, flags, t1, t2).0,
            f.open_path_op(path, flags, t1, t2).1,
            Some(path),
            flags,
            sid,
            s2,
            r2,
        );
    let (u1, u2) = choose|t1: u64, t2: u64|
        #[trigger] opened(
            s,
            f.open_path_op(path, flags, t1, t2).0,
            f.open_path_op(path, flags, t1, t2).1,
            Some(path),
            flags,
            sid,
            s3,
            r3,
        );
    lemma_same_but_times_refl(f);
    lemma_open_times(f, f.root, crate::path::components(path), flags, t1, t2, u1, u2);
}

proof fn lemma_open_at_outcome(
    s: ServerView,
    dir_fd: u32,
    path: Seq<char>,
    flags: u32,
    sid: Option<Seq<char>>,
    s2: ServerView,
    r2: ResponseV,
    s3: ServerView,
    r3: ResponseV,
)
    requires
        open_at_handled(s, dir_fd, path, flags, sid, s2, r2),
        open_at_handled(s, dir_fd, path, flags, sid, s3, r3),
    ensures
        same_outcome(s2, r2, s3, r3),
{
    let f = s.fs;
    let (t1, t2) = choose|t1: u64, t2: u64|
        #[trigger] opened(
            s,
            f.open_at_op(dir_fd, path, flags, t1, t2).0,
            f.open_at_op(dir_fd, path, flags, t1, t2).1,
            open_at_path(s, dir_fd, path),
            flags,
            sid,
            s2,
            r2,
        );
    let (u1, u2) = choose|t1: u64, t2: u64|
        #[trigger] opened(
            s,
            f.open_at_op(dir_fd, path, flags, t1, t2).0,
            f.open_at_op(dir_fd, path, flags, t1, t2).1,
            open_at_path(s, dir_fd, path),
            flags,
            sid,
            s3,
            r3,
        );
    lemma_same_but_times_refl(f);
    if f.fds.contains_key(dir_fd) {
        lemma_open_times(f, f.fds[dir_fd].inode_id, crate::path::components(path), flags, t1, t2, u1, u2);
    }
}

proof fn lemma_mkdir_p_outcome(
    s: ServerView,
    path: Seq<char>,
    s2: ServerView,
    r2: ResponseV,
    s3: ServerView,
    r3: ResponseV,
)
    requires
        mkdir_p_handled(s, path, s2, r2),
        mkdir_p_handled(s, path, s3, r3),
    ensures
        same_outcome(s2, r2, s3, r3),
{
    let f = s.fs;
    let ts = choose|ts: Seq<u64>|
        s2 == with_fs(s, (#[trigger] f.mkdir_p_op(path, ts)).0) && r2 == done_response(
            f.mkdir_p_op(path, ts).1,
        );
    let us = choose|ts: Seq<u64>|
        s3 == with_fs(s, (#[trigger] f.mkdir_p_op(path, ts)).0) && r3 == done_response(
            f.mkdir_p_op(path, ts).1,
        );
    lemma_same_but_times_refl(f);
    if f.inodes.contains_key(f.root) {
        lemma_mkdir_p_walk_times(f, f, f.root, crate::path::components(path), ts, us);
    }
}

/// Handling a request is a function of the state, the counter the
/// timestamps come from, the request, the session and the id held ready for
/// a connect: two runs from equal states and counters end in equal states,
/// equal counters and equal replies.
pub proof fn law_handling_deterministic(
    s: ServerView,
    c: MonotonicCounter,
    req: RequestV,
    sid: Option<Seq<char>>,
    a: Seq<char>,
    s2: ServerView,
    c2: MonotonicCounter,
    r2: ResponseV,
    s3: ServerView,
    c3: MonotonicCounter,
    r3: ResponseV,
)
    requires
        handled_timed(s, c, req, sid, a, s2, c2, r2),
        handled_timed(s, c, req, sid, a, s3, c3, r3),
    ensures
        s2 == s3,
        c2 == c3,
        r2 == r3,
{
    match req {
        RequestV::Connect { .. } => {},
        RequestV::OpenPath { .. } => {},
        RequestV::OpenAt { .. } => {},
        RequestV::Write { .. } => {},
        RequestV::AppendWrite { .. } => {},
        RequestV::Ftruncate { .. } => {},
        RequestV::Mkdir { .. } => {},
        RequestV::MkdirP { .. } => {},
        RequestV::Unlink { .. } => {},
        RequestV::Rmdir { .. } => {},
        RequestV::Rename { .. } => {},
        _ => {
            law_unstamped_requests_deterministic(s, req, sid, a, a, s2, r2, s3, r3);
        },
    }
}

/// The id a server holds ready for a connecting client reaches nothing but
/// the reply to a connect: two runs of any other request from equal states
/// and counters, with different ids held ready, end in equal states, equal
/// counters and equal replies.
pub proof fn law_new_session_id_changes_no_other_outcome(
    s: ServerView,
    c: MonotonicCounter,
    req: RequestV,
    sid: Option<Seq<char>>,
    a1: Seq<char>,
    a2: Seq<char>,
    s2: ServerView,
    c2: MonotonicCounter,
    r2: ResponseV,
    s3: ServerView,
    c3: MonotonicCounter,
    r3: ResponseV,
)
    requires
        !(req is Connect),
        handled_timed(s, c, req, sid, a1, s2, c2, r2),
        handled_timed(s, c, req, sid, a2, s3, c3, r3),
    ensures
        s2 == s3,
        c2 == c3,
        r2 == r3,
{
    law_new_session_id_only_answers_connect(s, req, sid, a1, a2, s3, r3);
    assert(handled_timed(s, c, req, sid, a1, s3, c3, r3));
    law_handling_deterministic(s, c, req, sid, a1, s2, c2, r2, s3, c3, r3);
}

} // verus!
