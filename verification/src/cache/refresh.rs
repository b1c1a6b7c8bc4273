//! Keeping the local mirror fresh: the staleness window, and the diff
//! between the locally cached index and the remote one that decides
//! which manifests to download and which cached files to delete.
use vstd::prelude::*;

verus! {

use crate::cache::index::DESCRIPTOR_WIDTH;
use crate::cache::index::IndexMap;
use crate::cache::index::index_lookup;
use crate::text::has_prefix;
use crate::text::starts_with_str;
use vstd::string::StrSliceExecFns;

/// How long a local index stays fresh before the remote one is checked
/// again: six hours, in seconds.
pub const DEFAULT_FRESHNESS_WINDOW_SECS: u64 = 21600;

/// Whether the local index must be refreshed: it is stale when it is
/// absent or unreadable, or when its last-modified time lies further
/// back than the freshness window.
pub fn is_stale(now_secs: u64, modified_secs: Option<u64>, freshness_window_secs: u64) -> (r: bool)
    ensures
        match modified_secs {
            Option::None => r == true,
            Option::Some(m) => r == (m + freshness_window_secs < now_secs),
        },
{
    match modified_secs {
        Option::None => true,
        Option::Some(m) => {
            if m >= now_secs {
                false
            } else {
                now_secs - m > freshness_window_secs
            }
        },
    }
}

/// The full index lines of the remote entries that must be downloaded:
/// those whose logical name is absent from the local index or recorded
/// there with a different line, in remote order.
pub open spec fn to_download(
    local: Seq<(Seq<char>, Seq<char>)>,
    remote: Seq<(Seq<char>, Seq<char>)>,
) -> Seq<Seq<char>>
    decreases remote.len(),
{
    if remote.len() == 0 {
        Seq::empty()
    } else if index_lookup(local, remote[0].0) == Option::Some(remote[0].1) {
        to_download(local, remote.drop_first())
    } else {
        seq![remote[0].1] + to_download(local, remote.drop_first())
    }
}

/// Diffs the remote index against the local one: exactly the remote
/// entries that are new or changed are downloaded, and an unchanged
/// entry never is.
pub fn stale_entries(local: &IndexMap, remote: &IndexMap) -> (r: Vec<String>)
    ensures
        r.deep_view() == to_download(local@, remote@),
{
    let n = remote.len();
    let mut out: Vec<String> = Vec::new();
    let mut i: usize = 0;
    proof {
        assert(remote@.skip(0) =~= remote@);
        assert(out.deep_view() =~= Seq::<Seq<char>>::empty());
    }
    while i < n
        invariant
            n == remote@.len(),
            i <= n,
            to_download(local@, remote@) == out.deep_view() + to_download(
                local@,
                remote@.skip(i as int),
            ),
        decreases n - i,
    {
        proof {
            assert(remote@.skip(i as int)[0] == remote@[i as int]);
            assert(remote@.skip(i as int).drop_first() =~= remote@.skip(i + 1));
        }
        let entry = remote.entry(i);
        let unchanged = match local.get(entry.0.as_str()) {
            Option::Some(line) => crate::text::str_eq(line.as_str(), entry.1.as_str()),
            Option::None => false,
        };
        if !unchanged {
            let ghost pre = out.deep_view();
            out.push(entry.1.clone());
            proof {
                assert(out.deep_view() =~= pre.push(remote@[i as int].1));
                assert(out.deep_view() + to_download(local@, remote@.skip(i + 1)) =~= pre
                    + to_download(local@, remote@.skip(i as int)));
            }
        }
        i = i + 1;
    }
    proof {
        assert(to_download(local@, remote@.skip(i as int)) =~= Seq::<Seq<char>>::empty());
        assert(out.deep_view() =~= to_download(local@, remote@));
    }
    out
}

/// A cached file name that follows the manifest naming convention: it
/// starts with the manifest marker and carries at least the descriptor
/// suffix.
pub open spec fn is_manifest_file(f: Seq<char>) -> bool {
    has_prefix(f, "Export"@) && f.len() >= DESCRIPTOR_WIDTH
}

/// The cached manifest files that are stale: those following the naming
/// convention whose logical name the remote index no longer records, or
/// records with a different line, in listing order.
pub open spec fn to_delete(files: Seq<Seq<char>>, remote: Seq<(Seq<char>, Seq<char>)>) -> Seq<
    Seq<char>,
>
    decreases files.len(),
{
    if files.len() == 0 {
        Seq::empty()
    } else if is_manifest_file(files[0]) && index_lookup(
        remote,
        files[0].take(files[0].len() - DESCRIPTOR_WIDTH as int),
    ) != Option::Some(files[0]) {
        seq![files[0]] + to_delete(files.drop_first(), remote)
    } else {
        to_delete(files.drop_first(), remote)
    }
}

/// Picks from a cache directory listing the manifest files whose
/// descriptor no longer matches the remote index, or which no longer
/// exist remotely; only those are deleted.
pub fn stale_files(file_names: &Vec<String>, remote: &IndexMap) -> (r: Vec<String>)
    ensures
        r.deep_view() == to_delete(file_names.deep_view(), remote@),
{
    let n = file_names.len();
    let ghost fv = file_names.deep_view();
    let mut out: Vec<String> = Vec::new();
    let mut i: usize = 0;
    proof {
        assert(fv.skip(0) =~= fv);
        assert(out.deep_view() =~= Seq::<Seq<char>>::empty());
    }
    while i < n
        invariant
            n == file_names.len(),
            i <= n,
            fv == file_names.deep_view(),
            fv.len() == n,
            forall|j: int| 0 <= j < n ==> fv[j] == (#[trigger] file_names@[j])@,
            to_delete(fv, remote@) == out.deep_view() + to_delete(fv.skip(i as int), remote@),
        decreases n - i,
    {
        proof {
            assert(fv.skip(i as int)[0] == fv[i as int]);
            assert(fv.skip(i as int).drop_first() =~= fv.skip(i + 1));
        }
        let f = &file_names[i];
        let len = f.as_str().unicode_len();
        let candidate = starts_with_str(f.as_str(), "Export") && len >= DESCRIPTOR_WIDTH;
        let mut stale = false;
        if candidate {
            let name = f.as_str().substring_char(0, len - DESCRIPTOR_WIDTH);
            proof {
                assert(name@ =~= fv[i as int].take(fv[i as int].len() - DESCRIPTOR_WIDTH as int));
            }
            stale = match remote.get(name) {
                Option::Some(line) => !crate::text::str_eq(line.as_str(), f.as_str()),
                Option::None => true,
            };
        }
        if stale {
            let ghost pre = out.deep_view();
            out.push(f.clone());
            proof {
                assert(out.deep_view() =~= pre.push(fv[i as int]));
                assert(out.deep_view() + to_delete(fv.skip(i + 1), remote@) =~= pre + to_delete(
                    fv.skip(i as int),
                    remote@,
                ));
            }
        } else {
            proof {
                assert(!(is_manifest_file(fv[i as int]) && index_lookup(
                    remote@,
                    fv[i as int].take(fv[i as int].len() - DESCRIPTOR_WIDTH as int),
                ) != Option::Some(fv[i as int])));
            }
        }
        i = i + 1;
    }
    proof {
        assert(to_delete(fv.skip(i as int), remote@) =~= Seq::<Seq<char>>::empty());
        assert(out.deep_view() =~= to_delete(fv, remote@));
    }
    out
}

} // verus!
