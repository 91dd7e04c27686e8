//! The scanner: a work-list traversal driven from outside. The caller pops
//! pending paths, reports what the filesystem said about each one, and the
//! scanner records every unix socket whose base name carries the configured
//! prefix. Finishing sorts the candidates newest-first.

use vstd::prelude::*;
use vstd::seq_lib::group_to_multiset_ensures;
use crate::Candidate;
use crate::ts_le;

verus! {

/// Position of the last `/` in `s`, or `-1` when it has none.
pub open spec fn last_slash(s: Seq<char>) -> int
    decreases s.len(),
{
    if s.len() == 0 {
        -1
    } else if s[s.len() - 1] == '/' {
        s.len() - 1
    } else {
        last_slash(s.drop_last())
    }
}

pub proof fn lemma_last_slash_bounds(s: Seq<char>)
    ensures
        -1 <= last_slash(s) < s.len(),
        last_slash(s) >= 0 ==> s[last_slash(s)] == '/',
        forall|k: int| last_slash(s) < k < s.len() ==> s[k] != '/',
    decreases s.len(),
{
    if s.len() > 0 && s[s.len() - 1] != '/' {
        lemma_last_slash_bounds(s.drop_last());
        assert(forall|k: int| 0 <= k < s.len() - 1 ==> s[k] == s.drop_last()[k]);
    }
}

/// The base name of a path: what follows its last `/`, or the whole string
/// when it has none.
pub open spec fn base_name(s: Seq<char>) -> Seq<char> {
    s.subrange(last_slash(s) + 1, s.len() as int)
}

/// `p` is an initial segment of `s`.
pub open spec fn is_prefix_of(p: Seq<char>, s: Seq<char>) -> bool {
    p.len() <= s.len() && s.subrange(0, p.len() as int) == p
}

/// Whether `s` starts with `prefix`, compared character by character.
pub fn starts_with_prefix(s: &str, prefix: &str) -> (r: bool)
    ensures
        r == is_prefix_of(prefix@, s@),
{
    let plen = prefix.unicode_len();
    let slen = s.unicode_len();
    if plen > slen {
        return false;
    }
    let mut i: usize = 0;
    while i < plen
        invariant
            0 <= i <= plen,
            plen == prefix@.len(),
            slen == s@.len(),
            plen <= slen,
            forall|k: int| 0 <= k < i ==> s@[k] == prefix@[k],
        decreases plen - i,
    {
        if s.get_char(i) != prefix.get_char(i) {
            assert(s@.subrange(0, plen as int)[i as int] != prefix@[i as int]);
            return false;
        }
        i += 1;
    }
    assert(s@.subrange(0, plen as int) =~= prefix@);
    true
}

/// The character index where the base name of `s` starts.
pub fn base_name_start(s: &str) -> (r: usize)
    ensures
        r == last_slash(s@) + 1,
{
    let len = s.unicode_len();
    let mut i: usize = len;
    proof {
        assert(s@.subrange(0, len as int) =~= s@);
    }
    while i > 0
        invariant
            0 <= i <= len,
            len == s@.len(),
            last_slash(s@) == last_slash(s@.subrange(0, i as int)),
        decreases i,
    {
        if s.get_char(i - 1) == '/' {
            proof {
                let p = s@.subrange(0, i as int);
                assert(p[p.len() - 1] == '/');
            }
            return i;
        }
        proof {
            let p = s@.subrange(0, i as int);
            assert(p[p.len() - 1] != '/');
            assert(p.drop_last() =~= s@.subrange(0, i - 1));
        }
        i -= 1;
    }
    proof {
        assert(s@.subrange(0, 0) =~= Seq::<char>::empty());
    }
    0
}

/// The base name of `path` as a fresh slice.
pub fn base_name_of(path: &str) -> (r: &str)
    ensures
        r@ == base_name(path@),
{
    proof {
        lemma_last_slash_bounds(path@);
    }
    let start = base_name_start(path);
    let len = path.unicode_len();
    path.substring_char(start, len)
}

/// State of one scan: paths still to visit, and the candidates recorded so
/// far. `prefix` is the base-name prefix a socket must carry to qualify.
pub struct ScanState {
    pub pending: Vec<String>,
    pub found: Vec<Candidate>,
    pub prefix: String,
}

/// Every recorded candidate's base name starts with the configured prefix.
pub open spec fn scan_wf(s: ScanState) -> bool {
    forall|i: int|
        0 <= i < s.found@.len() ==> is_prefix_of(
            s.prefix@,
            base_name(#[trigger] s.found@[i].path@),
        )
}

/// Begin a scan rooted at `root`, looking for sockets named `prefix`*.
pub fn scan_start(root: String, prefix: String) -> (s: ScanState)
    ensures
        s.pending@.len() == 1,
        s.pending@[0] == root,
        s.found@.len() == 0,
        s.prefix == prefix,
        scan_wf(s),
{
    let mut pending: Vec<String> = Vec::new();
    pending.push(root);
    ScanState { pending, found: Vec::new(), prefix }
}

/// Take the next path to visit, if any is left.
pub fn next_pending(s: &mut ScanState) -> (r: Option<String>)
    ensures
        final(s).found == old(s).found,
        final(s).prefix == old(s).prefix,
        old(s).pending@.len() == 0 ==> r is None && final(s).pending@ == old(s).pending@,
        old(s).pending@.len() > 0 ==> r == Some(old(s).pending@.last()) && final(s).pending@
            == old(s).pending@.drop_last(),
        scan_wf(*old(s)) ==> scan_wf(*final(s)),
{
    let r = s.pending.pop();
    proof {
        if old(s).pending@.len() > 0 {
            assert(final(s).pending@ =~= old(s).pending@.drop_last());
        }
    }
    r
}

/// Record what the filesystem said about one visited path: the children it
/// listed when the path was a readable directory (empty otherwise), whether
/// the path is a unix socket, and its modification time when the metadata
/// gave one. A socket whose base name starts with the prefix becomes a
/// candidate; every child is queued.
pub fn observe(
    s: &mut ScanState,
    path: String,
    is_socket: bool,
    modified: Option<u64>,
    children: Vec<String>,
) -> (recorded: bool)
    ensures
        final(s).prefix == old(s).prefix,
        final(s).pending@ == old(s).pending@ + children@,
        recorded == (is_socket && is_prefix_of(old(s).prefix@, base_name(path@))),
        final(s).found@ == if recorded {
            old(s).found@.push((Candidate { path, modified }))
        } else {
            old(s).found@
        },
        scan_wf(*old(s)) ==> scan_wf(*final(s)),
{
    let mut children = children;
    s.pending.append(&mut children);
    let recorded = if is_socket {
        let base = base_name_of(path.as_str());
        starts_with_prefix(base, s.prefix.as_str())
    } else {
        false
    };
    if recorded {
        s.found.push(Candidate { path, modified });
    }
    recorded
}

/// Whether the scan has visited everything it queued.
pub fn scan_done(s: &ScanState) -> (r: bool)
    ensures
        r == (s.pending@.len() == 0),
{
    s.pending.is_empty()
}

/// Whether a scan error is worth reporting: a permission denial (POSIX
/// errno 13) is expected in a shared temporary directory and stays silent;
/// every other error is reported, and the scan goes on either way.
pub fn should_report_scan_error(raw_os_error: Option<i32>) -> (r: bool)
    ensures
        r == !(raw_os_error == Some(13i32)),
{
    match raw_os_error {
        Option::Some(code) => code != 13,
        Option::None => true,
    }
}

/// The diagnostic line for a directory that could not be read.
pub open spec fn scan_error_text(path: Seq<char>, detail: Seq<char>) -> Seq<char> {
    "Error reading directory "@ + path + ": "@ + detail
}

pub fn scan_error_line(path: &str, detail: &str) -> (r: String)
    ensures
        r@ == scan_error_text(path@, detail@),
{
    let mut r = "Error reading directory ".to_owned();
    r.append(path);
    r.append(": ");
    r.append(detail);
    proof {
        assert(r@ =~= scan_error_text(path@, detail@));
    }
    r
}

/// The candidates, newest first: sorted non-increasing by modification
/// time, entries without a timestamp last.
pub open spec fn sorted_desc(s: Seq<Candidate>) -> bool {
    forall|i: int, j: int|
        0 <= i <= j < s.len() ==> ts_le(#[trigger] s[j].modified, #[trigger] s[i].modified)
}

/// Law: in a list sorted newest-first, every entry without a timestamp
/// stands after every entry that has one.
pub proof fn lemma_missing_timestamps_last(r: Seq<Candidate>)
    requires
        sorted_desc(r),
    ensures
        forall|i: int, j: int|
            0 <= i <= j < r.len() && (#[trigger] r[i]).modified is None ==> (
            #[trigger] r[j]).modified is None,
{
}

/// Sort candidates newest-first by insertion, keeping the collection's
/// contents (as a multiset) intact.
pub fn sort_candidates(v: &mut Vec<Candidate>)
    ensures
        final(v)@.len() == old(v)@.len(),
        final(v)@.to_multiset() == old(v)@.to_multiset(),
        sorted_desc(final(v)@),
{
    broadcast use group_to_multiset_ensures;

    let n = v.len();
    if n <= 1 {
        return ;
    }
    let mut i: usize = 1;
    while i < n
        invariant
            1 <= i <= n,
            v@.len() == n,
            n == old(v)@.len(),
            v@.to_multiset() == old(v)@.to_multiset(),
            sorted_desc(v@.subrange(0, i as int)),
        decreases n - i,
    {
        let ghost before = v@;
        let c = v.remove(i);
        let ghost prev = before.remove(i as int);
        let mut j: usize = 0;
        while j < i && crate::ts_le_exec(&c.modified, &v[j].modified)
            invariant
                0 <= j <= i < n,
                v@ == prev,
                prev == before.remove(i as int),
                prev.len() == n - 1,
                forall|k: int| 0 <= k < j ==> ts_le(c.modified, #[trigger] v@[k].modified),
            decreases i - j,
        {
            j += 1;
        }
        v.insert(j, c);
        proof {
            vstd::seq_lib::to_multiset_remove(before, i as int);
            vstd::seq_lib::to_multiset_insert(prev, j as int, c);
            assert(v@.to_multiset() == old(v)@.to_multiset()) by {
                assert(prev.to_multiset() == before.to_multiset().remove(c));
                assert(v@.to_multiset() == prev.to_multiset().insert(c));
                assert(before.contains(c));
                vstd::seq_lib::to_multiset_contains(before, c);
                assert(before.to_multiset().contains(c));
                assert(v@.to_multiset() =~= before.to_multiset());
            }
            assert(sorted_desc(v@.subrange(0, i + 1))) by {
                assert(forall|k: int| 0 <= k < i - 1 ==> prev[k] == before[k]);
                assert(forall|k: int|
                    0 <= k < j ==> ts_le(c.modified, #[trigger] prev[k].modified));
                assert(j < i ==> !ts_le(c.modified, prev[j as int].modified));
                assert(forall|k: int|
                    0 <= k < i + 1 ==> #[trigger] v@.subrange(0, i + 1)[k] == if k < j {
                        prev[k]
                    } else if k == j {
                        c
                    } else {
                        prev[k - 1]
                    });
            }
        }
        i += 1;
    }
    proof {
        assert(v@.subrange(0, n as int) =~= v@);
    }
}

/// End the scan: sort what was found, newest first. Everything recorded
/// stays (the multiset of candidates is unchanged), and when the scan was
/// well-formed every returned path's base name carries the prefix.
pub fn finish(s: ScanState) -> (r: Vec<Candidate>)
    ensures
        r@.to_multiset() == s.found@.to_multiset(),
        r@.len() == s.found@.len(),
        sorted_desc(r@),
        scan_wf(s) ==> forall|i: int|
            0 <= i < r@.len() ==> is_prefix_of(s.prefix@, base_name(#[trigger] r@[i].path@)),
{
    broadcast use group_to_multiset_ensures;

    let ScanState { pending: _, mut found, prefix: _ } = s;
    sort_candidates(&mut found);
    proof {
        if scan_wf(s) {
            assert forall|i: int| 0 <= i < found@.len() implies is_prefix_of(
                s.prefix@,
                base_name(#[trigger] found@[i].path@),
            ) by {
                assert(found@.to_multiset().contains(found@[i]));
                assert(s.found@.to_multiset().contains(found@[i]));
                assert(s.found@.contains(found@[i]));
                let k = choose|k: int| 0 <= k < s.found@.len() && s.found@[k] == found@[i];
                assert(is_prefix_of(s.prefix@, base_name(s.found@[k].path@)));
            }
        }
    }
    found
}

/// Law: a sorted rearrangement of the scan's candidates begins with one
/// whose timestamp is at least every timestamp the scan produced — whatever
/// order the scan produced them in.
pub proof fn lemma_first_is_newest(input: Seq<Candidate>, r: Seq<Candidate>)
    requires
        r.to_multiset() == input.to_multiset(),
        sorted_desc(r),
        r.len() > 0,
    ensures
        forall|k: int| 0 <= k < input.len() ==> ts_le(#[trigger] input[k].modified, r[0].modified),
{
    broadcast use group_to_multiset_ensures;

    assert forall|k: int| 0 <= k < input.len() implies ts_le(
        #[trigger] input[k].modified,
        r[0].modified,
    ) by {
        assert(input.to_multiset().contains(input[k]));
        assert(r.to_multiset().contains(input[k]));
        assert(r.contains(input[k]));
        let j = choose|j: int| 0 <= j < r.len() && r[j] == input[k];
        assert(ts_le(r[j].modified, r[0].modified));
    }
}

} // verus!
