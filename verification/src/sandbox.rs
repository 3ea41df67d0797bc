//! Path logic of the secure file writer.
//!
//! Paths are modelled as POSIX-style strings over `/`. The caller supplies
//! the sandbox root as an absolute, already-canonical path; this module
//! computes the join and the parent directory to create, and decides — on
//! the *canonicalized* parent and root the caller obtained from the
//! filesystem after creating the directories — whether the write stays
//! inside the root. Canonicalizing after directory creation and before the
//! write lets the check see the real, symlink-resolved state; the residual
//! race against concurrent mutation is accepted, not eliminated.

use vstd::prelude::*;
use crate::text::chars_of;
use crate::text::string_from_chars;
use crate::text::str_eq;

verus! {

/// True when the path is absolute.
pub open spec fn is_abs(s: Seq<char>) -> bool {
    s.len() > 0 && s[0] == '/'
}

/// The first `/` at or after `i`, or the length if none.
pub open spec fn seg_end(s: Seq<char>, i: int) -> int
    decreases s.len() - i,
{
    if !(0 <= i && i < s.len()) {
        s.len() as int
    } else if s[i] == '/' {
        i
    } else {
        seg_end(s, i + 1)
    }
}

pub proof fn lemma_seg_end(s: Seq<char>, i: int)
    requires
        0 <= i <= s.len(),
    ensures
        i <= seg_end(s, i) <= s.len(),
        seg_end(s, i) < s.len() ==> s[seg_end(s, i)] == '/',
        forall|j: int| i <= j < seg_end(s, i) ==> s[j] != '/',
    decreases s.len() - i,
{
    if i < s.len() && s[i] != '/' {
        lemma_seg_end(s, i + 1);
    }
}

/// The non-empty segments of a path, from `i` on.
pub open spec fn segs_from(s: Seq<char>, i: int) -> Seq<Seq<char>>
    decreases s.len() - i via segs_from_dec
{
    if !(0 <= i && i < s.len()) {
        Seq::empty()
    } else if s[i] == '/' {
        segs_from(s, i + 1)
    } else {
        let k = seg_end(s, i);
        seq![s.subrange(i, k)] + segs_from(s, k)
    }
}

#[via_fn]
proof fn segs_from_dec(s: Seq<char>, i: int) {
    if 0 <= i && i < s.len() && s[i] != '/' {
        lemma_seg_end(s, i);
    }
}

/// The segments of a path: its components, empty ones dropped.
pub open spec fn segs_of(s: Seq<char>) -> Seq<Seq<char>> {
    segs_from(s, 0)
}

/// True when `a` is a (component-wise) prefix of `b`.
pub open spec fn seg_prefix(a: Seq<Seq<char>>, b: Seq<Seq<char>>) -> bool {
    a.len() <= b.len() && forall|k: int| 0 <= k < a.len() ==> a[k] == b[k]
}

/// The containment check of the secure file writer: the canonical parent
/// lies inside the canonical root exactly when both are equally absolute
/// and the root's components are a prefix of the parent's.
pub open spec fn path_contained(parent: Seq<char>, base: Seq<char>) -> bool {
    is_abs(parent) == is_abs(base) && seg_prefix(segs_of(base), segs_of(parent))
}

/// The segments of `p` as strings.
pub fn split_segments(p: &str) -> (r: Vec<String>)
    ensures
        r.deep_view() == segs_of(p@),
{
    let cs = chars_of(p);
    let n = cs.len();
    let mut out: Vec<String> = Vec::new();
    let mut i: usize = 0;
    proof {
        assert(out.deep_view() + segs_from(cs@, 0) =~= segs_of(p@));
    }
    while i < n
        invariant
            i <= n,
            n == cs@.len(),
            cs@ == p@,
            out.deep_view() + segs_from(cs@, i as int) == segs_of(p@),
        decreases n - i,
    {
        if cs[i] == '/' {
            proof {
                assert(segs_from(cs@, i as int) == segs_from(cs@, i as int + 1));
            }
            i = i + 1;
        } else {
            let start = i;
            while i < n && cs[i] != '/'
                invariant
                    start <= i <= n,
                    n == cs@.len(),
                    seg_end(cs@, start as int) == seg_end(cs@, i as int),
                decreases n - i,
            {
                i = i + 1;
            }
            proof {
                assert(seg_end(cs@, start as int) == i as int);
            }
            let seg = string_from_chars(&cs.as_slice()[start..i]);
            let ghost before = out.deep_view();
            proof {
                assert(seg@ =~= cs@.subrange(start as int, i as int));
            }
            out.push(seg);
            proof {
                assert(out.deep_view() =~~= before.push(cs@.subrange(start as int, i as int)));
                assert(segs_from(cs@, start as int) =~= seq![
                    cs@.subrange(start as int, i as int),
                ] + segs_from(cs@, i as int));
                assert(out.deep_view() + segs_from(cs@, i as int) =~= segs_of(p@));
            }
        }
    }
    proof {
        assert(segs_from(cs@, i as int) =~= Seq::<Seq<char>>::empty());
        assert(out.deep_view() =~= segs_of(p@));
    }
    out
}

/// True when the segments of `a` are a prefix of those of `b`.
fn segs_prefix_exec(a: &Vec<String>, b: &Vec<String>) -> (r: bool)
    ensures
        r == seg_prefix(a.deep_view(), b.deep_view()),
{
    if a.len() > b.len() {
        return false;
    }
    let mut k: usize = 0;
    while k < a.len()
        invariant
            k <= a@.len() <= b@.len(),
            forall|q: int| 0 <= q < k ==> a.deep_view()[q] == b.deep_view()[q],
        decreases a@.len() - k,
    {
        if !str_eq(a[k].as_str(), b[k].as_str()) {
            assert(a.deep_view()[k as int] != b.deep_view()[k as int]);
            return false;
        }
        k = k + 1;
    }
    true
}

/// Whether the character at the front of `p` makes it absolute.
fn is_abs_exec(p: &str) -> (r: bool)
    ensures
        r == is_abs(p@),
{
    p.unicode_len() > 0 && p.get_char(0) == '/'
}

/// The verdict of the secure file writer: does the canonical parent
/// directory lie inside the canonical sandbox root?
pub fn containment_verdict(canon_parent: &str, canon_base: &str) -> (r: bool)
    ensures
        r == path_contained(canon_parent@, canon_base@),
{
    if is_abs_exec(canon_parent) != is_abs_exec(canon_base) {
        return false;
    }
    let ps = split_segments(canon_parent);
    let bs = split_segments(canon_base);
    segs_prefix_exec(&bs, &ps)
}

/// The candidate target: the root joined with the relative path. An
/// absolute relative path replaces the root outright (and is then caught by
/// the containment check on the canonical paths).
pub open spec fn join_path_spec(base: Seq<char>, rel: Seq<char>) -> Seq<char> {
    if rel.len() > 0 && rel[0] == '/' {
        rel
    } else {
        base + seq!['/'] + rel
    }
}

/// Joins the sandbox root and the relative path.
pub fn join_path(base: &str, rel: &str) -> (r: String)
    ensures
        r@ == join_path_spec(base@, rel@),
{
    if rel.unicode_len() > 0 && rel.get_char(0) == '/' {
        return String::from_str(rel);
    }
    let mut s = String::from_str(base);
    proof {
        reveal_strlit("/");
    }
    s.append("/");
    s.append(rel);
    proof {
        assert(s@ =~= base@ + seq!['/'] + rel@);
    }
    s
}

/// `s` with every trailing `/` removed.
pub open spec fn strip_slashes(s: Seq<char>) -> Seq<char>
    decreases s.len(),
{
    if s.len() > 0 && s[s.len() - 1] == '/' {
        strip_slashes(s.take(s.len() - 1))
    } else {
        s
    }
}

/// The index of the last `/` of `s`, if any.
pub open spec fn last_slash(s: Seq<char>) -> Option<int>
    decreases s.len(),
{
    if s.len() == 0 {
        None
    } else if s[s.len() - 1] == '/' {
        Some(s.len() - 1)
    } else {
        last_slash(s.take(s.len() - 1))
    }
}

/// The parent directory of a path: trailing slashes dropped, then the part
/// before the last `/` (the root itself for a top-level path). A path with
/// no parent cannot be written to.
pub open spec fn parent_spec(s: Seq<char>) -> Option<Seq<char>> {
    let t = strip_slashes(s);
    match last_slash(t) {
        None => None,
        Some(k) => if k == 0 {
            Some(seq!['/'])
        } else {
            Some(t.take(k))
        },
    }
}

/// The parent directory of `path`.
pub fn parent_of(path: &str) -> (r: Option<String>)
    ensures
        match r {
            Some(p) => parent_spec(path@) == Some(p@),
            None => parent_spec(path@) is None,
        },
{
    let cs = chars_of(path);
    let n = cs.len();
    let mut hi = n;
    proof {
        assert(cs@.take(n as int) =~= cs@);
    }
    while hi > 0 && cs[hi - 1] == '/'
        invariant
            hi <= n,
            n == cs@.len(),
            strip_slashes(cs@) == strip_slashes(cs@.take(hi as int)),
        decreases hi,
    {
        proof {
            assert(cs@.take(hi as int).take(hi as int - 1) =~= cs@.take(hi as int - 1));
        }
        hi = hi - 1;
    }
    proof {
        assert(strip_slashes(cs@) == cs@.take(hi as int));
    }
    let ghost t = cs@.take(hi as int);
    let mut k = hi;
    proof {
        assert(t.take(hi as int) =~= t);
    }
    while k > 0 && cs[k - 1] != '/'
        invariant
            k <= hi <= n,
            n == cs@.len(),
            t == cs@.take(hi as int),
            last_slash(t) == last_slash(t.take(k as int)),
        decreases k,
    {
        proof {
            assert(t.take(k as int).take(k as int - 1) =~= t.take(k as int - 1));
            assert(t.take(k as int)[k as int - 1] == cs@[k as int - 1]);
        }
        k = k - 1;
    }
    if k == 0 {
        proof {
            assert(t.take(0) =~= Seq::<char>::empty());
            assert(last_slash(t) is None);
        }
        return None;
    }
    proof {
        assert(t.take(k as int)[k as int - 1] == cs@[k as int - 1]);
        assert(last_slash(t.take(k as int)) == Some(k as int - 1));
    }
    if k - 1 == 0 {
        proof {
            reveal_strlit("/");
        }
        let out = String::from_str("/");
        proof {
            assert(out@ =~= seq!['/']);
        }
        Some(out)
    } else {
        let out = string_from_chars(&cs.as_slice()[0..k - 1]);
        proof {
            assert(out@ =~= t.take(k as int - 1));
        }
        Some(out)
    }
}

/// What the caller must do to apply one file write: create the parent
/// directory (and its ancestors), canonicalize it and the root, submit both
/// to [`containment_verdict`], and only on a positive verdict write the
/// content to the target, replacing what was there.
pub struct WritePlan {
    pub target: String,
    pub parent: String,
}

/// A relative path whose join has no parent directory cannot be written.
#[derive(Debug)]
pub struct InvalidPathError;

impl InvalidPathError {
    /// The message such a write fails with.
    pub fn message(&self) -> (s: String)
        ensures
            s@ == "Invalid file path"@,
    {
        String::from_str("Invalid file path")
    }
}

/// Computes the candidate target and the parent directory to create for a
/// file write of `rel` under the absolute sandbox root `base`.
pub fn write_plan(base: &str, rel: &str) -> (r: Result<WritePlan, InvalidPathError>)
    requires
        is_abs(base@),
    ensures
        match r {
            Ok(plan) => plan.target@ == join_path_spec(base@, rel@) && parent_spec(plan.target@)
                == Some(plan.parent@),
            Err(_) => parent_spec(join_path_spec(base@, rel@)) is None,
        },
{
    let target = join_path(base, rel);
    match parent_of(target.as_str()) {
        Some(parent) => Ok(WritePlan { target, parent }),
        None => Err(InvalidPathError),
    }
}

/// Segment-level resolution of a relative path against a root, as the
/// filesystem resolves it in the absence of symlinks: `.` is dropped, `..`
/// pops one component (never above the filesystem root), anything else
/// descends.
pub open spec fn resolve_segs(base: Seq<Seq<char>>, rel: Seq<Seq<char>>) -> Seq<Seq<char>>
    decreases rel.len(),
{
    if rel.len() == 0 {
        base
    } else if rel[0] == seq!['.'] {
        resolve_segs(base, rel.skip(1))
    } else if rel[0] == seq!['.', '.'] {
        resolve_segs(
            if base.len() > 0 {
                base.drop_last()
            } else {
                base
            },
            rel.skip(1),
        )
    } else {
        resolve_segs(base.push(rel[0]), rel.skip(1))
    }
}

/// A relative path free of `..` segments always resolves to a descendant of
/// the root: such a write is never refused by the containment check.
pub proof fn lemma_no_dotdot_stays_inside(base: Seq<Seq<char>>, rel: Seq<Seq<char>>)
    requires
        forall|k: int| 0 <= k < rel.len() ==> rel[k] != seq!['.', '.'],
    ensures
        seg_prefix(base, resolve_segs(base, rel)),
    decreases rel.len(),
{
    if rel.len() == 0 {
    } else if rel[0] == seq!['.'] {
        assert(forall|k: int| 0 <= k < rel.skip(1).len() ==> rel.skip(1)[k] != seq!['.', '.']);
        lemma_no_dotdot_stays_inside(base, rel.skip(1));
    } else {
        assert(rel[0] != seq!['.', '.']);
        assert(forall|k: int| 0 <= k < rel.skip(1).len() ==> rel.skip(1)[k] != seq!['.', '.']);
        lemma_no_dotdot_stays_inside(base.push(rel[0]), rel.skip(1));
        let r = resolve_segs(base.push(rel[0]), rel.skip(1));
        assert(seg_prefix(base.push(rel[0]), r));
        assert forall|k: int| 0 <= k < base.len() implies base[k] == r[k] by {
            assert(base.push(rel[0])[k] == base[k]);
            assert(base.push(rel[0])[k] == r[k]);
        }
    }
}

/// The model of a directory tree as far as writes are concerned: full
/// content stored under each target path.
pub type FsModel = Map<Seq<char>, Seq<char>>;

/// What an approved file write does to the tree: the full content replaces
/// whatever was stored at the target — an overwrite, not an append.
pub open spec fn apply_write(fs: FsModel, target: Seq<char>, content: Seq<char>) -> FsModel {
    fs.insert(target, content)
}

/// Applying the same file write twice leaves the same tree as applying it
/// once: the write is idempotent.
pub proof fn lemma_write_idempotent(fs: FsModel, target: Seq<char>, content: Seq<char>)
    ensures
        apply_write(apply_write(fs, target, content), target, content) == apply_write(
            fs,
            target,
            content,
        ),
{
    assert(apply_write(apply_write(fs, target, content), target, content) =~= apply_write(
        fs,
        target,
        content,
    ));
}

/// A well-formed path component: non-empty and free of `/`.
pub open spec fn good_seg(g: Seq<char>) -> bool {
    g.len() > 0 && forall|j: int| 0 <= j < g.len() ==> g[j] != '/'
}

/// All components well formed.
pub open spec fn good_segs(segs: Seq<Seq<char>>) -> bool {
    forall|k: int| 0 <= k < segs.len() ==> good_seg(#[trigger] segs[k])
}

/// The absolute path written from its components.
pub open spec fn path_of(segs: Seq<Seq<char>>) -> Seq<char>
    decreases segs.len(),
{
    if segs.len() == 0 {
        seq!['/']
    } else if segs.len() == 1 {
        seq!['/'] + segs[0]
    } else {
        seq!['/'] + segs[0] + path_of(segs.skip(1))
    }
}

proof fn lemma_path_of_abs(segs: Seq<Seq<char>>)
    ensures
        path_of(segs).len() > 0 && path_of(segs)[0] == '/',
    decreases segs.len(),
{
}

/// If no `/` stands in `[i, k)` and `k` is the length or holds a `/`, then
/// `k` is where the segment ends.
proof fn lemma_seg_end_value(s: Seq<char>, i: int, k: int)
    requires
        0 <= i <= k <= s.len(),
        forall|j: int| i <= j < k ==> s[j] != '/',
        k < s.len() ==> s[k] == '/',
    ensures
        seg_end(s, i) == k,
    decreases k - i,
{
    if i == k {
    } else {
        lemma_seg_end_value(s, i + 1, k);
    }
}

/// Splitting from position `d` splits the suffix.
proof fn lemma_segs_from_skip(s: Seq<char>, d: int)
    requires
        0 <= d <= s.len(),
    ensures
        segs_from(s, d) == segs_of(s.skip(d)),
    decreases s.len(), s.len() - d,
{
    let t = s.skip(d);
    if d == s.len() {
        assert(segs_from(s, d) =~= Seq::<Seq<char>>::empty());
        assert(t.len() == 0);
        assert(segs_of(t) =~= Seq::<Seq<char>>::empty());
    } else if s[d] == '/' {
        if d + 1 <= s.len() {
            if d == 0 {
                assert(t =~= s);
                lemma_segs_from_skip(s, 1);
                assert(t.skip(1) =~= s.skip(1));
                assert(segs_of(t) == segs_from(t, 1));
                assert(segs_from(t, 1) == segs_from(s, 1)) by {
                    assert(t == s);
                }
            } else {
                lemma_segs_from_skip(t, 1);
                assert(t.skip(1) =~= s.skip(d + 1));
                lemma_segs_from_skip(s, d + 1);
            }
        }
    } else {
        lemma_seg_end(s, d);
        let k = seg_end(s, d);
        lemma_seg_end(t, 0);
        assert forall|j: int| 0 <= j < k - d implies t[j] != '/' by {
            assert(t[j] == s[d + j]);
        }
        lemma_seg_end_value(t, 0, k - d);
        assert(t.subrange(0, k - d) =~= s.subrange(d, k));
        if d == 0 {
            assert(t =~= s);
            lemma_segs_from_skip(s, k);
            assert(t.skip(k - d) =~= s.skip(k));
            assert(segs_from(t, k - d) == segs_from(s, k)) by {
                assert(t == s);
            }
            assert(segs_of(t) =~= segs_from(s, d));
        } else {
            lemma_segs_from_skip(t, k - d);
            assert(t.skip(k - d) =~= s.skip(k));
            lemma_segs_from_skip(s, k);
            assert(segs_of(t) =~= segs_from(s, d));
        }
    }
}

/// Splitting the written form of well-formed components gives them back.
pub proof fn lemma_split_path_of(segs: Seq<Seq<char>>)
    requires
        good_segs(segs),
    ensures
        segs_of(path_of(segs)) == segs,
    decreases segs.len(),
{
    let s = path_of(segs);
    if segs.len() == 0 {
        assert(s =~= seq!['/']);
        assert(segs_of(s) == segs_from(s, 1));
        assert(segs_from(s, 1) =~= Seq::<Seq<char>>::empty());
        assert(segs_of(s) =~= segs);
    } else {
        let g = segs[0];
        assert(good_seg(g));
        let glen = g.len() as int;
        assert forall|j: int| 1 <= j < 1 + glen implies s[j] != '/' by {
            assert(s[j] == g[j - 1]);
        }
        if segs.len() == 1 {
            assert(s.len() == 1 + glen);
            lemma_seg_end_value(s, 1, 1 + glen);
            assert(s.subrange(1, 1 + glen) =~= g);
            assert(segs_of(s) == segs_from(s, 1));
            assert(segs_from(s, 1) == seq![g] + segs_from(s, 1 + glen));
            assert(segs_from(s, 1 + glen) =~= Seq::<Seq<char>>::empty());
            assert(segs_of(s) =~= segs);
        } else {
            let rest = segs.skip(1);
            assert(good_segs(rest)) by {
                assert(forall|k: int|
                    0 <= k < rest.len() ==> rest[k] == segs[k + 1] && good_seg(#[trigger] segs[k
                        + 1]));
            }
            lemma_path_of_abs(rest);
            assert(s[1 + glen] == path_of(rest)[0]);
            lemma_seg_end_value(s, 1, 1 + glen);
            assert(s.subrange(1, 1 + glen) =~= g);
            assert(segs_of(s) == segs_from(s, 1));
            assert(segs_from(s, 1) == seq![g] + segs_from(s, 1 + glen));
            lemma_segs_from_skip(s, 1 + glen);
            assert(s.skip(1 + glen) =~= path_of(rest));
            lemma_split_path_of(rest);
            assert(segs_of(s) =~= seq![g] + rest);
            assert(seq![g] + rest =~= segs);
        }
    }
}

/// On canonical paths written from their components, the containment check
/// decides exactly component-wise prefix.
pub proof fn lemma_verdict_on_resolved(base: Seq<Seq<char>>, parent: Seq<Seq<char>>)
    requires
        good_segs(base),
        good_segs(parent),
    ensures
        path_contained(path_of(parent), path_of(base)) == seg_prefix(base, parent),
{
    lemma_split_path_of(base);
    lemma_split_path_of(parent);
    lemma_path_of_abs(base);
    lemma_path_of_abs(parent);
}

/// Resolution only ever keeps components of the root or adopts components
/// of the relative path.
pub proof fn lemma_resolve_good(base: Seq<Seq<char>>, rel: Seq<Seq<char>>)
    requires
        good_segs(base),
        good_segs(rel),
    ensures
        good_segs(resolve_segs(base, rel)),
    decreases rel.len(),
{
    if rel.len() == 0 {
    } else {
        assert(good_segs(rel.skip(1))) by {
            assert(forall|k: int|
                0 <= k < rel.skip(1).len() ==> rel.skip(1)[k] == rel[k + 1] && good_seg(
                    #[trigger] rel[k + 1],
                ));
        }
        if rel[0] == seq!['.'] {
            lemma_resolve_good(base, rel.skip(1));
        } else if rel[0] == seq!['.', '.'] {
            let popped = if base.len() > 0 {
                base.drop_last()
            } else {
                base
            };
            assert(good_segs(popped)) by {
                assert(forall|k: int|
                    0 <= k < popped.len() ==> popped[k] == base[k] && good_seg(
                        #[trigger] base[k],
                    ));
            }
            lemma_resolve_good(popped, rel.skip(1));
        } else {
            assert(good_segs(base.push(rel[0]))) by {
                assert(good_seg(rel[0]));
                assert(forall|k: int|
                    0 <= k < base.len() ==> base.push(rel[0])[k] == base[k] && good_seg(
                        #[trigger] base[k],
                    ));
                assert(base.push(rel[0])[base.len() as int] == rel[0]);
            }
            lemma_resolve_good(base.push(rel[0]), rel.skip(1));
        }
    }
}

/// Traversal is refused: when a relative path's resolution leaves the
/// sandbox root, the containment check on the canonical parent (the written
/// form of that resolution) and the canonical root says no, and no write
/// happens.
pub proof fn lemma_traversal_refused(base: Seq<Seq<char>>, rel: Seq<Seq<char>>)
    requires
        good_segs(base),
        good_segs(rel),
        !seg_prefix(base, resolve_segs(base, rel)),
    ensures
        !path_contained(path_of(resolve_segs(base, rel)), path_of(base)),
{
    lemma_resolve_good(base, rel);
    lemma_verdict_on_resolved(base, resolve_segs(base, rel));
}

/// A write inside the root is allowed: a relative path free of `..`
/// resolves under the root, and the containment check on the canonical
/// parent and root says yes.
pub proof fn lemma_inside_write_allowed(base: Seq<Seq<char>>, rel: Seq<Seq<char>>)
    requires
        good_segs(base),
        good_segs(rel),
        forall|k: int| 0 <= k < rel.len() ==> rel[k] != seq!['.', '.'],
    ensures
        path_contained(path_of(resolve_segs(base, rel)), path_of(base)),
{
    lemma_resolve_good(base, rel);
    lemma_no_dotdot_stays_inside(base, rel);
    lemma_verdict_on_resolved(base, resolve_segs(base, rel));
}

} // verus!
