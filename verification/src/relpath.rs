//! Relative-path arithmetic on byte-string paths.
//!
//! A path is a sequence of bytes whose components are separated by `/`
//! (byte 47), with no trailing separator. The empty sequence is the empty
//! path. All tree bookkeeping in this crate — stripping a tree root from an
//! absolute path, joining an output root with a relative path, splitting a
//! path into parent and file name — is done on this representation.

use vstd::prelude::*;

verus! {

/// The path separator byte, `/`.
pub open spec fn sep() -> u8 {
    47u8
}

/// `pre` is a whole-component prefix of `p`: either `pre` is empty, or `p`
/// starts with `pre`'s bytes and then either ends or continues with a
/// separator.
pub open spec fn path_has_prefix(p: Seq<u8>, pre: Seq<u8>) -> bool {
    if pre.len() == 0 {
        true
    } else {
        &&& p.len() >= pre.len()
        &&& p.subrange(0, pre.len() as int) == pre
        &&& (p.len() == pre.len() || p[pre.len() as int] == sep())
    }
}

/// What is left of `p` after removing the prefix `pre` and the separator
/// that follows it, if any.
pub open spec fn path_strip(p: Seq<u8>, pre: Seq<u8>) -> Seq<u8>
    recommends
        path_has_prefix(p, pre),
{
    if pre.len() == 0 {
        p
    } else if p.len() == pre.len() {
        Seq::empty()
    } else {
        p.subrange(pre.len() as int + 1, p.len() as int)
    }
}

/// Joining two paths: a separator is placed between them exactly when both
/// are nonempty.
pub open spec fn path_join(a: Seq<u8>, b: Seq<u8>) -> Seq<u8> {
    if a.len() == 0 {
        b
    } else if b.len() == 0 {
        a
    } else {
        a + seq![sep()] + b
    }
}

/// Index of the last separator in `p`, or -1 when `p` has none.
pub open spec fn last_sep(p: Seq<u8>) -> int
    decreases p.len(),
{
    if p.len() == 0 {
        -1
    } else if p[p.len() - 1] == sep() {
        p.len() - 1
    } else {
        last_sep(p.drop_last())
    }
}

/// The parent of `p`: everything before the last separator, or the empty
/// path when `p` has no separator.
pub open spec fn path_parent(p: Seq<u8>) -> Seq<u8> {
    if last_sep(p) >= 0 {
        p.subrange(0, last_sep(p))
    } else {
        Seq::empty()
    }
}

/// The file name of `p`: everything after the last separator, or all of `p`
/// when it has none.
pub open spec fn path_file_name(p: Seq<u8>) -> Seq<u8> {
    p.subrange(last_sep(p) + 1, p.len() as int)
}

proof fn lemma_last_sep_bounds(p: Seq<u8>)
    ensures
        -1 <= last_sep(p) < p.len(),
        last_sep(p) >= 0 ==> p[last_sep(p)] == sep(),
        forall|k: int| last_sep(p) < k < p.len() ==> p[k] != sep(),
    decreases p.len(),
{
    if p.len() == 0 {
    } else if p[p.len() - 1] == sep() {
    } else {
        lemma_last_sep_bounds(p.drop_last());
        assert(forall|k: int| 0 <= k < p.len() - 1 ==> p.drop_last()[k] == p[k]);
    }
}

proof fn lemma_last_sep_at(p: Seq<u8>, j: int)
    requires
        0 <= j < p.len(),
        p[j] == sep(),
        forall|k: int| j < k < p.len() ==> p[k] != sep(),
    ensures
        last_sep(p) == j,
    decreases p.len(),
{
    if j == p.len() - 1 {
    } else {
        assert(p[p.len() - 1] != sep());
        assert(forall|k: int| 0 <= k < p.len() - 1 ==> p.drop_last()[k] == p[k]);
        lemma_last_sep_at(p.drop_last(), j);
    }
}

proof fn lemma_last_sep_none(p: Seq<u8>)
    requires
        forall|k: int| 0 <= k < p.len() ==> p[k] != sep(),
    ensures
        last_sep(p) == -1,
    decreases p.len(),
{
    if p.len() == 0 {
    } else {
        assert(forall|k: int| 0 <= k < p.len() - 1 ==> p.drop_last()[k] == p[k]);
        lemma_last_sep_none(p.drop_last());
    }
}

/// Splitting a path without a leading separator at its last separator and
/// joining the two halves again gives the path back, whenever the
/// file-name half is nonempty.
pub proof fn lemma_parent_join_file_name(p: Seq<u8>)
    requires
        path_file_name(p).len() > 0,
        p[0] != sep(),
    ensures
        path_join(path_parent(p), path_file_name(p)) == p,
{
    lemma_last_sep_bounds(p);
    if last_sep(p) >= 0 {
        assert(last_sep(p) != 0);
        assert(path_join(path_parent(p), path_file_name(p)) =~= p);
    } else {
        assert(path_file_name(p) =~= p);
    }
}

/// Copies a byte string.
pub fn copy_bytes(p: &Vec<u8>) -> (r: Vec<u8>)
    ensures
        r@ == p@,
{
    let mut out: Vec<u8> = Vec::new();
    let mut i: usize = 0;
    while i < p.len()
        invariant
            i <= p.len(),
            out@ == p@.subrange(0, i as int),
        decreases p.len() - i,
    {
        out.push(p[i]);
        proof {
            assert(out@ =~= p@.subrange(0, i + 1));
        }
        i += 1;
    }
    proof {
        assert(p@.subrange(0, p@.len() as int) =~= p@);
    }
    out
}

/// Whether two byte strings hold the same bytes.
pub fn bytes_eq(a: &Vec<u8>, b: &Vec<u8>) -> (r: bool)
    ensures
        r == (a@ == b@),
{
    if a.len() != b.len() {
        return false;
    }
    let mut i: usize = 0;
    while i < a.len()
        invariant
            i <= a.len(),
            a@.len() == b@.len(),
            forall|k: int| 0 <= k < i ==> a@[k] == b@[k],
        decreases a.len() - i,
    {
        if a[i] != b[i] {
            return false;
        }
        i += 1;
    }
    proof {
        assert(a@ =~= b@);
    }
    true
}

/// Removes the whole-component prefix `pre` from `p`, returning the
/// remainder, or nothing when `pre` is not such a prefix.
pub fn strip_prefix(p: &Vec<u8>, pre: &Vec<u8>) -> (r: Option<Vec<u8>>)
    ensures
        r is Some <==> path_has_prefix(p@, pre@),
        r matches Some(rest) ==> rest@ == path_strip(p@, pre@),
{
    if pre.len() == 0 {
        return Some(copy_bytes(p));
    }
    if p.len() < pre.len() {
        return None;
    }
    let mut i: usize = 0;
    while i < pre.len()
        invariant
            i <= pre.len() <= p.len(),
            pre.len() > 0,
            forall|k: int| 0 <= k < i ==> p@[k] == pre@[k],
        decreases pre.len() - i,
    {
        if p[i] != pre[i] {
            proof {
                assert(p@.subrange(0, pre@.len() as int)[i as int] == p@[i as int]);
            }
            return None;
        }
        i += 1;
    }
    proof {
        assert(p@.subrange(0, pre@.len() as int) =~= pre@);
    }
    if p.len() == pre.len() {
        return Some(Vec::new());
    }
    if p[pre.len()] != 47u8 {
        return None;
    }
    let mut out: Vec<u8> = Vec::new();
    let mut j: usize = pre.len() + 1;
    while j < p.len()
        invariant
            pre.len() + 1 <= j <= p.len(),
            out@ == p@.subrange(pre@.len() as int + 1, j as int),
        decreases p.len() - j,
    {
        out.push(p[j]);
        proof {
            assert(out@ =~= p@.subrange(pre@.len() as int + 1, j + 1));
        }
        j += 1;
    }
    Some(out)
}

/// Joins two paths, placing a separator between them exactly when both are
/// nonempty.
pub fn join_path(a: &Vec<u8>, b: &Vec<u8>) -> (r: Vec<u8>)
    ensures
        r@ == path_join(a@, b@),
{
    if a.len() == 0 {
        return copy_bytes(b);
    }
    if b.len() == 0 {
        return copy_bytes(a);
    }
    let mut out = copy_bytes(a);
    out.push(47u8);
    let mut i: usize = 0;
    while i < b.len()
        invariant
            i <= b.len(),
            out@ == a@ + seq![sep()] + b@.subrange(0, i as int),
        decreases b.len() - i,
    {
        out.push(b[i]);
        proof {
            assert(out@ =~= a@ + seq![sep()] + b@.subrange(0, i + 1));
        }
        i += 1;
    }
    proof {
        assert(a@ + seq![sep()] + b@.subrange(0, b@.len() as int) =~= a@ + seq![sep()] + b@);
    }
    out
}

/// The parent of `p`, or nothing when `p` is the empty path.
pub fn parent_of(p: &Vec<u8>) -> (r: Option<Vec<u8>>)
    ensures
        r is Some <==> p@.len() > 0,
        r matches Some(par) ==> par@ == path_parent(p@),
{
    if p.len() == 0 {
        return None;
    }
    let mut i: usize = p.len();
    while i > 0
        invariant
            i <= p.len(),
            forall|k: int| i <= k < p@.len() ==> p@[k] != sep(),
        decreases i,
    {
        if p[i - 1] == 47u8 {
            proof {
                lemma_last_sep_at(p@, i - 1);
            }
            let mut out: Vec<u8> = Vec::new();
            let mut j: usize = 0;
            while j < i - 1
                invariant
                    j <= i - 1 < p.len(),
                    out@ == p@.subrange(0, j as int),
                decreases i - 1 - j,
            {
                out.push(p[j]);
                proof {
                    assert(out@ =~= p@.subrange(0, j + 1));
                }
                j += 1;
            }
            return Some(out);
        }
        i -= 1;
    }
    proof {
        lemma_last_sep_none(p@);
        assert(path_parent(p@) =~= Seq::<u8>::empty());
    }
    Some(Vec::new())
}

/// The file name of `p`: everything after its last separator.
pub fn file_name_of(p: &Vec<u8>) -> (r: Vec<u8>)
    ensures
        r@ == path_file_name(p@),
{
    let mut i: usize = p.len();
    while i > 0
        invariant
            i <= p.len(),
            forall|k: int| i <= k < p@.len() ==> p@[k] != sep(),
        decreases i,
    {
        if p[i - 1] == 47u8 {
            proof {
                lemma_last_sep_at(p@, i - 1);
            }
            let mut out: Vec<u8> = Vec::new();
            let mut j: usize = i;
            while j < p.len()
                invariant
                    i <= j <= p.len(),
                    out@ == p@.subrange(i as int, j as int),
                decreases p.len() - j,
            {
                out.push(p[j]);
                proof {
                    assert(out@ =~= p@.subrange(i as int, j + 1));
                }
                j += 1;
            }
            return out;
        }
        i -= 1;
    }
    proof {
        lemma_last_sep_none(p@);
        assert(p@.subrange(0, p@.len() as int) =~= p@);
    }
    copy_bytes(p)
}

/// Writes `value` into slot `index` of `v`, growing `v` by one exactly when
/// `index` is the first unused slot. This is how batch slots are reused
/// across flushes without reallocating.
pub fn set_or_push<T>(v: &mut Vec<T>, index: usize, value: T)
    requires
        index <= old(v)@.len(),
    ensures
        index == old(v)@.len() ==> final(v)@ == old(v)@.push(value),
        index < old(v)@.len() ==> final(v)@ == old(v)@.update(index as int, value),
{
    if v.len() == index {
        v.push(value);
    } else {
        v.set(index, value);
    }
}

/// Computing a copy's destination through the parent directory — swap the
/// tree root on the source's parent, then append the file name — lands on
/// the same path as swapping the root on the whole source path.
pub proof fn lemma_destination_direct(out_root: Seq<u8>, source_root: Seq<u8>, s: Seq<u8>)
    requires
        path_has_prefix(s, source_root),
        s.len() > source_root.len(),
        path_file_name(s).len() > 0,
        source_root.len() == 0 ==> s[0] != sep(),
        forall|k: int| 0 <= k < s.len() - 1 ==> !(#[trigger] s[k] == sep() && s[k + 1] == sep()),
    ensures
        path_has_prefix(path_parent(s), source_root),
        path_join(
            path_join(out_root, path_strip(path_parent(s), source_root)),
            path_file_name(s),
        ) == path_join(out_root, path_strip(s, source_root)),
{
    lemma_last_sep_bounds(s);
    let ls: int = last_sep(s);
    if source_root.len() == 0 {
        assert(path_strip(s, source_root) == s);
        if ls >= 0 {
            assert(ls != 0);
            assert(path_join(path_parent(s), path_file_name(s)) =~= s) by {
                lemma_parent_join_file_name(s);
            }
            assert(path_join(
                path_join(out_root, path_parent(s)),
                path_file_name(s),
            ) =~= path_join(out_root, s));
        } else {
            assert(path_parent(s) =~= Seq::<u8>::empty());
            assert(path_file_name(s) =~= s);
        }
    } else {
        assert(s[source_root.len() as int] == sep());
        assert(ls >= source_root.len());
        let rest = path_strip(s, source_root);
        if ls == source_root.len() {
            assert(path_parent(s) =~= source_root);
            assert(path_parent(s).subrange(0, source_root.len() as int) =~= source_root);
            assert(path_strip(path_parent(s), source_root) =~= Seq::<u8>::empty());
            assert(path_file_name(s) =~= rest);
        } else {
            assert(ls > source_root.len() + 1) by {
                assert(s[source_root.len() as int] == sep());
                assert(ls >= 0 ==> s[ls] == sep());
            }
            assert(path_parent(s).subrange(0, source_root.len() as int) =~= source_root);
            assert(path_parent(s)[source_root.len() as int] == sep());
            let stripped_parent = path_strip(path_parent(s), source_root);
            assert(stripped_parent =~= s.subrange(source_root.len() as int + 1, ls));
            assert(rest.len() > 0);
            assert(path_file_name(s).len() > 0);
            assert(path_join(
                path_join(out_root, stripped_parent),
                path_file_name(s),
            ) =~= path_join(out_root, rest));
        }
    }
}

/// The destination of a copy: the source's parent carried from the source
/// tree into the output tree, with the source's file name appended.
pub fn copy_destination(out_root: &Vec<u8>, source_root: &Vec<u8>, source: &Vec<u8>) -> (dest: Vec<
    u8,
>)
    requires
        path_has_prefix(path_parent(source@), source_root@),
        source@.len() > 0,
    ensures
        dest@ == path_join(
            path_join(out_root@, path_strip(path_parent(source@), source_root@)),
            path_file_name(source@),
        ),
{
    let parent = parent_of(source).unwrap();
    let mapped = replace_prefix(Some(&parent), source_root, out_root).unwrap();
    let name = file_name_of(source);
    join_path(&mapped, &name)
}

/// Carries a path from one tree into another: strips the `original` root
/// from `src` and joins the remainder onto the `new` root. `None` maps to
/// `None`.
pub fn replace_prefix(src: Option<&Vec<u8>>, original: &Vec<u8>, new: &Vec<u8>) -> (r: Option<
    Vec<u8>,
>)
    requires
        src matches Some(s) ==> path_has_prefix(s@, original@),
    ensures
        r is Some <==> src is Some,
        src matches Some(s) ==> (r matches Some(out) && out@ == path_join(
            new@,
            path_strip(s@, original@),
        )),
{
    match src {
        None => None,
        Some(s) => {
            let rest = strip_prefix(s, original).unwrap();
            Some(join_path(new, &rest))
        },
    }
}

} // verus!
