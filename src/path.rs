//! Unix path arithmetic on byte strings.
//!
//! A path is held as its bytes, as the operating system sees it. The two
//! operations here follow the platform's rules: joining a relative part onto
//! a base (an absolute part replaces the base), and taking the final named
//! component of a path.
use vstd::prelude::*;

verus! {

/// The separator byte `/`.
pub const SEP: u8 = 47;

/// The byte `.`.
pub const DOT: u8 = 46;

/// Whether `p` is absolute, that is, starts with the separator.
pub open spec fn is_absolute(p: Seq<u8>) -> bool {
    p.len() > 0 && p[0] == SEP
}

/// `base` joined with `rel`: `rel` itself when it is absolute; otherwise
/// `rel` appended to `base`, with one separator between them unless `base`
/// is empty or already ends with one.
pub open spec fn join(base: Seq<u8>, rel: Seq<u8>) -> Seq<u8> {
    if is_absolute(rel) {
        rel
    } else if base.len() > 0 && base.last() != SEP {
        base + seq![SEP] + rel
    } else {
        base + rel
    }
}

/// Where the last segment of `p` begins: just past the last separator, or 0
/// when there is none.
pub open spec fn segment_start(p: Seq<u8>) -> nat
    decreases p.len(),
{
    if p.len() == 0 {
        0
    } else if p.last() == SEP {
        p.len()
    } else {
        segment_start(p.drop_last())
    }
}

/// The final named component of `p`. Trailing separators and `.` components
/// are passed over; a path that ends in `..`, or that has no named component
/// (empty, `/`, `.`), has none.
pub open spec fn file_name(p: Seq<u8>) -> Option<Seq<u8>>
    decreases p.len(),
    via file_name_decreases
{
    if p.len() == 0 {
        None
    } else if p.last() == SEP {
        file_name(p.drop_last())
    } else {
        let k = segment_start(p);
        let seg = p.subrange(k as int, p.len() as int);
        if seg == seq![DOT] {
            if k == 0 {
                None
            } else {
                file_name(p.subrange(0, k as int))
            }
        } else if seg == seq![DOT, DOT] {
            None
        } else {
            Some(seg)
        }
    }
}

proof fn lemma_segment_start(p: Seq<u8>)
    ensures
        segment_start(p) <= p.len(),
        segment_start(p) > 0 ==> p[segment_start(p) - 1] == SEP,
        forall|i: int| segment_start(p) <= i < p.len() ==> p[i] != SEP,
    decreases p.len(),
{
    if p.len() > 0 && p.last() != SEP {
        lemma_segment_start(p.drop_last());
        assert forall|i: int| segment_start(p) <= i < p.len() implies p[i] != SEP by {
            if i < p.len() - 1 {
                assert(p[i] == p.drop_last()[i]);
            }
        }
    }
}

#[via_fn]
proof fn file_name_decreases(p: Seq<u8>) {
    if p.len() > 0 && p.last() != SEP {
        lemma_segment_start(p);
        if segment_start(p) == p.len() {
            assert(p[p.len() - 1] == SEP);
        }
    }
}

/// Copies `s[lo..hi]` into a new vector.
fn copy_range(s: &Vec<u8>, lo: usize, hi: usize) -> (r: Vec<u8>)
    requires
        lo <= hi <= s.len(),
    ensures
        r@ == s@.subrange(lo as int, hi as int),
{
    let mut r: Vec<u8> = Vec::new();
    let mut i: usize = lo;
    while i < hi
        invariant
            lo <= i <= hi <= s.len(),
            r@ == s@.subrange(lo as int, i as int),
        decreases hi - i,
    {
        r.push(s[i]);
        i = i + 1;
        assert(r@ =~= s@.subrange(lo as int, i as int));
    }
    r
}

/// A copy of `s`.
pub fn copy_bytes(s: &Vec<u8>) -> (r: Vec<u8>)
    ensures
        r@ == s@,
{
    let r = copy_range(s, 0, s.len());
    assert(r@ =~= s@);
    r
}

/// Joins `rel` onto `base`.
pub fn join_path(base: &Vec<u8>, rel: &Vec<u8>) -> (r: Vec<u8>)
    requires
        base.len() + rel.len() < usize::MAX,
    ensures
        r@ == join(base@, rel@),
{
    if rel.len() > 0 && rel[0] == SEP {
        return copy_range(rel, 0, rel.len());
    }
    let mut r = copy_range(base, 0, base.len());
    if base.len() > 0 && base[base.len() - 1] != SEP {
        r.push(SEP);
    }
    let ghost head = r@;
    let mut i: usize = 0;
    while i < rel.len()
        invariant
            i <= rel.len(),
            r@ == head + rel@.subrange(0, i as int),
        decreases rel.len() - i,
    {
        r.push(rel[i]);
        i = i + 1;
        assert(r@ =~= head + rel@.subrange(0, i as int));
    }
    assert(rel@.subrange(0, rel.len() as int) =~= rel@);
    r
}

/// The final named component of `p`, if it has one.
pub fn file_name_of(p: &Vec<u8>) -> (r: Option<Vec<u8>>)
    ensures
        match r {
            Some(v) => file_name(p@) == Some(v@),
            None => file_name(p@) is None,
        },
{
    // `end` is the length of the prefix of `p` still to be examined; the
    // answer for `p` is the answer for that prefix.
    let mut end: usize = p.len();
    assert(p@.subrange(0, end as int) =~= p@);
    loop
        invariant
            end <= p.len(),
            file_name(p@.subrange(0, end as int)) == file_name(p@),
        decreases end,
    {
        let ghost q = p@.subrange(0, end as int);
        if end == 0 {
            return None;
        }
        if p[end - 1] == SEP {
            assert(q.drop_last() =~= p@.subrange(0, end - 1));
            end = end - 1;
        } else {
            let mut k: usize = end;
            assert(q.subrange(0, k as int) =~= q);
            while k > 0 && p[k - 1] != SEP
                invariant
                    k <= end <= p.len(),
                    q == p@.subrange(0, end as int),
                    segment_start(q) == segment_start(q.subrange(0, k as int)),
                    forall|i: int| k <= i < end ==> p@[i] != SEP,
                decreases k,
            {
                assert(q.subrange(0, k - 1) =~= q.subrange(0, k as int).drop_last());
                k = k - 1;
            }
            assert(segment_start(q) == k) by {
                assert(q.subrange(0, k as int) =~= q.subrange(0, k as int));
                if k > 0 {
                    assert(q.subrange(0, k as int).last() == SEP);
                }
                if k == end {
                    assert(q.subrange(0, k as int) =~= q);
                }
            }
            let ghost seg = q.subrange(k as int, end as int);
            let len = end - k;
            if len == 1 && p[k] == DOT {
                assert(seg =~= seq![DOT]);
                if k == 0 {
                    return None;
                }
                assert(q.subrange(0, k as int) =~= p@.subrange(0, k as int));
                end = k;
            } else if len == 2 && p[k] == DOT && p[k + 1] == DOT {
                assert(seg =~= seq![DOT, DOT]);
                return None;
            } else {
                let r = copy_range(p, k, end);
                assert(r@ =~= seg);
                assert(seg != seq![DOT]) by {
                    if len == 1 {
                        assert(seg[0] != DOT);
                    }
                }
                assert(seg != seq![DOT, DOT]) by {
                    if len == 2 {
                        assert(seg[0] != DOT || seg[1] != DOT);
                    }
                }
                return Some(r);
            }
        }
    }
}

/// The values of a sequence of byte vectors.
pub open spec fn byte_views(s: Seq<Vec<u8>>) -> Seq<Seq<u8>> {
    s.map_values(|v: Vec<u8>| v@)
}

/// `base` joined with each of `parts` in turn.
pub open spec fn join_all(base: Seq<u8>, parts: Seq<Seq<u8>>) -> Seq<u8>
    decreases parts.len(),
{
    if parts.len() == 0 {
        base
    } else {
        join_all(join(base, parts[0]), parts.drop_first())
    }
}

/// Whether every intermediate result of `join_all(base, parts)` stays
/// within the lengths that a vector can hold.
pub open spec fn fits_all(base: Seq<u8>, parts: Seq<Seq<u8>>) -> bool
    decreases parts.len(),
{
    parts.len() == 0 || (base.len() + parts[0].len() < usize::MAX && fits_all(
        join(base, parts[0]),
        parts.drop_first(),
    ))
}

/// Joins each of `parts` onto `base` in turn; `None` only when a path on
/// the way would be too long to hold.
pub fn locate(base: &Vec<u8>, parts: &Vec<Vec<u8>>) -> (r: Option<Vec<u8>>)
    ensures
        r is Some <==> fits_all(base@, byte_views(parts@)),
        r matches Some(v) ==> v@ == join_all(base@, byte_views(parts@)),
{
    let ghost all = byte_views(parts@);
    let mut r = copy_range(base, 0, base.len());
    assert(r@ =~= base@);
    let mut i: usize = 0;
    assert(all.subrange(0, all.len() as int) =~= all);
    while i < parts.len()
        invariant
            i <= parts.len(),
            all == byte_views(parts@),
            join_all(r@, all.subrange(i as int, all.len() as int)) == join_all(base@, all),
            fits_all(r@, all.subrange(i as int, all.len() as int)) == fits_all(base@, all),
        decreases parts.len() - i,
    {
        let ghost rest = all.subrange(i as int, all.len() as int);
        assert(rest.drop_first() =~= all.subrange(i + 1, all.len() as int));
        assert(rest[0] == parts[i as int]@);
        if r.len() >= usize::MAX - parts[i].len() {
            return None;
        }
        r = join_path(&r, &parts[i]);
        i = i + 1;
    }
    assert(all.subrange(i as int, all.len() as int) =~= Seq::<Seq<u8>>::empty());
    Some(r)
}

} // verus!
