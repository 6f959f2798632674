//! Archive paths: splitting into segments, joining, and resolving a
//! relative reference against the path of the document it appears in.
use vstd::prelude::*;

verus! {

/// The views of a sequence of strings.
pub open spec fn views(v: Seq<String>) -> Seq<Seq<char>> {
    v.map_values(|x: String| x@)
}

/// Scanning `s` left to right: the segments completed so far and the
/// segment under construction. Empty segments are skipped.
pub open spec fn split_state(s: Seq<char>) -> (Seq<Seq<char>>, Seq<char>)
    decreases s.len(),
{
    if s.len() == 0 {
        (seq![], seq![])
    } else {
        let (done, cur) = split_state(s.drop_last());
        if s.last() == '/' {
            if cur.len() == 0 {
                (done, cur)
            } else {
                (done.push(cur), seq![])
            }
        } else {
            (done, cur.push(s.last()))
        }
    }
}

/// The non-empty `/`-separated segments of `s`, in order.
pub open spec fn segments(s: Seq<char>) -> Seq<Seq<char>> {
    let (done, cur) = split_state(s);
    if cur.len() == 0 {
        done
    } else {
        done.push(cur)
    }
}

/// The segment that leads to the parent directory.
pub open spec fn is_parent_segment(seg: Seq<char>) -> bool {
    seg.len() == 2 && seg[0] == '.' && seg[1] == '.'
}

/// Walks from directory `dir` through `segs`: a `..` segment leaves the
/// last directory (if any), every other segment is appended as it is.
pub open spec fn walk(dir: Seq<Seq<char>>, segs: Seq<Seq<char>>) -> Seq<Seq<char>>
    decreases segs.len(),
{
    if segs.len() == 0 {
        dir
    } else {
        let d = walk(dir, segs.drop_last());
        if is_parent_segment(segs.last()) {
            if d.len() == 0 {
                d
            } else {
                d.drop_last()
            }
        } else {
            d.push(segs.last())
        }
    }
}

/// The segments joined with `/`.
pub open spec fn join(segs: Seq<Seq<char>>) -> Seq<char>
    decreases segs.len(),
{
    if segs.len() == 0 {
        seq![]
    } else if segs.len() == 1 {
        segs[0]
    } else {
        join(segs.drop_last()) + seq!['/'] + segs.last()
    }
}

/// The directory that holds `anchor`: its segments but the last.
pub open spec fn directory_of(anchor: Seq<char>) -> Seq<Seq<char>> {
    let s = segments(anchor);
    if s.len() == 0 {
        s
    } else {
        s.drop_last()
    }
}

/// The archive path that `reference` designates when it appears in the
/// document at `anchor`.
pub open spec fn resolved(reference: Seq<char>, anchor: Seq<char>) -> Seq<char> {
    join(walk(directory_of(anchor), segments(reference)))
}

/// Splits `s` into its non-empty `/`-separated segments.
pub fn split_segments(s: &str) -> (r: Vec<String>)
    ensures
        views(r@) == segments(s@),
{
    let n = s.unicode_len();
    let mut done: Vec<String> = Vec::new();
    let mut start: usize = 0;
    let mut i: usize = 0;
    while i < n
        invariant
            n == s@.len(),
            start <= i <= n,
            split_state(s@.subrange(0, i as int)) == (views(done@), s@.subrange(
                start as int,
                i as int,
            )),
        decreases n - i,
    {
        let c = s.get_char(i);
        proof {
            assert(s@.subrange(0, i + 1).drop_last() =~= s@.subrange(0, i as int));
        }
        if c == '/' {
            if start < i {
                let seg = s.substring_char(start, i).to_owned();
                proof {
                    assert(views(done@.push(seg)) =~= views(done@).push(seg@));
                }
                done.push(seg);
            }
            start = i + 1;
        } else {
            proof {
                assert(s@.subrange(start as int, i as int).push(c) =~= s@.subrange(
                    start as int,
                    i + 1,
                ));
            }
        }
        i = i + 1;
    }
    proof {
        assert(s@.subrange(0, n as int) =~= s@);
    }
    if start < n {
        let seg = s.substring_char(start, n).to_owned();
        proof {
            assert(views(done@.push(seg)) =~= views(done@).push(seg@));
        }
        done.push(seg);
    }
    done
}

/// Joins segments with `/`.
pub fn join_segments(segs: &Vec<String>) -> (r: String)
    ensures
        r@ == join(views(segs@)),
{
    let mut out = String::new();
    let mut k: usize = 0;
    while k < segs.len()
        invariant
            k <= segs.len(),
            out@ == join(views(segs@.subrange(0, k as int))),
        decreases segs.len() - k,
    {
        let ghost before = views(segs@.subrange(0, k as int));
        let ghost after = views(segs@.subrange(0, k + 1));
        proof {
            assert(after.drop_last() =~= before);
            assert(after.last() == segs@[k as int]@);
        }
        if k > 0 {
            proof {
                reveal_strlit("/");
            }
            out.append("/");
        }
        out.append(segs[k].as_str());
        proof {
            if k == 0 {
                assert(out@ =~= after[0]);
            } else {
                assert(out@ =~= join(before) + seq!['/'] + after.last());
            }
        }
        k = k + 1;
    }
    proof {
        assert(segs@.subrange(0, segs@.len() as int) =~= segs@);
    }
    out
}

/// Whether `seg` is the segment `..`.
fn is_parent(seg: &String) -> (r: bool)
    ensures
        r == is_parent_segment(seg@),
{
    let s = seg.as_str();
    s.unicode_len() == 2 && s.get_char(0) == '.' && s.get_char(1) == '.'
}

/// Resolves `reference` against `anchor`, the archive path of the document
/// it appears in: starting from the directory that holds `anchor`, a `..`
/// segment leaves the last directory and any other segment enters it. An
/// empty reference designates that directory itself.
pub fn resolve_path(reference: &str, anchor: &str) -> (r: String)
    ensures
        r@ == resolved(reference@, anchor@),
{
    let mut dir = split_segments(anchor);
    if dir.len() > 0 {
        dir.pop();
    }
    let segs = split_segments(reference);
    let ghost start = views(dir@);
    assert(start == directory_of(anchor@));
    let mut k: usize = 0;
    while k < segs.len()
        invariant
            k <= segs.len(),
            views(segs@) == segments(reference@),
            views(dir@) == walk(start, views(segs@).subrange(0, k as int)),
        decreases segs.len() - k,
    {
        proof {
            assert(views(segs@).subrange(0, k + 1).drop_last() =~= views(segs@).subrange(
                0,
                k as int,
            ));
        }
        if is_parent(&segs[k]) {
            if dir.len() > 0 {
                let ghost prev = dir@;
                dir.pop();
                proof {
                    assert(views(dir@) =~= views(prev).drop_last());
                }
            }
        } else {
            let seg = segs[k].clone();
            dir.push(seg);
            proof {
                assert(views(dir@) =~= walk(start, views(segs@).subrange(0, k as int)).push(seg@));
            }
        }
        k = k + 1;
    }
    proof {
        assert(views(segs@).subrange(0, segs@.len() as int) =~= views(segs@));
    }
    join_segments(&dir)
}

} // verus!
